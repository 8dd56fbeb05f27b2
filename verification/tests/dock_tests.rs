use workspace_core::dock::DockModel;

#[test]
fn fresh_dock_is_empty_with_the_pointer_away() {
    let d = DockModel::new();
    assert_eq!(d.launchers.len(), 0);
    assert_eq!(d.running_apps.len(), 0);
    assert_eq!(d.minimized_windows.len(), 0);
    assert_eq!(d.width, 0);
    assert_eq!(d.focus, -500);
}
