use workspace_core::model::WindowElementInfo;
use workspace_core::model::WindowViewBaseModel;
use workspace_core::model::WorkspaceModel;

fn elem(id: u64, app: Option<&str>, x: i32, y: i32, w: i32, h: i32, title: &str) -> WindowElementInfo {
    WindowElementInfo {
        id,
        layer: id + 100,
        app_id: app.map(|a| a.to_string()),
        state: WindowViewBaseModel {
            x,
            y,
            w,
            h,
            title: title.to_string(),
            fullscreen: false,
        },
    }
}

fn app_ids(model: &WorkspaceModel) -> Vec<String> {
    model.zindex_application_list.clone()
}

#[test]
fn ingest_builds_zindex_and_window_index() {
    let mut m = WorkspaceModel::new();
    let elems = vec![
        elem(1, Some("term"), 0, 0, 400, 300, "term one"),
        elem(2, Some("term"), 10, 10, 400, 300, "term two"),
        elem(3, Some("web"), 20, 20, 800, 600, "browser"),
    ];
    let requests = m.update_with_window_elements(&elems);
    assert_eq!(app_ids(&m), vec!["term".to_string(), "web".to_string()]);
    assert_eq!(m.windows_list, vec![1, 2, 3]);
    assert_eq!(m.get_app_windows(&"term".to_string()), vec![1, 2]);
    assert_eq!(m.get_app_windows(&"web".to_string()), vec![3]);
    assert_eq!(m.get_app_windows(&"nothing".to_string()), Vec::<u64>::new());
    // the current application is the app of the last resolvable element
    assert_eq!(m.current_application, 1);
    // MRU order: most recently arrived app in front
    assert_eq!(m.application_list, vec!["web".to_string(), "term".to_string()]);
    // one icon request per element whose app has no icon yet
    assert_eq!(
        requests,
        vec!["term".to_string(), "term".to_string(), "web".to_string()]
    );
    assert_eq!(m.version, 1);
}

#[test]
fn ingest_twice_is_idempotent() {
    let mut m = WorkspaceModel::new();
    let elems = vec![
        elem(1, Some("term"), 0, 0, 400, 300, "a"),
        elem(3, Some("web"), 20, 20, 800, 600, "b"),
    ];
    m.update_with_window_elements(&elems);
    let zindex_first = m.zindex_application_list.clone();
    let current_first = m.current_application;
    let windows_first = m.windows_list.clone();
    let mru_first = m.application_list.clone();
    let term_windows_first = m.get_app_windows(&"term".to_string());
    m.update_with_window_elements(&elems);
    assert_eq!(m.zindex_application_list, zindex_first);
    assert_eq!(m.current_application, current_first);
    assert_eq!(m.windows_list, windows_first);
    assert_eq!(m.application_list, mru_first);
    assert_eq!(m.get_app_windows(&"term".to_string()), term_windows_first);
    assert_eq!(m.version, 2);
}

#[test]
fn current_application_ignores_trailing_unresolvable_element() {
    let mut m = WorkspaceModel::new();
    let elems = vec![
        elem(1, Some("term"), 0, 0, 400, 300, "a"),
        elem(2, None, 0, 0, 100, 100, "splash"),
    ];
    m.update_with_window_elements(&elems);
    assert_eq!(m.current_application, 0);
    // the unresolvable element takes no part in the pass
    assert_eq!(m.windows_list, vec![1]);
}

#[test]
fn reappearing_app_moves_to_front_of_mru() {
    let mut m = WorkspaceModel::new();
    m.update_with_window_elements(&vec![
        elem(1, Some("term"), 0, 0, 400, 300, "a"),
        elem(3, Some("web"), 0, 0, 800, 600, "b"),
    ]);
    assert_eq!(m.application_list, vec!["web".to_string(), "term".to_string()]);
    // the terminal's window goes away: it drops out of the MRU list
    m.update_with_window_elements(&vec![elem(3, Some("web"), 0, 0, 800, 600, "b")]);
    assert_eq!(m.application_list, vec!["web".to_string()]);
    // it reappears: it moves to the front
    m.update_with_window_elements(&vec![
        elem(3, Some("web"), 0, 0, 800, 600, "b"),
        elem(1, Some("term"), 0, 0, 400, 300, "a"),
    ]);
    assert_eq!(m.application_list, vec!["term".to_string(), "web".to_string()]);
}

#[test]
fn stable_apps_keep_their_mru_order() {
    let mut m = WorkspaceModel::new();
    m.update_with_window_elements(&vec![
        elem(1, Some("term"), 0, 0, 400, 300, "a"),
        elem(3, Some("web"), 0, 0, 800, 600, "b"),
    ]);
    assert_eq!(m.application_list, vec!["web".to_string(), "term".to_string()]);
    // both apps stay: their relative order is kept whatever the pass order
    m.update_with_window_elements(&vec![
        elem(1, Some("term"), 0, 0, 400, 300, "a"),
        elem(3, Some("web"), 0, 0, 800, 600, "b"),
    ]);
    assert_eq!(m.application_list, vec!["web".to_string(), "term".to_string()]);
}

#[test]
fn repeated_overlapping_ingests_leave_no_duplicate_windows() {
    let mut m = WorkspaceModel::new();
    m.update_with_window_elements(&vec![
        elem(1, Some("term"), 0, 0, 400, 300, "a"),
        elem(2, Some("term"), 0, 0, 400, 300, "b"),
    ]);
    m.update_with_window_elements(&vec![
        elem(2, Some("term"), 0, 0, 400, 300, "b"),
        elem(4, Some("term"), 0, 0, 400, 300, "c"),
    ]);
    assert_eq!(m.get_app_windows(&"term".to_string()), vec![2, 4]);
}

#[test]
fn ingest_preserves_window_flags_and_updates_geometry() {
    let mut m = WorkspaceModel::new();
    m.update_with_window_elements(&vec![elem(7, Some("term"), 0, 0, 400, 300, "old title")]);
    m.minimize_window(7);
    m.update_with_window_elements(&vec![elem(7, Some("term"), 50, 60, 640, 480, "new title")]);
    let w = m.get_window_for_surface(7).unwrap();
    assert_eq!(w.x, 50);
    assert_eq!(w.y, 60);
    assert_eq!(w.w, 640);
    assert_eq!(w.h, 480);
    assert_eq!(w.title, "new title".to_string());
    assert!(w.is_minimized);
}

#[test]
fn stale_minimized_entries_are_dropped() {
    let mut m = WorkspaceModel::new();
    m.update_with_window_elements(&vec![
        elem(1, Some("term"), 0, 0, 400, 300, "a"),
        elem(2, Some("term"), 0, 0, 400, 300, "b"),
    ]);
    m.minimize_window(1);
    assert_eq!(m.minimized_windows, vec![1]);
    // the surface disappears: the minimized entry goes with it
    m.update_with_window_elements(&vec![elem(2, Some("term"), 0, 0, 400, 300, "b")]);
    assert_eq!(m.minimized_windows, Vec::<u64>::new());
}

#[test]
fn minimize_unminimize_round_trip() {
    let mut m = WorkspaceModel::new();
    m.update_with_window_elements(&vec![elem(7, Some("term"), 5, 6, 400, 300, "t")]);
    let version_before = m.version;
    assert!(!m.is_window_minimized(7));
    let changed = m.minimize_window(7);
    assert!(changed);
    assert!(m.is_window_minimized(7));
    assert_eq!(m.minimized_windows, vec![7]);
    let changed = m.unminimize_window(7);
    assert!(changed);
    assert!(!m.is_window_minimized(7));
    assert_eq!(m.minimized_windows, Vec::<u64>::new());
    let w = m.get_window_for_surface(7).unwrap();
    assert_eq!((w.x, w.y, w.w, w.h), (5, 6, 400, 300));
    // exactly two notifications, one per operation
    assert_eq!(m.version, version_before + 2);
}

#[test]
fn minimize_of_unknown_or_minimized_window_is_a_no_op() {
    let mut m = WorkspaceModel::new();
    m.update_with_window_elements(&vec![elem(7, Some("term"), 0, 0, 400, 300, "t")]);
    let version_before = m.version;
    assert!(!m.minimize_window(99));
    assert_eq!(m.version, version_before);
    assert!(m.minimize_window(7));
    assert!(!m.minimize_window(7));
    assert_eq!(m.minimized_windows, vec![7]);
    assert!(!m.unminimize_window(99));
}

#[test]
fn update_window_patches_in_place_without_notifying() {
    let mut m = WorkspaceModel::new();
    m.update_with_window_elements(&vec![elem(7, Some("term"), 0, 0, 400, 300, "t")]);
    let version_before = m.version;
    let st = WindowViewBaseModel {
        x: 11,
        y: 22,
        w: 333,
        h: 444,
        title: "retitled".to_string(),
        fullscreen: true,
    };
    m.update_window(7, &st);
    let w = m.get_window_for_surface(7).unwrap();
    assert_eq!((w.x, w.y, w.w, w.h), (11, 22, 333, 444));
    assert_eq!(w.title, "retitled".to_string());
    assert!(w.is_fullscreen);
    assert_eq!(m.version, version_before);
    assert!(m.get_window_for_surface(99).is_none());
}

#[test]
fn current_app_is_checked_when_list_is_empty() {
    let m = WorkspaceModel::new();
    assert!(m.get_current_app().is_none());
    assert_eq!(m.get_current_app_windows(), Vec::<u64>::new());
}

#[test]
fn current_app_resolves_through_the_cache() {
    let mut m = WorkspaceModel::new();
    m.update_with_window_elements(&vec![
        elem(1, Some("term"), 0, 0, 400, 300, "a"),
        elem(3, Some("web"), 0, 0, 800, 600, "b"),
    ]);
    let app = m.get_current_app().unwrap();
    assert_eq!(app.identifier, "web".to_string());
    assert_eq!(m.get_current_app_windows(), vec![3]);
}

#[test]
fn apply_app_info_enriches_once_per_icon_path() {
    let mut m = WorkspaceModel::new();
    m.update_with_window_elements(&vec![elem(1, Some("term"), 0, 0, 400, 300, "a")]);
    let version_before = m.version;
    let changed = m.apply_app_info(
        &"term".to_string(),
        Some("Terminal".to_string()),
        Some("/icons/term.png".to_string()),
        Some(42),
    );
    assert!(changed);
    assert_eq!(m.version, version_before + 1);
    let app = m.get_current_app().unwrap();
    assert_eq!(app.desktop_name, Some("Terminal".to_string()));
    assert_eq!(app.icon_path, Some("/icons/term.png".to_string()));
    assert_eq!(app.icon, Some(42));
    // the same resolution again changes nothing and stays silent
    let changed = m.apply_app_info(
        &"term".to_string(),
        Some("Terminal".to_string()),
        Some("/icons/term.png".to_string()),
        Some(42),
    );
    assert!(!changed);
    assert_eq!(m.version, version_before + 1);
}

#[test]
fn resolved_icons_stop_further_icon_requests() {
    let mut m = WorkspaceModel::new();
    m.update_with_window_elements(&vec![elem(1, Some("term"), 0, 0, 400, 300, "a")]);
    m.apply_app_info(
        &"term".to_string(),
        Some("Terminal".to_string()),
        Some("/icons/term.png".to_string()),
        Some(42),
    );
    let requests = m.update_with_window_elements(&vec![elem(1, Some("term"), 0, 0, 400, 300, "a")]);
    assert_eq!(requests, Vec::<String>::new());
}
