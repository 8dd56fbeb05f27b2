use workspace_core::geometry::LayoutRect;
use workspace_core::model::WindowElementInfo;
use workspace_core::model::WindowViewBaseModel;
use workspace_core::workspace::Workspace;

fn elem(id: u64, app: &str, x: i32, y: i32, w: i32, h: i32) -> WindowElementInfo {
    WindowElementInfo {
        id,
        layer: id + 100,
        app_id: Some(app.to_string()),
        state: WindowViewBaseModel {
            x,
            y,
            w,
            h,
            title: app.to_string(),
            fullscreen: false,
        },
    }
}

#[test]
fn fresh_workspace_has_no_engaged_gesture() {
    let w = Workspace::new();
    assert!(!w.get_show_all());
    assert!(!w.get_show_desktop());
}

#[test]
fn set_size_notifies_once() {
    let mut w = Workspace::new();
    let version_before = w.model.version;
    w.set_size(2560);
    assert_eq!(w.model.width, 2560);
    assert_eq!(w.model.version, version_before + 1);
}

#[test]
fn show_all_frame_interpolates_the_chrome() {
    let mut w = Workspace::new();
    let progress = w.expose_show_all_update(100, false);
    assert_eq!(progress, 100);
    let frame = w.show_all_frame(progress, false);
    // selector slides from -200 to 0, dock from -20 to 250
    assert_eq!(frame.selector_y, -180);
    assert_eq!(frame.selector_opacity_permille, 100);
    assert_eq!(frame.dock_y, 7);
    assert!(!frame.animated);
    assert_eq!(frame.targets.len(), 0);
}

#[test]
fn show_all_moves_windows_to_their_assigned_rectangles() {
    let mut w = Workspace::new();
    w.update_with_window_elements(&vec![elem(1, "term", 0, 0, 500, 300)]);
    w.ensure_expose_layout(1000, 870);
    // the exposé area is (0, 250) to (1000, 850); the single 500 by 300
    // window keeps its size and centres there
    assert_eq!(w.expose_bin.len(), 1);
    assert_eq!(w.expose_bin[0].0, 1);
    assert_eq!(w.expose_bin[0].1, LayoutRect::new(250, 400, 500, 300));
    let frame = w.show_all_frame(1000, true);
    assert_eq!(frame.targets.len(), 1);
    assert_eq!(frame.targets[0].id, 1);
    assert_eq!(frame.targets[0].x, 250);
    assert_eq!(frame.targets[0].y, 400);
    assert_eq!(frame.targets[0].scale_permille, 1000);
    assert!(frame.animated);
    assert_eq!(frame.duration_ms, 200);
    let tile = &frame.selector_state.rects[0];
    assert_eq!((tile.x, tile.y, tile.w, tile.h), (250, 400, 500, 300));
    assert_eq!(tile.index, 0);
}

#[test]
fn expose_layout_is_memoized_for_the_gesture() {
    let mut w = Workspace::new();
    w.update_with_window_elements(&vec![elem(1, "term", 0, 0, 500, 300)]);
    w.ensure_expose_layout(1000, 870);
    let first = w.expose_bin.clone();
    // new geometry arrives mid-gesture: the memoized layout stays
    w.update_with_window_elements(&vec![
        elem(1, "term", 0, 0, 500, 300),
        elem(2, "web", 0, 0, 600, 400),
    ]);
    w.ensure_expose_layout(1000, 870);
    assert_eq!(w.expose_bin.len(), first.len());
    assert_eq!(w.expose_bin[0].1, first[0].1);
    // the gesture ends: the memo is dropped and recomputed next time
    w.clear_expose_layout();
    assert_eq!(w.expose_bin.len(), 0);
    w.ensure_expose_layout(1000, 870);
    assert_eq!(w.expose_bin.len(), 2);
}

#[test]
fn minimized_windows_sit_out_both_gestures() {
    let mut w = Workspace::new();
    w.update_with_window_elements(&vec![
        elem(1, "term", 0, 0, 500, 300),
        elem(2, "web", 0, 0, 600, 400),
    ]);
    w.minimize_window(2);
    w.ensure_expose_layout(1000, 870);
    assert_eq!(w.expose_bin.len(), 1);
    assert_eq!(w.expose_bin[0].0, 1);
    let frame = w.expose_show_desktop(500, false);
    assert_eq!(frame.targets.len(), 1);
    assert_eq!(frame.targets[0].id, 1);
}

#[test]
fn show_desktop_slides_windows_off_screen() {
    let mut w = Workspace::new();
    w.update_with_window_elements(&vec![elem(1, "term", 10, 20, 500, 300)]);
    let frame = w.expose_show_desktop(1000, true);
    assert_eq!(frame.progress, 1000);
    assert!(w.get_show_desktop());
    assert_eq!(frame.targets.len(), 1);
    // fully engaged: the window is translated by its own negative size
    assert_eq!(frame.targets[0].x, -500);
    assert_eq!(frame.targets[0].y, -300);
    assert!(frame.animated);
    assert_eq!(frame.duration_ms, 500);
}

#[test]
fn show_desktop_midway_interpolates_positions() {
    let mut w = Workspace::new();
    w.update_with_window_elements(&vec![elem(1, "term", 10, 20, 500, 300)]);
    let frame = w.expose_show_desktop(500, false);
    assert_eq!(frame.progress, 500);
    assert!(!frame.animated);
    // halfway from (10, 20) toward (-500, -300)
    assert_eq!(frame.targets[0].x, -245);
    assert_eq!(frame.targets[0].y, -140);
}

#[test]
fn show_all_gesture_settles_and_reports() {
    let mut w = Workspace::new();
    let progress = w.expose_show_all_update(400, false);
    assert_eq!(progress, 400);
    assert!(!w.get_show_all());
    let progress = w.expose_show_all_update(0, true);
    assert_eq!(progress, 1000);
    assert!(w.get_show_all());
    // regressing below ninety percent and ending releases it
    let progress = w.expose_show_all_update(-200, true);
    assert_eq!(progress, 0);
    assert!(!w.get_show_all());
}

#[test]
fn cursor_over_dock_uses_the_reported_bounds() {
    let w = Workspace::new();
    let bounds = LayoutRect::new(300, 1000, 400, 80);
    assert!(w.is_cursor_over_dock(&bounds, 300, 1000));
    assert!(w.is_cursor_over_dock(&bounds, 699, 1079));
    assert!(!w.is_cursor_over_dock(&bounds, 700, 1040));
    assert!(!w.is_cursor_over_dock(&bounds, 299, 1040));
}

#[test]
fn facade_exposes_the_store_accessors() {
    let mut w = Workspace::new();
    w.update_with_window_elements(&vec![
        elem(1, "term", 0, 0, 500, 300),
        elem(3, "web", 0, 0, 800, 600),
    ]);
    assert_eq!(w.get_app_windows(&"term".to_string()), vec![1]);
    assert_eq!(w.get_current_app().unwrap().identifier, "web".to_string());
    assert_eq!(w.get_current_app_windows(), vec![3]);
    assert_eq!(w.get_window_for_surface(1).unwrap().title, "term".to_string());
    let changed = w.apply_app_info(
        &"web".to_string(),
        Some("Browser".to_string()),
        Some("/icons/web.png".to_string()),
        Some(7),
    );
    assert!(changed);
    assert!(w.unminimize_window(1) == false);
    assert!(w.minimize_window(1));
    assert!(w.unminimize_window(1));
}
