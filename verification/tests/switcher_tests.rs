use workspace_core::model::Application;
use workspace_core::model::WindowElementInfo;
use workspace_core::model::WindowViewBaseModel;
use workspace_core::model::WorkspaceModel;
use workspace_core::switcher::AppSwitcherModel;

fn switcher_with(apps: &[&str]) -> AppSwitcherModel {
    let mut s = AppSwitcherModel::new();
    for a in apps {
        s.apps.push(Application::new(a));
    }
    s.active = true;
    s
}

fn elem(id: u64, app: &str) -> WindowElementInfo {
    WindowElementInfo {
        id,
        layer: id + 100,
        app_id: Some(app.to_string()),
        state: WindowViewBaseModel {
            x: 0,
            y: 0,
            w: 100,
            h: 100,
            title: app.to_string(),
            fullscreen: false,
        },
    }
}

#[test]
fn next_three_times_cycles_back_to_start() {
    let mut s = switcher_with(&["A", "B", "C"]);
    assert_eq!(s.current_app, 0);
    s.next();
    assert_eq!(s.current_app, 1);
    s.next();
    assert_eq!(s.current_app, 2);
    s.next();
    assert_eq!(s.current_app, 0);
}

#[test]
fn previous_from_start_wraps_to_last() {
    let mut s = switcher_with(&["A", "B", "C"]);
    assert_eq!(s.current_app, 0);
    s.previous();
    assert_eq!(s.current_app, 2);
}

#[test]
fn first_next_after_hide_restarts_from_front() {
    let mut s = switcher_with(&["A", "B", "C"]);
    s.next();
    s.next();
    assert_eq!(s.current_app, 2);
    s.hide_switcher();
    assert!(!s.active);
    s.next();
    assert_eq!(s.current_app, 1);
    assert!(s.active);
}

#[test]
fn cycling_an_empty_list_stays_at_zero() {
    let mut s = AppSwitcherModel::new();
    s.next();
    assert_eq!(s.current_app, 0);
    s.previous();
    assert_eq!(s.current_app, 0);
    assert!(s.get_current_app().is_none());
}

#[test]
fn get_current_app_returns_the_highlighted_entry() {
    let mut s = switcher_with(&["A", "B", "C"]);
    s.next();
    let app = s.get_current_app().unwrap();
    assert_eq!(app.identifier, "B".to_string());
}

#[test]
fn update_from_lists_apps_in_reverse_mru_order() {
    let mut m = WorkspaceModel::new();
    m.update_with_window_elements(&vec![elem(1, "term"), elem(2, "web"), elem(3, "mail")]);
    // MRU front to back: mail, web, term — the switcher shows the reverse
    let mut s = AppSwitcherModel::new();
    s.update_from(&m);
    let ids: Vec<String> = s.apps.iter().map(|a| a.identifier.clone()).collect();
    assert_eq!(
        ids,
        vec!["term".to_string(), "web".to_string(), "mail".to_string()]
    );
    assert_eq!(s.current_app, 0);
}

#[test]
fn update_from_clamps_the_highlight_to_the_new_bounds() {
    let mut m = WorkspaceModel::new();
    m.update_with_window_elements(&vec![elem(1, "term"), elem(2, "web"), elem(3, "mail")]);
    let mut s = AppSwitcherModel::new();
    s.update_from(&m);
    s.next();
    s.next();
    assert_eq!(s.current_app, 2);
    // the workspace shrinks to one app: the highlight is capped
    m.update_with_window_elements(&vec![elem(1, "term")]);
    s.update_from(&m);
    assert_eq!(s.apps.len(), 1);
    assert_eq!(s.current_app, 0);
}
