use wm_widgets::model::Workspace;
use wm_widgets::workspace_container::WorkspaceContainer;
use wm_widgets::workspace_widget::WorkspaceWidget;

fn wsp(id: u64, name: &str, output: Option<&str>, active: bool) -> Workspace {
    Workspace {
        id,
        name: name.to_string(),
        output: output.map(|o| o.to_string()),
        active,
        focused: false,
    }
}

#[test]
fn label_shows_current_name_and_count() {
    let mut c = WorkspaceContainer::new("out".to_string());
    c.on_workspace_overwrite(&wsp(1, "dev", Some("out"), true));
    c.on_workspace_overwrite(&wsp(2, "web", Some("out"), false));
    c.update_view();
    assert_eq!(c.indicator, "dev / 2");
    assert!(!c.dirty);
}

#[test]
fn other_output_is_ignored() {
    let mut c = WorkspaceContainer::new("out".to_string());
    c.update_view();
    c.on_workspace_overwrite(&wsp(3, "abroad", Some("elsewhere"), true));
    assert!(!c.dirty);
    assert_eq!(c.workspace_widget_map.len(), 0);
    assert_eq!(c.current_workspace_id, None);
}

#[test]
fn placeholder_without_current_workspace() {
    let mut c = WorkspaceContainer::new("out".to_string());
    c.on_workspace_overwrite(&wsp(1, "dev", Some("out"), false));
    c.update_view();
    assert_eq!(c.indicator, "? / 1");
}

#[test]
fn empty_collection_label() {
    let mut c = WorkspaceContainer::new("out".to_string());
    c.update_view();
    assert_eq!(c.indicator, "? / 0");
}

#[test]
fn delete_leaves_dirty_flag_alone() {
    let mut c = WorkspaceContainer::new("out".to_string());
    c.on_workspace_overwrite(&wsp(1, "dev", Some("out"), true));
    c.update_view();
    assert_eq!(c.indicator, "dev / 1");
    c.on_workspace_delete(1);
    assert!(!c.dirty);
    assert_eq!(c.workspace_widget_map.len(), 0);
    c.update_view();
    assert_eq!(c.indicator, "dev / 1");
}

#[test]
fn deleted_current_workspace_falls_back_to_placeholder() {
    let mut c = WorkspaceContainer::new("out".to_string());
    c.on_workspace_overwrite(&wsp(1, "dev", Some("out"), true));
    c.update_view();
    c.on_workspace_delete(1);
    c.on_workspace_overwrite(&wsp(2, "web", Some("out"), false));
    c.update_view();
    assert_eq!(c.indicator, "? / 1");
}

#[test]
fn overwrite_replaces_entry_and_updates_current() {
    let mut c = WorkspaceContainer::new("out".to_string());
    c.on_workspace_overwrite(&wsp(1, "dev", Some("out"), false));
    c.on_workspace_overwrite(&wsp(1, "renamed", Some("out"), true));
    assert_eq!(c.workspace_widget_map.len(), 1);
    assert_eq!(c.current_workspace_id, Some(1));
    c.update_view();
    assert_eq!(c.indicator, "renamed / 1");
}

#[test]
fn count_reaches_two_digits() {
    let mut c = WorkspaceContainer::new("out".to_string());
    c.on_workspace_overwrite(&wsp(1, "a", Some("out"), true));
    for id in 2..=10u64 {
        c.on_workspace_overwrite(&wsp(id, "b", Some("out"), false));
    }
    c.update_view();
    assert_eq!(c.indicator, "a / 10");
}

#[test]
fn ws_reconcile_twice_changes_nothing() {
    let mut c = WorkspaceContainer::new("out".to_string());
    c.on_workspace_overwrite(&wsp(1, "dev", Some("out"), true));
    c.update_view();
    let label = c.indicator.clone();
    c.update_view();
    assert_eq!(c.indicator, label);
    assert!(!c.dirty);
}

#[test]
fn upsert_burst_then_one_reconcile_matches_stepwise() {
    let events = [
        wsp(1, "dev", Some("out"), true),
        wsp(2, "web", Some("out"), false),
        wsp(1, "renamed", Some("out"), false),
        wsp(3, "abroad", Some("elsewhere"), true),
    ];
    let mut burst = WorkspaceContainer::new("out".to_string());
    burst.update_view();
    let mut stepwise = WorkspaceContainer::new("out".to_string());
    stepwise.update_view();
    for w in events.iter() {
        burst.on_workspace_overwrite(w);
    }
    burst.update_view();
    for w in events.iter() {
        stepwise.on_workspace_overwrite(w);
        stepwise.update_view();
    }
    assert_eq!(burst.indicator, stepwise.indicator);
    assert_eq!(burst.indicator, "renamed / 2");
    assert_eq!(burst.workspace_widget_map.len(), stepwise.workspace_widget_map.len());
}

#[test]
fn workspace_widget_wraps_snapshot() {
    let w = WorkspaceWidget::new(wsp(5, "five", Some("out"), false));
    assert_eq!(w.workspace.id, 5);
    assert_eq!(w.workspace.name, "five");
}
