use wm_widgets::model::Window;
use wm_widgets::model::Workspace;
use wm_widgets::window_container::WindowContainer;
use wm_widgets::window_widget::WindowWidget;

fn win(id: u64, title: Option<&str>, ws: Option<u64>, focused: bool, x: i64) -> Window {
    Window {
        id,
        title: title.map(|t| t.to_string()),
        app_id: None,
        workspace_id: ws,
        focused,
        floating: false,
        urgent: false,
        x,
    }
}

fn wsp(id: u64, name: &str, output: Option<&str>, active: bool, focused: bool) -> Workspace {
    Workspace {
        id,
        name: name.to_string(),
        output: output.map(|o| o.to_string()),
        active,
        focused,
    }
}

fn shown(c: &WindowContainer) -> Vec<u64> {
    c.holder.clone()
}

#[test]
fn scenario_order_and_filter() {
    let mut c = WindowContainer::new("out".to_string());
    c.on_workspace_change(&wsp(1, "one", Some("out"), true, true));
    c.on_window_overwrite(&win(10, Some("A"), Some(1), false, 5));
    c.on_window_overwrite(&win(11, Some("B"), Some(1), false, 2));
    c.on_window_overwrite(&win(12, Some("C"), Some(2), false, 1));
    c.update_view();
    assert_eq!(shown(&c), vec![11, 10]);
    assert!(!c.dirty);
}

#[test]
fn scenario_repeat_ingest_is_noop() {
    let mut c = WindowContainer::new("out".to_string());
    c.on_workspace_change(&wsp(1, "one", Some("out"), true, true));
    c.on_window_overwrite(&win(10, Some("x"), Some(1), false, 0));
    c.update_view();
    let before = shown(&c);
    c.on_window_overwrite(&win(10, Some("x"), Some(1), false, 0));
    c.update_view();
    assert_eq!(shown(&c), before);
    assert!(!c.dirty);
    assert_eq!(c.widgets.len(), 1);
    assert!(!c.widgets[0].dirty);
}

#[test]
fn update_data_equal_returns_false() {
    let mut e = WindowWidget::new(win(7, Some("x"), Some(1), true, 3));
    e.update_view();
    assert!(!e.dirty);
    let changed = e.update_data(win(7, Some("x"), Some(1), true, 3));
    assert!(!changed);
    assert!(!e.dirty);
}

#[test]
fn update_data_change_sets_dirty() {
    let mut e = WindowWidget::new(win(7, Some("x"), Some(1), true, 3));
    e.update_view();
    let changed = e.update_data(win(7, Some("y"), Some(1), true, 3));
    assert!(changed);
    assert!(e.dirty);
    e.update_view();
    assert_eq!(e.widget.title_text, "y");
}

#[test]
fn entry_starts_dirty() {
    let e = WindowWidget::new(win(1, None, None, false, 0));
    assert!(e.dirty);
}

#[test]
fn refresh_focused_without_title_shows_placeholder() {
    let mut e = WindowWidget::new(win(1, None, None, true, 0));
    e.update_view();
    assert_eq!(e.widget.title_text, "Unknown Title");
    assert!(e.widget.title_visible);
    assert!(e.widget.focused_mark);
}

#[test]
fn refresh_unfocused_hides_title() {
    let mut e = WindowWidget::new(win(1, Some("t"), None, false, 0));
    e.update_view();
    assert_eq!(e.widget.title_text, "");
    assert!(!e.widget.title_visible);
    assert!(!e.widget.focused_mark);
}

#[test]
fn refresh_mirrors_state_marks() {
    let mut w = win(1, Some("t"), None, false, 0);
    w.floating = true;
    w.urgent = true;
    let mut e = WindowWidget::new(w);
    e.update_view();
    assert!(e.widget.floating_mark);
    assert!(e.widget.urgent_mark);
}

#[test]
fn delete_absent_is_noop() {
    let mut c = WindowContainer::new("out".to_string());
    c.on_workspace_change(&wsp(1, "one", Some("out"), true, true));
    c.on_window_overwrite(&win(10, Some("A"), Some(1), false, 5));
    c.update_view();
    c.on_window_delete(99);
    assert_eq!(c.widgets.len(), 1);
    assert!(!c.dirty);
    assert_eq!(shown(&c), vec![10]);
}

#[test]
fn delete_present_removes_exactly_that_entry() {
    let mut c = WindowContainer::new("out".to_string());
    c.on_workspace_change(&wsp(1, "one", Some("out"), true, true));
    c.on_window_overwrite(&win(10, Some("A"), Some(1), false, 5));
    c.on_window_overwrite(&win(11, Some("B"), Some(1), false, 2));
    c.update_view();
    c.on_window_delete(11);
    assert!(c.dirty);
    assert_eq!(c.widgets.len(), 1);
    assert_eq!(c.widgets[0].window.id, 10);
    c.update_view();
    assert_eq!(shown(&c), vec![10]);
}

#[test]
fn reconcile_twice_changes_nothing() {
    let mut c = WindowContainer::new("out".to_string());
    c.on_workspace_change(&wsp(1, "one", Some("out"), true, true));
    c.on_window_overwrite(&win(10, Some("A"), Some(1), true, 5));
    c.on_window_overwrite(&win(11, Some("B"), Some(1), false, 2));
    c.update_view();
    let holder = shown(&c);
    let titles: Vec<String> = c.widgets.iter().map(|e| e.widget.title_text.clone()).collect();
    c.update_view();
    assert_eq!(shown(&c), holder);
    let titles2: Vec<String> = c.widgets.iter().map(|e| e.widget.title_text.clone()).collect();
    assert_eq!(titles2, titles);
    assert!(!c.dirty);
}

#[test]
fn equal_positions_keep_insertion_order() {
    let mut c = WindowContainer::new("out".to_string());
    c.on_workspace_change(&wsp(1, "one", Some("out"), true, true));
    c.on_window_overwrite(&win(20, Some("first"), Some(1), false, 3));
    c.on_window_overwrite(&win(21, Some("second"), Some(1), false, 3));
    c.on_window_overwrite(&win(22, Some("left"), Some(1), false, -1));
    c.update_view();
    assert_eq!(shown(&c), vec![22, 20, 21]);
}

#[test]
fn ingest_never_attaches_a_node() {
    let mut c = WindowContainer::new("out".to_string());
    c.on_workspace_change(&wsp(1, "one", Some("out"), true, true));
    c.update_view();
    c.on_window_overwrite(&win(30, Some("other"), Some(2), false, 0));
    assert_eq!(shown(&c), Vec::<u64>::new());
    assert!(c.dirty);
    c.update_view();
    assert_eq!(shown(&c), Vec::<u64>::new());
    c.on_window_overwrite(&win(31, Some("here"), Some(1), false, 0));
    assert_eq!(shown(&c), Vec::<u64>::new());
    c.update_view();
    assert_eq!(shown(&c), vec![31]);
}

#[test]
fn workspace_change_of_other_output_is_ignored() {
    let mut c = WindowContainer::new("out".to_string());
    c.on_workspace_change(&wsp(1, "one", Some("out"), true, true));
    c.update_view();
    c.on_workspace_change(&wsp(2, "two", Some("elsewhere"), true, true));
    assert_eq!(c.workspace_id, 1);
    assert!(!c.dirty);
    c.on_workspace_change(&wsp(3, "three", Some("out"), true, false));
    assert_eq!(c.workspace_id, 1);
}

#[test]
fn burst_then_one_reconcile_matches_stepwise() {
    let events = [
        win(10, Some("A"), Some(1), false, 5),
        win(11, Some("B"), Some(1), true, 2),
        win(10, Some("A2"), Some(1), false, 1),
        win(12, Some("C"), Some(2), false, 0),
    ];
    let mut burst = WindowContainer::new("out".to_string());
    burst.on_workspace_change(&wsp(1, "one", Some("out"), true, true));
    burst.update_view();
    let mut stepwise = WindowContainer::new("out".to_string());
    stepwise.on_workspace_change(&wsp(1, "one", Some("out"), true, true));
    stepwise.update_view();
    for w in events.iter() {
        burst.on_window_overwrite(w);
    }
    burst.on_window_delete(11);
    burst.update_view();
    for w in events.iter() {
        stepwise.on_window_overwrite(w);
        stepwise.update_view();
    }
    stepwise.on_window_delete(11);
    stepwise.update_view();
    assert_eq!(shown(&burst), shown(&stepwise));
    assert_eq!(shown(&burst), vec![10]);
    for (id_a, id_b) in shown(&burst).iter().zip(shown(&stepwise).iter()) {
        let ea = burst.widgets.iter().find(|e| e.window.id == *id_a).unwrap();
        let eb = stepwise.widgets.iter().find(|e| e.window.id == *id_b).unwrap();
        assert_eq!(ea.widget.title_text, eb.widget.title_text);
        assert_eq!(ea.widget.title_visible, eb.widget.title_visible);
        assert_eq!(ea.widget.focused_mark, eb.widget.focused_mark);
        assert_eq!(ea.widget.floating_mark, eb.widget.floating_mark);
        assert_eq!(ea.widget.urgent_mark, eb.widget.urgent_mark);
    }
}
