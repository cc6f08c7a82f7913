use freight::tui::{truncate, App};

#[test]
fn rows_are_added_then_updated() {
    let mut app = App::new();
    app.update_worker("scan", "a", "running", None, None);
    app.update_worker("scan", "b", "running", None, None);
    app.update_worker("scan", "a", "completed", Some("done".to_string()), Some(5));
    assert_eq!(app.len(), 2);
    let r = app.row(0);
    assert_eq!(r.status, "completed");
    assert_eq!(r.message.as_deref(), Some("done"));
    assert_eq!(r.bytes, Some(5));
}

#[test]
fn selection_wraps_both_ways() {
    let mut app = App::new();
    app.next();
    app.previous();
    assert_eq!(app.selected(), 0);
    app.update_worker("scan", "a", "running", None, None);
    app.update_worker("scan", "b", "running", None, None);
    app.update_worker("scan", "c", "running", None, None);
    app.previous();
    assert_eq!(app.selected(), 2);
    app.next();
    assert_eq!(app.selected(), 0);
    app.next();
    assert_eq!(app.selected(), 1);
    app.previous();
    assert_eq!(app.selected(), 0);
}

#[test]
fn truncate_shortens_long_text() {
    assert_eq!(truncate("short", 20), "short");
    assert_eq!(truncate("exactly-ten", 11), "exactly-ten");
    assert_eq!(truncate("abcdefghijklmnopqrstuvwxyz", 10), "abcdefg...");
    assert_eq!(truncate("abcdef", 2), "...");
}

#[test]
fn truncate_keeps_whole_characters() {
    assert_eq!(truncate("ééééé", 9), "ééé...");
    assert_eq!(truncate("ééé", 6), "ééé");
}
