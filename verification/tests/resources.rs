use daml_ide::resources::Registry;
use std::time::Duration;

#[test]
fn registers_and_updates() {
    let mut reg = Registry::default();
    let id = reg.register("Script: setup", "daml://x");
    assert!(reg.get(&id).unwrap().html.is_none());

    reg.update("daml://x", "<html>1</html>");
    assert_eq!(reg.get(&id).unwrap().html.as_deref(), Some("<html>1</html>"));

    reg.update("daml://x", "<html>2</html>");
    assert_eq!(reg.get(&id).unwrap().html.as_deref(), Some("<html>2</html>"));
}

#[test]
fn the_same_uri_keeps_the_same_id() {
    let mut reg = Registry::default();
    let first = reg.register("a", "daml://x");
    let second = reg.register("a", "daml://x");
    assert_eq!(first, second);
    assert_eq!(reg.list().len(), 1);
}

#[test]
fn an_update_for_an_unknown_uri_is_ignored() {
    let mut reg = Registry::default();
    reg.update("daml://never-seen", "<html/>");
    assert!(reg.list().is_empty());
}

#[test]
fn a_render_clears_the_running_flag_and_progress_sets_it() {
    let mut reg = Registry::default();
    let id = reg.register("a", "daml://x");
    assert!(reg.get(&id).unwrap().running);
    reg.update("daml://x", "<html/>");
    assert!(!reg.get(&id).unwrap().running);
    reg.set_running("daml://x");
    assert!(reg.get(&id).unwrap().running);
}

#[test]
fn subscribers_are_woken_on_update() {
    let mut reg = Registry::default();
    let id = reg.register("a", "daml://x");
    let rx = reg.subscribe(&id).unwrap();
    reg.update("daml://x", "<html/>");
    assert!(rx.receiver().recv_timeout(Duration::from_secs(1)).is_ok());
}

#[test]
fn subscribing_to_an_unknown_id_fails() {
    assert!(Registry::default().subscribe("nope").is_none());
}

#[test]
fn the_list_is_ordered_by_title() {
    let mut reg = Registry::default();
    reg.register("Script: c", "daml://c");
    reg.register("Script: a", "daml://a");
    reg.register("Script: b", "daml://b");
    let titles: Vec<String> = reg.list().into_iter().map(|r| r.title).collect();
    assert_eq!(titles, vec!["Script: a", "Script: b", "Script: c"]);
}

#[test]
fn showing_again_keeps_the_first_title_and_the_render() {
    let mut reg = Registry::default();
    let id = reg.register("first", "daml://x");
    reg.update("daml://x", "<html/>");
    reg.register("second", "daml://x");
    let r = reg.get(&id).unwrap();
    assert_eq!(r.title, "first");
    assert_eq!(r.html.as_deref(), Some("<html/>"));
    assert!(reg.is_known("daml://x"));
    assert!(!reg.is_known("daml://y"));
}

#[test]
fn progress_wakes_subscribers_too() {
    let mut reg = Registry::default();
    let id = reg.register("a", "daml://x");
    let rx = reg.subscribe(&id).unwrap();
    reg.set_running("daml://x");
    assert!(rx.receiver().recv_timeout(Duration::from_secs(1)).is_ok());
}

#[test]
fn a_closed_page_does_not_stop_the_others() {
    let mut reg = Registry::default();
    let id = reg.register("a", "daml://x");
    let closed = reg.subscribe(&id).unwrap();
    let open = reg.subscribe(&id).unwrap();
    drop(closed);
    reg.update("daml://x", "<html/>");
    assert!(open.receiver().recv_timeout(Duration::from_secs(1)).is_ok());
    reg.update("daml://x", "<html>2</html>");
    assert!(open.receiver().recv_timeout(Duration::from_secs(1)).is_ok());
}
