use daml_ide::http::{event_frame, escape, respond, Asset, Reply, Wait, EVENT_STREAM_HEAD, NO_RESULTS};
use daml_ide::page::{pending, render};
use daml_ide::resources::Registry;

fn html_of(reply: &Reply) -> String {
    match reply {
        Reply::Html(page) => page.clone(),
        _ => panic!("expected a page"),
    }
}

#[test]
fn escapes_markup_in_titles() {
    assert_eq!(escape("Script: <b>x</b> & y"), "Script: &lt;b&gt;x&lt;/b&gt; &amp; y");
}

#[test]
fn an_ampersand_is_escaped_once() {
    assert_eq!(escape("&lt;"), "&amp;lt;");
    assert_eq!(escape("plain"), "plain");
}

#[test]
fn the_token_is_required() {
    let mut reg = Registry::default();
    for url in ["/", "/?token=wrong", "/r/abc", "/assets/webview.js?token=", "/?tok=tok"] {
        let reply = respond(url, "tok", &mut reg);
        assert!(matches!(reply, Reply::Forbidden));
        assert_eq!(reply.status(), 403);
    }
    let reply = respond("/?token=tok", "tok", &mut reg);
    assert_eq!(reply.status(), 200);
}

#[test]
fn the_token_may_come_after_other_parameters() {
    let mut reg = Registry::default();
    let reply = respond("/?a=1&token=tok&token=other", "tok", &mut reg);
    assert_eq!(reply.status(), 200);
}

#[test]
fn an_empty_listing_says_so() {
    let mut reg = Registry::default();
    let page = html_of(&respond("/?token=tok", "tok", &mut reg));
    assert!(page.contains(NO_RESULTS));
    assert!(!page.contains("<ul>"));
}

#[test]
fn the_listing_links_every_result_in_title_order_escaped() {
    let mut reg = Registry::default();
    let b = reg.register("Script: <b>", "daml://b");
    let a = reg.register("Script: a", "daml://a");
    let page = html_of(&respond("/?token=tok", "tok", &mut reg));
    let expected = format!(
        r#"<ul><li><a href="/r/{b}?token=tok">Script: &lt;b&gt;</a></li><li><a href="/r/{a}?token=tok">Script: a</a></li></ul>"#
    );
    assert!(page.contains(&expected));
}

#[test]
fn serves_the_assets() {
    let mut reg = Registry::default();
    let cases = [
        ("webview.js", Asset::WebviewJs, "text/javascript"),
        ("webview.css", Asset::WebviewCss, "text/css"),
        ("theme.css", Asset::ThemeCss, "text/css"),
    ];
    for (name, asset, mime) in cases {
        let reply = respond(&format!("/assets/{name}?token=tok"), "tok", &mut reg);
        match reply {
            Reply::Asset(a) => {
                assert_eq!(a, asset);
                assert_eq!(a.file_name(), name);
                assert_eq!(a.content_type(), mime);
            }
            _ => panic!("expected an asset"),
        }
    }
    let reply = respond("/assets/other.js?token=tok", "tok", &mut reg);
    assert!(matches!(reply, Reply::NotFound));
    assert_eq!(reply.status(), 404);
}

#[test]
fn a_result_page_is_pending_until_rendered() {
    let mut reg = Registry::default();
    let id = reg.register("Script: <setup>", "daml://x");
    let page = html_of(&respond(&format!("/r/{id}?token=tok"), "tok", &mut reg));
    assert_eq!(page, pending("Script: &lt;setup&gt;", &id, "tok"));

    reg.update("daml://x", "<html><head></head><body>done</body></html>");
    let page = html_of(&respond(&format!("/r/{id}/?token=tok"), "tok", &mut reg));
    assert_eq!(page, render("<html><head></head><body>done</body></html>", &id, "tok"));
}

#[test]
fn unknown_results_and_paths_are_not_found() {
    let mut reg = Registry::default();
    let reply = respond("/r/nope?token=tok", "tok", &mut reg);
    assert!(matches!(reply, Reply::UnknownResult));
    assert_eq!(reply.status(), 404);
    let reply = respond("/r/nope/events?token=tok", "tok", &mut reg);
    assert!(matches!(reply, Reply::UnknownResult));
    for url in ["/x?token=tok", "/r?token=tok", "/r/a/b?token=tok", "/r/a/b/c?token=tok"] {
        assert!(matches!(respond(url, "tok", &mut reg), Reply::NotFound));
    }
}

#[test]
fn events_subscribe_to_the_result() {
    let mut reg = Registry::default();
    let id = reg.register("a", "daml://x");
    let reply = respond(&format!("/r/{id}/events?token=tok"), "tok", &mut reg);
    let Reply::Events(events_id, rx) = reply else {
        panic!("expected an event stream")
    };
    assert_eq!(events_id, id);
    reg.update("daml://x", "<html/>");
    assert!(rx.receiver().recv_timeout(std::time::Duration::from_secs(1)).is_ok());
}

#[test]
fn event_frames_say_what_happened() {
    let mut reg = Registry::default();
    let id = reg.register("a", "daml://x");
    assert_eq!(event_frame(Wait::Woken, &reg, &id).as_deref(), Some("data: running\n\n"));
    reg.update("daml://x", "<html/>");
    assert_eq!(event_frame(Wait::Woken, &reg, &id).as_deref(), Some("data: changed\n\n"));
    assert_eq!(event_frame(Wait::Woken, &reg, "gone").as_deref(), Some("data: changed\n\n"));
    assert_eq!(event_frame(Wait::TimedOut, &reg, &id).as_deref(), Some(":keepalive\n\n"));
    assert_eq!(event_frame(Wait::Closed, &reg, &id), None);
    assert!(EVENT_STREAM_HEAD.starts_with("HTTP/1.1 200 OK\r\n"));
    assert!(EVENT_STREAM_HEAD.contains("Content-Type: text/event-stream\r\n"));
    assert!(EVENT_STREAM_HEAD.ends_with("\r\n\r\n"));
}

#[test]
fn escaped_text_has_no_tags_and_grows_by_the_entities() {
    let text = "a<b>&c<<";
    let out = escape(text);
    assert!(!out.contains('<') && !out.contains('>'));
    assert_eq!(out.len(), text.len() + 4 + 3 * 3 + 3);
    let back = out.replace("&lt;", "<").replace("&gt;", ">").replace("&amp;", "&");
    assert_eq!(back, text);
}
