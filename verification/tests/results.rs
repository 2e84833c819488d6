use daml_ide::results::{percent_decode, query_value, Pane, DEFAULT_RESULTS_PATH, FALLBACK_TITLE};
use std::path::Path;

#[test]
fn decodes_the_source_out_of_the_virtual_uri() {
    let pane = Pane::new("/project", None);
    assert_eq!(
        pane.source_of("daml://compiler?file=%2Fproject%2Ftest%2Fa.daml&top-level-decl=setup"),
        "test/a.daml"
    );
}

#[test]
fn keeps_an_absolute_source_outside_the_project() {
    let pane = Pane::new("/project", None);
    assert_eq!(pane.source_of("daml://compiler?file=%2Felsewhere%2Fa.daml"), "/elsewhere/a.daml");
}

#[test]
fn defaults_to_the_projects_build_directory() {
    assert!(Path::new(Pane::new("/project", None).path()).ends_with(".daml/ide/script-results.md"));
    assert_eq!(Path::new(Pane::new("/project", Some("/tmp/out.md")).path()), Path::new("/tmp/out.md"));
}

#[test]
fn shows_a_placeholder_before_the_render_arrives() {
    let mut pane = Pane::new("/project", None);
    let written = pane.show("daml://compiler?file=%2Fa.daml", "Script: setup");
    assert!(written.contains("# Script: setup"));
    assert!(written.contains("Running"));
}

#[test]
fn the_placeholder_is_exact() {
    let mut pane = Pane::new("/project", None);
    let written = pane.show("daml://compiler?file=%2Fproject%2Fa.daml", "Script: setup");
    assert_eq!(written, "# Script: setup\n\n`a.daml`\n\n_Running…_\n");
    let written = pane.show("daml://compiler", "T");
    assert_eq!(written, "# T\n\n`daml://compiler`\n\n_Running…_\n");
}

#[test]
fn the_default_path_is_under_the_project() {
    let pane = Pane::new("/project", None);
    assert_eq!(pane.path(), format!("/project/{DEFAULT_RESULTS_PATH}"));
}

#[test]
fn only_the_shown_script_updates_the_pane() {
    let mut pane = Pane::new("/project", None);
    let a = "daml://compiler?file=%2Fa.daml";
    let b = "daml://compiler?file=%2Fb.daml";
    assert!(pane.update(a, "<html/>").is_none());
    pane.show(a, "Script: a");
    assert!(pane.update(b, "<html/>").is_none());
    let r = pane.update(a, "<html>a</html>").unwrap();
    assert_eq!(r.title, "Script: a");
    assert_eq!(r.source, "/a.daml");
    assert_eq!(r.html, "<html>a</html>");
    pane.show(b, "Script: b");
    assert!(pane.update(a, "<html/>").is_none());
    assert_eq!(pane.update(b, "<html/>").unwrap().title, "Script: b");
    assert_eq!(FALLBACK_TITLE, "Script results");
}

#[test]
fn percent_escapes_are_decoded() {
    assert_eq!(percent_decode("%2Fa%2fb"), "/a/b");
    assert_eq!(percent_decode("a+b"), "a b");
    assert_eq!(percent_decode("100%"), "100%");
    assert_eq!(percent_decode("%zz"), "%zz");
    assert_eq!(percent_decode("%+4x"), "\u{4}x");
    assert_eq!(percent_decode("%-4"), "%-4");
    assert_eq!(percent_decode("%C3%A9"), "é");
    assert_eq!(percent_decode("%FF"), "\u{FFFD}");
    assert_eq!(percent_decode("%é"), "%é");
    assert_eq!(percent_decode("plain"), "plain");
}

#[test]
fn decoding_agrees_with_byte_by_byte_reading() {
    for text in ["a%20b", "%", "%4", "%41%42", "x%2", "%%41", "+%2B+"] {
        let bytes = text.as_bytes();
        let mut out = Vec::new();
        let mut i = 0;
        while i < bytes.len() {
            if bytes[i] == b'%' && i + 2 < bytes.len() {
                if let Ok(b) = u8::from_str_radix(&text[i + 1..i + 3], 16) {
                    out.push(b);
                    i += 3;
                    continue;
                }
                out.push(b'%');
            } else if bytes[i] == b'+' {
                out.push(b' ');
            } else {
                out.push(bytes[i]);
            }
            i += 1;
        }
        assert_eq!(percent_decode(text), String::from_utf8_lossy(&out));
    }
}

#[test]
fn query_values_are_found_by_key() {
    let uri = "daml://compiler?file=%2Fa.daml&top-level-decl=setup";
    assert_eq!(query_value(uri, "file").as_deref(), Some("/a.daml"));
    assert_eq!(query_value(uri, "top-level-decl").as_deref(), Some("setup"));
    assert_eq!(query_value(uri, "missing"), None);
    assert_eq!(query_value("daml://compiler", "file"), None);
    assert_eq!(query_value("x?file=1&file=2", "file").as_deref(), Some("1"));
}

#[test]
fn a_render_for_a_script_not_shown_is_not_decoded() {
    let mut pane = Pane::new("/project", None);
    assert!(pane.update("daml://compiler?file=%aé", "<html/>").is_none());
    pane.show("daml://compiler?file=%2Fa.daml", "Script: a");
    assert!(pane.update("daml://compiler?file=%aé", "<html/>").is_none());
}
