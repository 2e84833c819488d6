use daml_ide::page::{index, pending, render};

/// Trimmed from a real render of the language server.
const RENDERED: &str = r#"<!DOCTYPE HTML>
<html><head><style>.da-code {}</style><script src="$webviewSrc"></script><link rel="stylesheet" href="$webviewCss"></head><body class="hide_archived hide_transaction"><div>hi</div></body></html>"#;

#[test]
fn substitutes_the_asset_placeholders() {
    let out = render(RENDERED, "abc", "tok");
    assert!(!out.contains("$webviewSrc"));
    assert!(!out.contains("$webviewCss"));
    assert!(out.contains("/assets/webview.js?token=tok"));
    assert!(out.contains("/assets/webview.css?token=tok"));
}

#[test]
fn adds_the_theme_stylesheet() {
    assert!(render(RENDERED, "abc", "tok").contains("/assets/theme.css?token=tok"));
}

#[test]
fn keeps_the_body_class_the_server_chose() {
    // The class decides which of the two views is visible; losing it shows both.
    assert!(render(RENDERED, "abc", "tok").contains(r#"class="hide_archived hide_transaction""#));
}

#[test]
fn defines_the_vscode_shim_before_webview_js_runs() {
    let out = render(RENDERED, "abc", "tok");
    let shim = out.find("acquireVsCodeApi").expect("shim present");
    let script = out.find("/assets/webview.js").expect("script present");
    assert!(shim < script, "the shim must be parsed first, or webview.js throws");
}

#[test]
fn subscribes_to_this_resource() {
    let out = render(RENDERED, "abc", "tok");
    assert!(out.contains("/r/abc/events?token=tok"));
}

#[test]
fn survives_html_without_the_expected_tags() {
    let out = render("<html><head></head><body>x</body></html>", "abc", "tok");
    assert!(out.contains("theme.css"));
    assert!(out.contains("acquireVsCodeApi"));
}

#[test]
fn the_theme_goes_just_before_the_end_of_head() {
    let out = render("<html><head><title>t</title></head><body></body></html>", "abc", "tok");
    let theme = out.find(r#"<link rel="stylesheet" href="/assets/theme.css?token=tok">"#).unwrap();
    let head_end = out.find("</head>").unwrap();
    assert!(theme < head_end);
    assert_eq!(
        &out[theme..head_end],
        r#"<link rel="stylesheet" href="/assets/theme.css?token=tok">"#
    );
}

#[test]
fn html_without_a_head_gets_the_theme_first() {
    let out = render("<p>bare</p>", "abc", "tok");
    assert!(out.starts_with(r#"<link rel="stylesheet" href="/assets/theme.css?token=tok">"#));
    assert!(out.contains("acquireVsCodeApi"));
    assert!(out.ends_with("<p>bare</p>"));
}

#[test]
fn the_index_carries_the_token_and_the_body() {
    let out = index("<ul><li>x</li></ul>", "tok");
    assert!(out.starts_with("<!DOCTYPE html>"));
    assert!(out.contains(r#"<link rel="stylesheet" href="/assets/theme.css?token=tok">"#));
    assert!(out.contains("<h1>Daml script results</h1><ul><li>x</li></ul></body></html>"));
}

#[test]
fn the_pending_page_names_the_script_and_subscribes() {
    let out = pending("Script: setup", "abc", "tok");
    assert!(out.contains("<title>Script: setup</title>"));
    assert!(out.contains("<p>Running Script: setup…</p>"));
    assert!(out.contains("/r/abc/events?token=tok"));
    assert!(out.contains("acquireVsCodeApi"));
}

#[test]
fn the_shim_is_added_even_when_the_html_mentions_it() {
    let out = render("<html><head></head><body>acquireVsCodeApi</body></html>", "abc", "tok");
    assert!(out.contains("/r/abc/events?token=tok"));
    assert!(out.contains("<head><script>"));
}

#[test]
fn the_page_script_has_no_placeholder_or_tag_characters() {
    let script: String = daml_ide::page::bridge_script_exec("0123456789abcdef", "00ff").into_iter().collect();
    assert!(!script.contains('$') && !script.contains('<'));
    for html in ["", "<head>", "</head>", "acquireVsCodeApi", "<script src=\"$webviewSrc\"></script></head>"] {
        let out = render(html, "0123456789abcdef", "00ff");
        assert!(out.contains(&format!("<script>{script}</script>")));
    }
}
