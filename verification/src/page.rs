//! Turning the server's rendered HTML into a page a browser can load.
//!
//! The rendered document is served as-is rather than embedded in a wrapper.
//! Its `<body class="hide_transaction …">` is what `webview.css` keys off, so
//! moving the content into a `<div>` would silently show both views at once.
//! Everything the bridge adds goes into `<head>` instead.

use vstd::prelude::*;
use crate::text::{
    append_chars, append_str, chars_of, contains, contains_exec, find, find_exec, has_prefix, matches_at, replace_all,
    replace_all_exec, replace_first, replace_first_exec, slice_chars, string_of,
};

verus! {

/// The part of the page script before the resource id.
pub const SCRIPT_HEAD: &'static str = "\n(function () {\n  var KEY = 'daml-bridge-view';\n  window.acquireVsCodeApi = function () {\n    return { postMessage: save, getState: function () { return null; }, setState: function () {} };\n  };\n  function save() {\n    try { localStorage.setItem(KEY, document.body.className); } catch (e) {}\n  }\n  function restore() {\n    try {\n      var saved = localStorage.getItem(KEY);\n      if (saved) document.body.className = saved;\n    } catch (e) {}\n    check('show_archived', 'hide_archived');\n    check('show_detailed_disclosure', 'hidden_disclosure');\n  }\n  function check(boxId, hiddenClass) {\n    var box = document.getElementById(boxId);\n    if (box) box.checked = !document.body.classList.contains(hiddenClass);\n  }\n  document.addEventListener('DOMContentLoaded', function () {\n    restore();\n    var bar = document.createElement('div');\n    bar.id = 'daml-bridge-status';\n    bar.textContent = 'connecting';\n    document.body.appendChild(bar);\n    var es = new EventSource('/r/";

/// The part of the page script between the resource id and the token.
pub const SCRIPT_MID: &'static str = "/events?token=";

/// The part of the page script after the token.
pub const SCRIPT_TAIL: &'static str = "');\n    es.onopen = function () { bar.textContent = 'live'; };\n    es.onerror = function () { bar.textContent = 'disconnected'; };\n    es.onmessage = function (e) {\n      if (e.data === 'running') { bar.textContent = 'running'; return; }\n      save();\n      location.reload();\n    };\n  });\n})();\n";

/// A shim for the one VS Code API `webview.js` uses, plus live reload.
///
/// `webview.js` starts with `const vscode = acquireVsCodeApi()` and posts the
/// user's view choices back to the extension host. In a browser there is no
/// host, so the shim keeps those choices in `localStorage` and restores them
/// after a reload. It subscribes to `/r/{id}/events`.
pub open spec fn bridge_script(id: Seq<char>, token: Seq<char>) -> Seq<char> {
    SCRIPT_HEAD@ + id + SCRIPT_MID@ + token + SCRIPT_TAIL@
}

/// The shim wrapped in a script element.
pub open spec fn shim(id: Seq<char>, token: Seq<char>) -> Seq<char> {
    "<script>"@ + bridge_script(id, token) + "</script>"@
}

/// The address of an asset, carrying the token.
pub open spec fn asset_url(name: Seq<char>, token: Seq<char>) -> Seq<char> {
    "/assets/"@ + name + "?token="@ + token
}

/// The link to the theme stylesheet.
pub open spec fn theme_link(token: Seq<char>) -> Seq<char> {
    "<link rel=\"stylesheet\" href=\""@ + asset_url("theme.css"@, token) + "\">"@
}

/// The shim goes in just after `<head>`, or first of all when there is no
/// such tag.
pub open spec fn with_shim_early(out: Seq<char>, shim: Seq<char>) -> Seq<char> {
    match find(out, "<head>"@) {
        Some(i) => out.take(i + "<head>"@.len()) + shim + out.skip(i + "<head>"@.len()),
        None => shim + out,
    }
}

/// The page for a rendered result: the asset placeholders filled in, the
/// shim spliced in ahead of the view script (or as early as possible when
/// that tag is not shaped as expected), and the theme stylesheet added
/// before `</head>` (or first of all without one).
pub open spec fn render_page(html: Seq<char>, id: Seq<char>, token: Seq<char>) -> Seq<char> {
    let js = asset_url("webview.js"@, token);
    let css = asset_url("webview.css"@, token);
    let shim = shim(id, token);
    let theme = theme_link(token);
    let out1 = replace_all(
        html,
        "<script src=\"$webviewSrc\""@,
        shim + "<script src=\""@ + js + "\""@,
    );
    let out2 = if contains(html, "<script src=\"$webviewSrc\""@) {
        out1
    } else {
        with_shim_early(out1, shim)
    };
    let out3 = replace_all(replace_all(out2, "$webviewSrc"@, js), "$webviewCss"@, css);
    if contains(out3, "</head>"@) {
        replace_first(out3, "</head>"@, theme + "</head>"@)
    } else {
        theme + out3
    }
}

/// The listing page at `/`.
pub open spec fn index_page(body: Seq<char>, token: Seq<char>) -> Seq<char> {
    INDEX_HEAD@ + token + INDEX_MID@ + body + INDEX_TAIL@
}

/// The page shown for a result the server has not rendered yet.
pub open spec fn pending_page(title: Seq<char>, id: Seq<char>, token: Seq<char>) -> Seq<char> {
    PENDING_HEAD@ + title + PENDING_TITLE_END@ + token + PENDING_LINK_END@ + shim(id, token)
        + PENDING_BODY@ + title + PENDING_TAIL@
}

pub const INDEX_HEAD: &'static str = "<!DOCTYPE html>\n<html><head><meta charset=\"utf-8\"><title>Daml script results</title>\n<link rel=\"stylesheet\" href=\"/assets/theme.css?token=";

pub const INDEX_MID: &'static str = "\"></head>\n<body><h1>Daml script results</h1>";

pub const INDEX_TAIL: &'static str = "</body></html>";

pub const PENDING_HEAD: &'static str = "<!DOCTYPE html>\n<html><head><meta charset=\"utf-8\"><title>";

pub const PENDING_TITLE_END: &'static str = "</title>\n<link rel=\"stylesheet\" href=\"/assets/theme.css?token=";

pub const PENDING_LINK_END: &'static str = "\">";

pub const PENDING_BODY: &'static str = "</head>\n<body><p>Running ";

pub const PENDING_TAIL: &'static str = "…</p></body></html>";

/// The page script for a resource.
pub fn bridge_script_exec(id: &str, token: &str) -> (r: Vec<char>)
    ensures
        r@ == bridge_script(id@, token@),
{
    let mut v = chars_of(SCRIPT_HEAD);
    append_str(&mut v, id);
    append_str(&mut v, SCRIPT_MID);
    append_str(&mut v, token);
    append_str(&mut v, SCRIPT_TAIL);
    v
}

/// The shim wrapped in a script element.
fn shim_exec(id: &str, token: &str) -> (r: Vec<char>)
    ensures
        r@ == shim(id@, token@),
{
    let mut v = chars_of("<script>");
    let script = bridge_script_exec(id, token);
    append_chars(&mut v, script.as_slice());
    append_str(&mut v, "</script>");
    assert(v@ =~= shim(id@, token@));
    v
}

/// The address of an asset, carrying the token.
fn asset_url_exec(name: &str, token: &str) -> (r: Vec<char>)
    ensures
        r@ == asset_url(name@, token@),
{
    let mut v = chars_of("/assets/");
    append_str(&mut v, name);
    append_str(&mut v, "?token=");
    append_str(&mut v, token);
    v
}

/// Fill in the placeholders damlc leaves for the client's own copies of the
/// view script and stylesheet, and add what the browser needs.
pub fn render(html: &str, id: &str, token: &str) -> (r: String)
    ensures
        r@ == render_page(html@, id@, token@),
{
    let js = asset_url_exec("webview.js", token);
    let css = asset_url_exec("webview.css", token);
    let shim = shim_exec(id, token);
    let mut theme = chars_of("<link rel=\"stylesheet\" href=\"");
    let theme_url = asset_url_exec("theme.css", token);
    append_chars(&mut theme, theme_url.as_slice());
    append_str(&mut theme, "\">");
    assert(theme@ =~= theme_link(token@));

    // The shim has to run before webview.js, which calls acquireVsCodeApi at
    // the top level, so it is spliced in ahead of that script tag.
    let source = chars_of(html);
    let tag = chars_of("<script src=\"$webviewSrc\"");
    let mut replacement = shim.clone();
    append_str(&mut replacement, "<script src=\"");
    append_chars(&mut replacement, js.as_slice());
    append_str(&mut replacement, "\"");
    let out1 = replace_all_exec(source.as_slice(), tag.as_slice(), replacement.as_slice());
    // Whatever the surrounding markup looks like, the shim has to end up in
    // the document. If the tag was not shaped as expected, put it as early
    // as possible instead.
    let out2 = if contains_exec(source.as_slice(), tag.as_slice()) {
        out1
    } else {
        let head = chars_of("<head>");
        match find_exec(out1.as_slice(), head.as_slice()) {
            Some(i) => {
                proof {
                    crate::text::lemma_find_props(out1@, head@);
                }
                assert(i + head@.len() <= out1@.len());
                assert(out1@.len() == out1.len() && head@.len() == head.len());
                let mut v = slice_chars(out1.as_slice(), 0, i + head.len());
                append_chars(&mut v, shim.as_slice());
                let rest = slice_chars(out1.as_slice(), i + head.len(), out1.len());
                append_chars(&mut v, rest.as_slice());
                assert(v@ =~= with_shim_early(out1@, shim@));
                v
            },
            None => {
                let mut v = shim.clone();
                append_chars(&mut v, out1.as_slice());
                v
            },
        }
    };
    let src = chars_of("$webviewSrc");
    let out3 = replace_all_exec(out2.as_slice(), src.as_slice(), js.as_slice());
    let css_marker = chars_of("$webviewCss");
    let out4 = replace_all_exec(out3.as_slice(), css_marker.as_slice(), css.as_slice());
    let close = chars_of("</head>");
    if contains_exec(out4.as_slice(), close.as_slice()) {
        let mut with_theme = theme.clone();
        append_chars(&mut with_theme, close.as_slice());
        let out = replace_first_exec(out4.as_slice(), close.as_slice(), with_theme.as_slice());
        string_of(out.as_slice())
    } else {
        let mut out = theme.clone();
        append_chars(&mut out, out4.as_slice());
        string_of(out.as_slice())
    }
}

/// The listing at `/`.
pub fn index(body: &str, token: &str) -> (r: String)
    ensures
        r@ == index_page(body@, token@),
{
    let mut v = chars_of(INDEX_HEAD);
    append_str(&mut v, token);
    append_str(&mut v, INDEX_MID);
    append_str(&mut v, body);
    append_str(&mut v, INDEX_TAIL);
    string_of(v.as_slice())
}

/// Shown for a result the server has not rendered yet.
pub fn pending(title: &str, id: &str, token: &str) -> (r: String)
    ensures
        r@ == pending_page(title@, id@, token@),
{
    let shim = shim_exec(id, token);
    let mut v = chars_of(PENDING_HEAD);
    append_str(&mut v, title);
    append_str(&mut v, PENDING_TITLE_END);
    append_str(&mut v, token);
    append_str(&mut v, PENDING_LINK_END);
    append_chars(&mut v, shim.as_slice());
    append_str(&mut v, PENDING_BODY);
    append_str(&mut v, title);
    append_str(&mut v, PENDING_TAIL);
    assert(v@ =~= pending_page(title@, id@, token@));
    string_of(v.as_slice())
}

/// Every rendered page loads the theme stylesheet, whatever shape the
/// server's HTML has.
pub proof fn law_pages_always_load_the_theme(html: Seq<char>, id: Seq<char>, token: Seq<char>)
    ensures
        contains(render_page(html, id, token), theme_link(token)),
{
    let js = asset_url("webview.js"@, token);
    let css = asset_url("webview.css"@, token);
    let shim = shim(id, token);
    let theme = theme_link(token);
    let out1 = replace_all(html, "<script src=\"$webviewSrc\""@, shim + "<script src=\""@ + js + "\""@);
    let out2 = if contains(html, "<script src=\"$webviewSrc\""@) {
        out1
    } else {
        with_shim_early(out1, shim)
    };
    let out3 = replace_all(replace_all(out2, "$webviewSrc"@, js), "$webviewCss"@, css);
    let page = render_page(html, id, token);
    if contains(out3, "</head>"@) {
        crate::text::lemma_find_props(out3, "</head>"@);
        let i = find(out3, "</head>"@)->0;
        assert(page == out3.take(i) + (theme + "</head>"@) + out3.skip(i + "</head>"@.len()));
        assert(page.subrange(i, i + theme.len()) =~= theme);
        assert(matches_at(page, theme, i));
    } else {
        assert(page == theme + out3);
        assert(page.subrange(0, theme.len() as int) =~= theme);
        assert(matches_at(page, theme, 0));
    }
}

/// The listing and the page shown while a result is still running load the
/// theme stylesheet with the server's token too, so every page the bridge
/// serves is styled.
pub proof fn law_listing_and_pending_pages_load_the_theme(
    title: Seq<char>,
    id: Seq<char>,
    body: Seq<char>,
    token: Seq<char>,
)
    ensures
        contains(pending_page(title, id, token), theme_link(token)),
        contains(index_page(body, token), theme_link(token)),
{
    reveal_strlit("<!DOCTYPE html>\n<html><head><meta charset=\"utf-8\"><title>Daml script results</title>\n<link rel=\"stylesheet\" href=\"/assets/theme.css?token=");
    reveal_strlit("\"></head>\n<body><h1>Daml script results</h1>");
    reveal_strlit("</title>\n<link rel=\"stylesheet\" href=\"/assets/theme.css?token=");
    reveal_strlit("\">");
    reveal_strlit("<link rel=\"stylesheet\" href=\"");
    reveal_strlit("/assets/");
    reveal_strlit("theme.css");
    reveal_strlit("?token=");
    reveal_strlit("<!DOCTYPE html>\n<html><head><meta charset=\"utf-8\"><title>Daml script results</title>\n");
    reveal_strlit("</title>\n");
    let theme = theme_link(token);
    // the pending page: the theme link follows the title
    let pre = PENDING_HEAD@ + title + "</title>\n"@;
    let page = pending_page(title, id, token);
    assert(PENDING_TITLE_END@ + token + PENDING_LINK_END@ =~= "</title>\n"@ + theme);
    assert(page.subrange(pre.len() as int, (pre.len() + theme.len()) as int) =~= theme);
    assert(matches_at(page, theme, pre.len() as int));
    // the listing: the theme link closes its head
    let head = "<!DOCTYPE html>\n<html><head><meta charset=\"utf-8\"><title>Daml script results</title>\n"@;
    let listing = index_page(body, token);
    assert(INDEX_HEAD@ + token + "\">"@ =~= head + theme);
    assert(INDEX_MID@ =~= "\">"@ + INDEX_MID@.skip(2));
    assert(listing.subrange(head.len() as int, (head.len() + theme.len()) as int) =~= theme);
    assert(matches_at(listing, theme, head.len() as int));
}

/// An occurrence in `b` is one in `a + b`, moved along by `a`.
proof fn lemma_matches_after(a: Seq<char>, b: Seq<char>, t: Seq<char>, j: int)
    requires
        matches_at(b, t, j),
    ensures
        matches_at(a + b, t, a.len() + j),
{
    assert((a + b).subrange(a.len() + j, a.len() + j + t.len()) =~= b.subrange(j, j + t.len()));
}

/// An occurrence in `a` is one in `a + b`.
proof fn lemma_matches_before(a: Seq<char>, b: Seq<char>, t: Seq<char>, j: int)
    requires
        matches_at(a, t, j),
    ensures
        matches_at(a + b, t, j),
{
    assert((a + b).subrange(j, j + t.len()) =~= a.subrange(j, j + t.len()));
}

/// Replacing a pattern puts its replacement in wherever the pattern occurs.
proof fn lemma_replace_inserts(s: Seq<char>, p: Seq<char>, r: Seq<char>, k: int)
    requires
        p.len() > 0,
        matches_at(s, p, k),
    ensures
        contains(replace_all(s, p, r), r),
    decreases s.len(),
{
    if has_prefix(s, p) {
        let out = replace_all(s, p, r);
        assert(out == r + replace_all(s.skip(p.len() as int), p, r));
        assert(r.subrange(0, r.len() as int) =~= r);
        lemma_matches_before(r, replace_all(s.skip(p.len() as int), p, r), r, 0);
    } else {
        assert(k > 0);
        crate::text::lemma_matches_skip(s, p, 1, k - 1);
        lemma_replace_inserts(s.skip(1), p, r, k - 1);
        let rest = replace_all(s.skip(1), p, r);
        let j = choose|j: int| matches_at(rest, r, j);
        lemma_matches_after(seq![s[0]], rest, r, j);
    }
}

/// Replacing a pattern that starts with `$` keeps a prefix without `$`.
proof fn lemma_replace_keeps_prefix(s: Seq<char>, p: Seq<char>, r: Seq<char>, t: Seq<char>)
    requires
        p.len() > 0,
        p[0] == '$',
        !t.contains('$'),
        has_prefix(s, t),
    ensures
        has_prefix(replace_all(s, p, r), t),
    decreases t.len(),
{
    if t.len() > 0 {
        assert(s[0] == s.subrange(0, t.len() as int)[0]);
        assert(s[0] == t[0]);
        assert(t[0] != '$');
        assert(!has_prefix(s, p)) by {
            if has_prefix(s, p) {
                assert(s[0] == s.subrange(0, p.len() as int)[0]);
            }
        }
        let rest = replace_all(s.skip(1), p, r);
        assert(replace_all(s, p, r) == seq![s[0]] + rest);
        assert(!t.skip(1).contains('$')) by {
            if t.skip(1).contains('$') {
                let q = choose|q: int| 0 <= q < t.skip(1).len() && t.skip(1)[q] == '$';
                assert(t[q + 1] == '$');
            }
        }
        assert(s.skip(1).subrange(0, t.len() - 1) =~= t.skip(1));
        lemma_replace_keeps_prefix(s.skip(1), p, r, t.skip(1));
        assert((seq![s[0]] + rest).subrange(0, t.len() as int) =~= seq![s[0]] + rest.subrange(0, t.len() - 1));
        assert(seq![t[0]] + t.skip(1) =~= t);
    } else {
        assert(replace_all(s, p, r).subrange(0, 0) =~= t);
    }
}

/// Replacing a pattern that starts with `$` keeps every occurrence of a text
/// without `$` whose first character the pattern does not hold.
proof fn lemma_replace_keeps(s: Seq<char>, p: Seq<char>, r: Seq<char>, t: Seq<char>, k: int)
    requires
        p.len() > 0,
        p[0] == '$',
        t.len() > 0,
        !t.contains('$'),
        !p.contains(t[0]),
        matches_at(s, t, k),
    ensures
        contains(replace_all(s, p, r), t),
    decreases s.len(),
{
    if k == 0 {
        lemma_replace_keeps_prefix(s, p, r, t);
    } else if has_prefix(s, p) {
        if k < p.len() {
            assert(s[k] == s.subrange(0, p.len() as int)[k]);
            assert(s[k] == s.subrange(k, k + t.len())[0]);
            assert(p[k] == t[0]);
        }
        let n = p.len() as int;
        crate::text::lemma_matches_skip(s, t, n, k - n);
        lemma_replace_keeps(s.skip(n), p, r, t, k - n);
        let rest = replace_all(s.skip(n), p, r);
        let j = choose|j: int| matches_at(rest, t, j);
        lemma_matches_after(r, rest, t, j);
    } else {
        crate::text::lemma_matches_skip(s, t, 1, k - 1);
        lemma_replace_keeps(s.skip(1), p, r, t, k - 1);
        let rest = replace_all(s.skip(1), p, r);
        let j = choose|j: int| matches_at(rest, t, j);
        lemma_matches_after(seq![s[0]], rest, t, j);
    }
}

proof fn lemma_shim_chars(id: Seq<char>, token: Seq<char>)
    requires
        !bridge_script(id, token).contains('$'),
        !bridge_script(id, token).contains('<'),
    ensures
        shim(id, token).len() >= 17,
        shim(id, token)[0] == '<',
        !shim(id, token).contains('$'),
        forall|q: int| 0 < q < shim(id, token).len() && #[trigger] shim(id, token)[q] == '<' ==> q
            == shim(id, token).len() - 9,
        shim(id, token)[shim(id, token).len() - 7] == 's',
{
    reveal_strlit("<script>");
    reveal_strlit("</script>");
    let b = bridge_script(id, token);
    let sh = shim(id, token);
    let open = "<script>"@;
    let close = "</script>"@;
    assert(sh == open + b + close);
    assert(open =~= seq!['<', 's', 'c', 'r', 'i', 'p', 't', '>']);
    assert(close =~= seq!['<', '/', 's', 'c', 'r', 'i', 'p', 't', '>']);
    assert forall|q: int| 0 <= q < sh.len() implies sh[q] != '$' by {
        if q < 8 {
            assert(sh[q] == open[q]);
        } else if q < 8 + b.len() {
            assert(sh[q] == b[q - 8]);
        } else {
            assert(sh[q] == close[q - 8 - b.len()]);
        }
    }
    assert forall|q: int| 0 < q < sh.len() && #[trigger] sh[q] == '<' implies q == sh.len() - 9 by {
        if q < 8 {
            assert(sh[q] == open[q]);
        } else if q < 8 + b.len() {
            assert(sh[q] == b[q - 8]);
        } else {
            assert(sh[q] == close[q - 8 - b.len()]);
        }
    }
    assert(sh[sh.len() - 7] == close[2]);
}

/// The shim is in the document once the view script's tag is dealt with.
proof fn lemma_shim_placed(html: Seq<char>, sh: Seq<char>, js: Seq<char>)
    ensures
        contains(
            if contains(html, "<script src=\"$webviewSrc\""@) {
                replace_all(html, "<script src=\"$webviewSrc\""@, sh + "<script src=\""@ + js + "\""@)
            } else {
                with_shim_early(replace_all(html, "<script src=\"$webviewSrc\""@, sh + "<script src=\""@ + js + "\""@), sh)
            },
            sh,
        ),
{
    reveal_strlit("<script src=\"$webviewSrc\"");
    let tag = "<script src=\"$webviewSrc\""@;
    let r1 = sh + "<script src=\""@ + js + "\""@;
    let out1 = replace_all(html, tag, r1);
    if contains(html, tag) {
        let k0 = choose|k: int| matches_at(html, tag, k);
        assert(tag.len() > 0);
        lemma_replace_inserts(html, tag, r1, k0);
        let j = choose|j: int| matches_at(out1, r1, j);
        assert(out1.subrange(j, j + sh.len()) =~= r1.subrange(0, sh.len() as int));
        assert(r1.subrange(0, sh.len() as int) =~= sh);
        assert(matches_at(out1, sh, j));
    } else {
        assert(sh.subrange(0, sh.len() as int) =~= sh);
        match find(out1, "<head>"@) {
            Some(i) => {
                crate::text::lemma_find_props(out1, "<head>"@);
                let a = out1.take(i + "<head>"@.len());
                let rest = out1.skip(i + "<head>"@.len());
                lemma_matches_before(sh, rest, sh, 0);
                lemma_matches_after(a, sh + rest, sh, 0);
                assert(with_shim_early(out1, sh) =~= a + (sh + rest));
                assert(matches_at(with_shim_early(out1, sh), sh, a.len() as int));
            },
            None => {
                lemma_matches_before(sh, out1, sh, 0);
                assert(matches_at(with_shim_early(out1, sh), sh, 0));
            },
        }
    }
}

/// Filling in the asset placeholders keeps the shim.
proof fn lemma_shim_survives_assets(out2: Seq<char>, id: Seq<char>, token: Seq<char>, js: Seq<char>, css: Seq<char>)
    requires
        !bridge_script(id, token).contains('$'),
        !bridge_script(id, token).contains('<'),
        contains(out2, shim(id, token)),
    ensures
        contains(replace_all(replace_all(out2, "$webviewSrc"@, js), "$webviewCss"@, css), shim(id, token)),
{
    let sh = shim(id, token);
    lemma_shim_chars(id, token);
    reveal_strlit("$webviewSrc");
    reveal_strlit("$webviewCss");
    let src = "$webviewSrc"@;
    let cssp = "$webviewCss"@;
    assert(src =~= seq!['$', 'w', 'e', 'b', 'v', 'i', 'e', 'w', 'S', 'r', 'c']);
    assert(cssp =~= seq!['$', 'w', 'e', 'b', 'v', 'i', 'e', 'w', 'C', 's', 's']);
    assert(!src.contains('<')) by {
        assert forall|q: int| 0 <= q < src.len() implies src[q] != '<' by {}
    }
    assert(!cssp.contains('<')) by {
        assert forall|q: int| 0 <= q < cssp.len() implies cssp[q] != '<' by {}
    }
    let k2 = choose|k: int| matches_at(out2, sh, k);
    lemma_replace_keeps(out2, src, js, sh, k2);
    let out3a = replace_all(out2, src, js);
    let k3 = choose|k: int| matches_at(out3a, sh, k);
    lemma_replace_keeps(out3a, cssp, css, sh, k3);
}

/// Adding the theme keeps the shim: `</head>` cannot start inside it.
proof fn lemma_shim_survives_theme(out3: Seq<char>, id: Seq<char>, token: Seq<char>, theme: Seq<char>)
    requires
        !bridge_script(id, token).contains('$'),
        !bridge_script(id, token).contains('<'),
        contains(out3, shim(id, token)),
    ensures
        contains(
            if contains(out3, "</head>"@) {
                replace_first(out3, "</head>"@, theme + "</head>"@)
            } else {
                theme + out3
            },
            shim(id, token),
        ),
{
    let sh = shim(id, token);
    lemma_shim_chars(id, token);
    reveal_strlit("</head>");
    let k = choose|k: int| matches_at(out3, sh, k);
    if contains(out3, "</head>"@) {
        crate::text::lemma_find_props(out3, "</head>"@);
        let i = find(out3, "</head>"@)->0;
        let head = "</head>"@;
        assert(head =~= seq!['<', '/', 'h', 'e', 'a', 'd', '>']);
        assert(out3.subrange(i, i + 7) == head);
        let page = replace_first(out3, head, theme + head);
        assert(page == out3.take(i) + (theme + head) + out3.skip(i + 7));
        assert(out3.skip(i) =~= head + out3.skip(i + 7));
        assert(page =~= out3.take(i) + theme + out3.skip(i));
        if k + sh.len() <= i {
            assert(out3.take(i).subrange(k, k + sh.len()) =~= out3.subrange(k, k + sh.len()));
            lemma_matches_before(out3.take(i), theme + out3.skip(i), sh, k);
            assert(out3.take(i) + (theme + out3.skip(i)) =~= page);
        } else if k >= i {
            assert(out3.skip(i).subrange(k - i, k - i + sh.len()) =~= out3.subrange(k, k + sh.len()));
            lemma_matches_after(out3.take(i) + theme, out3.skip(i), sh, k - i);
        } else {
            assert(out3[i] == out3.subrange(i, i + 7)[0]);
            assert(out3[i] == out3.subrange(k, k + sh.len())[i - k]);
            assert(sh[i - k] == '<');
            assert(i - k == sh.len() - 9);
            assert(out3[i + 2] == out3.subrange(i, i + 7)[2]);
            assert(out3[i + 2] == out3.subrange(k, k + sh.len())[i + 2 - k]);
            assert(false);
        }
    } else {
        lemma_matches_after(theme, out3, sh, k);
    }
}

/// Every rendered page carries the page script, which the view needs before
/// it runs and which subscribes to the result's events, whatever shape the
/// server's HTML has. It holds for an id and a token that put no `$` or `<`
/// into the script, as the hexadecimal ones the bridge makes do.
pub proof fn law_pages_always_carry_the_shim(html: Seq<char>, id: Seq<char>, token: Seq<char>)
    requires
        !bridge_script(id, token).contains('$'),
        !bridge_script(id, token).contains('<'),
    ensures
        contains(render_page(html, id, token), shim(id, token)),
{
    let js = asset_url("webview.js"@, token);
    let css = asset_url("webview.css"@, token);
    let sh = shim(id, token);
    lemma_shim_placed(html, sh, js);
    let out1 = replace_all(html, "<script src=\"$webviewSrc\""@, sh + "<script src=\""@ + js + "\""@);
    let out2 = if contains(html, "<script src=\"$webviewSrc\""@) {
        out1
    } else {
        with_shim_early(out1, sh)
    };
    lemma_shim_survives_assets(out2, id, token, js, css);
    let out3 = replace_all(replace_all(out2, "$webviewSrc"@, js), "$webviewCss"@, css);
    lemma_shim_survives_theme(out3, id, token, theme_link(token));
}

} // verus!
