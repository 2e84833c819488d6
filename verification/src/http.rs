//! What the loopback HTTP server answers.
//!
//! Every request must carry the access token. `/` lists the script results,
//! `/assets/{name}` serves the view's script and stylesheets, `/r/{id}` is one
//! result's page and `/r/{id}/events` streams its changes as server-sent
//! events. The socket work lives with the caller; this module decides.

use vstd::prelude::*;
use crate::page::{index, index_page, pending, pending_page, render, render_page};
use crate::resources::{Listener, sorted_by_title, resources_model, Registry, RegistryModel, Resource, ResourceModel};
use crate::ids::{default_hash, is_hex_digit, lemma_hex_fixed, resource_id_of};
use crate::resources::{registered, rendered, subscribed};
use crate::text::{
    find, has_prefix, lemma_find_props, matches_at, trim_char_end, trim_char_start,
    append_chars, append_str, chars_eq, chars_of, replace_all, replace_all_exec, split,
    slice_chars_all, split_exec, split_once, split_once_exec, string_of, strip_prefix, strip_prefix_exec, trim_char,
    trim_char_exec,
};

verus! {

/// The server once it is listening.
pub struct Http {
    pub port: u16,
}

/// The files the pages load.
#[derive(Debug, Clone, Copy, PartialEq, Eq, Structural)]
pub enum Asset {
    WebviewJs,
    WebviewCss,
    ThemeCss,
}

impl Asset {
    /// The file's name under `/assets/`.
    pub fn file_name(self) -> (r: &'static str)
        ensures
            r@ == asset_name(self),
    {
        match self {
            Asset::WebviewJs => "webview.js",
            Asset::WebviewCss => "webview.css",
            Asset::ThemeCss => "theme.css",
        }
    }

    /// The `Content-Type` it is served with.
    pub fn content_type(self) -> (r: &'static str)
        ensures
            r@ == asset_type(self),
    {
        match self {
            Asset::WebviewJs => "text/javascript",
            Asset::WebviewCss => "text/css",
            Asset::ThemeCss => "text/css",
        }
    }
}

/// The name of an asset.
pub open spec fn asset_name(a: Asset) -> Seq<char> {
    match a {
        Asset::WebviewJs => "webview.js"@,
        Asset::WebviewCss => "webview.css"@,
        Asset::ThemeCss => "theme.css"@,
    }
}

/// The media type of an asset.
pub open spec fn asset_type(a: Asset) -> Seq<char> {
    match a {
        Asset::WebviewJs => "text/javascript"@,
        Asset::WebviewCss => "text/css"@,
        Asset::ThemeCss => "text/css"@,
    }
}

/// The asset with the given name, if there is one.
pub open spec fn asset_named(name: Seq<char>) -> Option<Asset> {
    if name == "webview.js"@ {
        Some(Asset::WebviewJs)
    } else if name == "webview.css"@ {
        Some(Asset::WebviewCss)
    } else if name == "theme.css"@ {
        Some(Asset::ThemeCss)
    } else {
        None
    }
}

/// The answer to one request.
pub enum Reply {
    /// 403: the token is missing or wrong.
    Forbidden,
    /// 404: no such page.
    NotFound,
    /// 404: no script result with that id.
    UnknownResult,
    /// 200: an HTML page.
    Html(String),
    /// 200: one of the asset files.
    Asset(Asset),
    /// 200: the event stream for a result, fed by this receiver.
    Events(String, Listener),
}

/// The model of an answer.
pub enum ReplyModel {
    Forbidden,
    NotFound,
    UnknownResult,
    Html(Seq<char>),
    Asset(Asset),
    Events(Seq<char>),
}

impl View for Reply {
    type V = ReplyModel;

    open spec fn view(&self) -> ReplyModel {
        match self {
            Reply::Forbidden => ReplyModel::Forbidden,
            Reply::NotFound => ReplyModel::NotFound,
            Reply::UnknownResult => ReplyModel::UnknownResult,
            Reply::Html(page) => ReplyModel::Html(page@),
            Reply::Asset(a) => ReplyModel::Asset(*a),
            Reply::Events(id, _) => ReplyModel::Events(id@),
        }
    }
}

impl Reply {
    /// The HTTP status code of the answer.
    pub fn status(&self) -> (r: u16)
        ensures
            r == reply_status(self@),
    {
        match self {
            Reply::Forbidden => 403,
            Reply::NotFound => 404,
            Reply::UnknownResult => 404,
            _ => 200,
        }
    }
}

/// The status code of an answer.
pub open spec fn reply_status(r: ReplyModel) -> u16 {
    match r {
        ReplyModel::Forbidden => 403,
        ReplyModel::NotFound => 404,
        ReplyModel::UnknownResult => 404,
        _ => 200,
    }
}

/// The text body of each refusal.
pub const FORBIDDEN: &'static str = "forbidden";

pub const NOT_FOUND: &'static str = "not found";

pub const UNKNOWN_RESULT: &'static str = "unknown result";

/// What the listing says while there is nothing to list.
pub const NO_RESULTS: &'static str = "<p>No script results yet. Run the “Show script results” code action in your editor.</p>";

// ---------------------------------------------------------------- specification

/// `&`, `<` and `>` written as entities, so a title shows as text.
pub open spec fn escaped(text: Seq<char>) -> Seq<char> {
    replace_all(
        replace_all(replace_all(text, seq!['&'], "&amp;"@), seq!['<'], "&lt;"@),
        seq!['>'],
        "&gt;"@,
    )
}

/// A request target cut into its path and its query.
pub open spec fn url_parts(url: Seq<char>) -> (Seq<char>, Seq<char>) {
    match split_once(url, '?') {
        Some(parts) => parts,
        None => (url, Seq::empty()),
    }
}

/// What follows the prefix in the first piece that has it.
pub open spec fn first_stripped(pieces: Seq<Seq<char>>, prefix: Seq<char>) -> Option<Seq<char>>
    decreases pieces.len(),
{
    if pieces.len() == 0 {
        None
    } else {
        match strip_prefix(pieces[0], prefix) {
            Some(rest) => Some(rest),
            None => first_stripped(pieces.skip(1), prefix),
        }
    }
}

/// The token a query carries; empty when it carries none.
pub open spec fn supplied_token(query: Seq<char>) -> Seq<char> {
    match first_stripped(split(query, '&'), "token="@) {
        Some(t) => t,
        None => Seq::empty(),
    }
}

/// The non-empty path between the outer slashes, cut at each slash.
pub open spec fn segments(path: Seq<char>) -> Seq<Seq<char>> {
    let trimmed = trim_char(path, '/');
    if trimmed.len() == 0 {
        Seq::empty()
    } else {
        split(trimmed, '/')
    }
}

/// One entry of the listing.
pub open spec fn listing_item(r: ResourceModel, token: Seq<char>) -> Seq<char> {
    "<li><a href=\"/r/"@ + r.id + "?token="@ + token + "\">"@ + escaped(r.title) + "</a></li>"@
}

/// The entries of the listing, in the given order.
pub open spec fn listing(rs: Seq<ResourceModel>, token: Seq<char>) -> Seq<char>
    decreases rs.len(),
{
    if rs.len() == 0 {
        Seq::empty()
    } else {
        listing(rs.drop_last(), token) + listing_item(rs.last(), token)
    }
}

/// The body of the page at `/`.
pub open spec fn index_body(rs: Seq<ResourceModel>, token: Seq<char>) -> Seq<char> {
    if rs.len() == 0 {
        NO_RESULTS@
    } else {
        "<ul>"@ + listing(rs, token) + "</ul>"@
    }
}

/// Every result, each once, ordered by title.
pub open spec fn is_listing(listed: Seq<ResourceModel>, all: Seq<ResourceModel>) -> bool {
    listed.to_multiset() == all.to_multiset() && sorted_by_title(listed)
}

/// The request asks for the listing with the right token.
pub open spec fn asks_for_listing(url: Seq<char>, token: Seq<char>) -> bool {
    supplied_token(url_parts(url).1) == token && segments(url_parts(url).0).len() == 0
}

/// The answer to `url` from a server holding `token`, whose registry is `m`
/// and lists its results as `listed`.
pub open spec fn route(
    url: Seq<char>,
    token: Seq<char>,
    m: RegistryModel,
    listed: Seq<ResourceModel>,
) -> ReplyModel {
    let (path, query) = url_parts(url);
    let segs = segments(path);
    if supplied_token(query) != token {
        ReplyModel::Forbidden
    } else if segs.len() == 0 {
        ReplyModel::Html(index_page(index_body(listed, token), token))
    } else if segs.len() == 2 && segs[0] == "assets"@ {
        match asset_named(segs[1]) {
            Some(a) => ReplyModel::Asset(a),
            None => ReplyModel::NotFound,
        }
    } else if segs.len() == 2 && segs[0] == "r"@ {
        let id = segs[1];
        if m.by_id.dom().contains(id) {
            ReplyModel::Html(
                match m.by_id[id].html {
                    Some(h) => render_page(h, id, token),
                    None => pending_page(escaped(m.by_id[id].title), id, token),
                },
            )
        } else {
            ReplyModel::UnknownResult
        }
    } else if segs.len() == 3 && segs[0] == "r"@ && segs[2] == "events"@ {
        if m.by_id.dom().contains(segs[1]) {
            ReplyModel::Events(segs[1])
        } else {
            ReplyModel::UnknownResult
        }
    } else {
        ReplyModel::NotFound
    }
}

// ---------------------------------------------------------------- execution

/// `text` with `&`, `<` and `>` written as entities.
pub fn escape(text: &str) -> (r: String)
    ensures
        r@ == escaped(text@),
{
    let v = escape_chars(&chars_of(text));
    string_of(v.as_slice())
}

fn escape_chars(text: &Vec<char>) -> (r: Vec<char>)
    ensures
        r@ == escaped(text@),
{
    let amp = vec!['&'];
    let lt = vec!['<'];
    let gt = vec!['>'];
    let v1 = replace_all_exec(text.as_slice(), amp.as_slice(), chars_of("&amp;").as_slice());
    let v2 = replace_all_exec(v1.as_slice(), lt.as_slice(), chars_of("&lt;").as_slice());
    let v3 = replace_all_exec(v2.as_slice(), gt.as_slice(), chars_of("&gt;").as_slice());
    assert(amp@ =~= seq!['&'] && lt@ =~= seq!['<'] && gt@ =~= seq!['>']);
    v3
}

/// The token in a query, or nothing.
fn token_of(query: &[char]) -> (r: Vec<char>)
    ensures
        r@ == supplied_token(query@),
{
    let pieces = split_exec(query, '&');
    let prefix = chars_of("token=");
    let ghost all = split(query@, '&');
    assert(all.skip(0) =~= all);
    let mut i: usize = 0;
    while i < pieces.len()
        invariant
            0 <= i <= pieces@.len(),
            all == split(query@, '&'),
            pieces@.len() == all.len(),
            forall|k: int| 0 <= k < pieces@.len() ==> #[trigger] pieces@[k]@ == all[k],
            prefix@ == "token="@,
            first_stripped(all, "token="@) == first_stripped(all.skip(i as int), "token="@),
        decreases pieces@.len() - i,
    {
        let ghost rest = all.skip(i as int);
        assert(rest.len() > 0 && rest[0] == pieces@[i as int]@);
        match strip_prefix_exec(pieces[i].as_slice(), prefix.as_slice()) {
            Some(t) => {
                assert(first_stripped(rest, "token="@) == Some(t@));
                return t;
            },
            None => {
                assert(rest.skip(1) =~= all.skip(i + 1));
            },
        }
        i += 1;
    }
    Vec::new()
}

/// The path cut into its segments.
fn segments_of(path: &[char]) -> (r: Vec<Vec<char>>)
    ensures
        r@.len() == segments(path@).len(),
        forall|k: int| 0 <= k < r@.len() ==> #[trigger] r@[k]@ == segments(path@)[k],
{
    let trimmed = trim_char_exec(path, '/');
    if trimmed.len() == 0 {
        Vec::new()
    } else {
        split_exec(trimmed.as_slice(), '/')
    }
}

/// The asset with the given name.
fn asset_for(name: &[char]) -> (r: Option<Asset>)
    ensures
        r == asset_named(name@),
{
    if chars_eq(name, chars_of("webview.js").as_slice()) {
        Some(Asset::WebviewJs)
    } else if chars_eq(name, chars_of("webview.css").as_slice()) {
        Some(Asset::WebviewCss)
    } else if chars_eq(name, chars_of("theme.css").as_slice()) {
        Some(Asset::ThemeCss)
    } else {
        None
    }
}

/// The body of the listing page for the given results.
fn index_body_exec(rs: &Vec<Resource>, token: &str) -> (r: String)
    ensures
        r@ == index_body(resources_model(rs@), token@),
{
    let ghost model = resources_model(rs@);
    if rs.len() == 0 {
        return NO_RESULTS.to_owned();
    }
    let mut items: Vec<char> = Vec::new();
    let mut i: usize = 0;
    while i < rs.len()
        invariant
            0 <= i <= rs@.len(),
            model == resources_model(rs@),
            items@ == listing(model.take(i as int), token@),
        decreases rs@.len() - i,
    {
        let r = &rs[i];
        append_str(&mut items, "<li><a href=\"/r/");
        append_str(&mut items, r.id.as_str());
        append_str(&mut items, "?token=");
        append_str(&mut items, token);
        append_str(&mut items, "\">");
        let title = escape_chars(&chars_of(r.title.as_str()));
        append_chars(&mut items, title.as_slice());
        append_str(&mut items, "</a></li>");
        proof {
            let next = model.take(i + 1);
            assert(next.drop_last() =~= model.take(i as int));
            assert(next.last() == r@);
            assert(items@ =~= listing(model.take(i as int), token@) + listing_item(r@, token@));
        }
        i += 1;
    }
    assert(model.take(rs@.len() as int) =~= model);
    let mut body = chars_of("<ul>");
    append_chars(&mut body, items.as_slice());
    append_str(&mut body, "</ul>");
    string_of(body.as_slice())
}

/// The answer to a request for `url` from a server holding `token`.
///
/// A request for `/r/{id}/events` about a known result subscribes to it; the
/// registry's contents do not change.
pub fn respond(url: &str, token: &str, registry: &mut Registry) -> (r: Reply)
    requires
        old(registry).wf(),
    ensures
        final(registry).wf(),
        final(registry)@ == old(registry)@,
        final(registry).resources() == old(registry).resources(),
        r matches Reply::Events(id, listener) ==> final(registry).waiting() == subscribed(
            old(registry).waiting(),
            id@,
            listener.channel(),
        ),
        !(r@ is Events) ==> final(registry).waiting() == old(registry).waiting(),
        final(registry).offers() == old(registry).offers(),
        asks_for_listing(url@, token@) ==> exists|listed: Seq<ResourceModel>|
            is_listing(listed, old(registry).resources()) && r@ == route(
                url@,
                token@,
                old(registry)@,
                listed,
            ),
        !asks_for_listing(url@, token@) ==> r@ == route(
            url@,
            token@,
            old(registry)@,
            Seq::empty(),
        ),
{
    let u = chars_of(url);
    let (path, query) = match split_once_exec(u.as_slice(), '?') {
        Some(parts) => parts,
        None => (slice_chars_all(u.as_slice()), Vec::new()),
    };
    assert(path@ == url_parts(url@).0 && query@ == url_parts(url@).1);
    let supplied = token_of(query.as_slice());
    if !chars_eq(supplied.as_slice(), chars_of(token).as_slice()) {
        return Reply::Forbidden;
    }
    let segs = segments_of(path.as_slice());
    let ghost sm = segments(path@);
    if segs.len() == 0 {
        let listed = registry.list();
        let body = index_body_exec(&listed, token);
        let page = index(body.as_str(), token);
        assert(is_listing(resources_model(listed@), registry.resources()));
        return Reply::Html(page);
    }
    assert(segs@.len() > 0 && segs@[0]@ == sm[0]);
    let first_is_assets = chars_eq(segs[0].as_slice(), chars_of("assets").as_slice());
    let first_is_r = chars_eq(segs[0].as_slice(), chars_of("r").as_slice());
    if segs.len() == 2 && first_is_assets {
        assert(segs@[1]@ == sm[1]);
        match asset_for(segs[1].as_slice()) {
            Some(a) => Reply::Asset(a),
            None => Reply::NotFound,
        }
    } else if segs.len() == 2 && first_is_r {
        assert(segs@[1]@ == sm[1]);
        let id = string_of(segs[1].as_slice());
        match registry.get(id.as_str()) {
            Some(resource) => {
                let page = match &resource.html {
                    Some(rendered) => render(rendered.as_str(), id.as_str(), token),
                    None => pending(escape(resource.title.as_str()).as_str(), id.as_str(), token),
                };
                Reply::Html(page)
            },
            None => Reply::UnknownResult,
        }
    } else if segs.len() == 3 && first_is_r && chars_eq(
        segs[2].as_slice(),
        chars_of("events").as_slice(),
    ) {
        assert(segs@[1]@ == sm[1] && segs@[2]@ == sm[2]);
        let id = string_of(segs[1].as_slice());
        match registry.subscribe(id.as_str()) {
            Some(wakeups) => Reply::Events(id, wakeups),
            None => Reply::UnknownResult,
        }
    } else {
        proof {
            if segs@.len() == 3 && first_is_r {
                assert(segs@[2]@ == sm[2]);
            }
        }
        Reply::NotFound
    }
}

// ---------------------------------------------------------------- events

/// What the wait for the next wake-up of an event stream ended with.
#[derive(Debug, Clone, Copy, PartialEq, Eq, Structural)]
pub enum Wait {
    /// The result was rendered or started running.
    Woken,
    /// Nothing happened for a while.
    TimedOut,
    /// The registry let go of the stream.
    Closed,
}

/// How long an event stream waits for a wake-up before it sends a comment.
pub const KEEPALIVE_SECONDS: u64 = 20;

/// Written before the first event.
pub const EVENT_STREAM_HEAD: &'static str = "HTTP/1.1 200 OK\r\nContent-Type: text/event-stream\r\nCache-Control: no-cache\r\nConnection: keep-alive\r\n\r\n";

/// The frame sent after a wait, or `None` when the stream ends. A wake-up
/// tells the page whether the result is running or has changed; a quiet
/// spell sends a comment, which keeps the connection open and is how a
/// closed tab is noticed.
pub open spec fn event_frame_for(wait: Wait, m: RegistryModel, id: Seq<char>) -> Option<Seq<char>> {
    match wait {
        Wait::Woken => Some(
            if m.by_id.dom().contains(id) && m.by_id[id].running {
                "data: running\n\n"@
            } else {
                "data: changed\n\n"@
            },
        ),
        Wait::TimedOut => Some(":keepalive\n\n"@),
        Wait::Closed => None,
    }
}

/// The frame to send after a wait on the stream for `id`.
pub fn event_frame(wait: Wait, registry: &Registry, id: &str) -> (r: Option<String>)
    requires
        registry.wf(),
    ensures
        match event_frame_for(wait, registry@, id@) {
            Some(f) => r matches Some(s) && s@ == f,
            None => r is None,
        },
{
    match wait {
        Wait::Woken => {
            let running = match registry.get(id) {
                Some(r) => r.running,
                None => false,
            };
            if running {
                Some("data: running\n\n".to_owned())
            } else {
                Some("data: changed\n\n".to_owned())
            }
        },
        Wait::TimedOut => Some(":keepalive\n\n".to_owned()),
        Wait::Closed => None,
    }
}

// ---------------------------------------------------------------- escaping

/// What a character is written as in escaped text.
pub open spec fn escape_char(c: char) -> Seq<char> {
    if c == '&' {
        "&amp;"@
    } else if c == '<' {
        "&lt;"@
    } else if c == '>' {
        "&gt;"@
    } else {
        seq![c]
    }
}

/// Each character written as `escape_char` writes it.
pub open spec fn escape_each(s: Seq<char>) -> Seq<char>
    decreases s.len(),
{
    if s.len() == 0 {
        Seq::empty()
    } else {
        escape_char(s[0]) + escape_each(s.skip(1))
    }
}

/// How often `c` occurs in `s`.
pub open spec fn occurrences(s: Seq<char>, c: char) -> nat
    decreases s.len(),
{
    if s.len() == 0 {
        0
    } else {
        (if s[0] == c { 1nat } else { 0nat }) + occurrences(s.skip(1), c)
    }
}

/// Escaped text read back, left to right: each of `&amp;`, `&lt;` and
/// `&gt;` becomes the character it stands for.
pub open spec fn unescaped(s: Seq<char>) -> Seq<char>
    decreases s.len(),
{
    if s.len() == 0 {
        Seq::empty()
    } else if has_prefix(s, seq!['&', 'a', 'm', 'p', ';']) {
        seq!['&'] + unescaped(s.skip(5))
    } else if has_prefix(s, seq!['&', 'l', 't', ';']) {
        seq!['<'] + unescaped(s.skip(4))
    } else if has_prefix(s, seq!['&', 'g', 't', ';']) {
        seq!['>'] + unescaped(s.skip(4))
    } else {
        seq![s[0]] + unescaped(s.skip(1))
    }
}

proof fn lemma_entities()
    ensures
        "&amp;"@ == seq!['&', 'a', 'm', 'p', ';'],
        "&lt;"@ == seq!['&', 'l', 't', ';'],
        "&gt;"@ == seq!['&', 'g', 't', ';'],
{
    reveal_strlit("&amp;");
    reveal_strlit("&lt;");
    reveal_strlit("&gt;");
    assert("&amp;"@ =~= seq!['&', 'a', 'm', 'p', ';']);
    assert("&lt;"@ =~= seq!['&', 'l', 't', ';']);
    assert("&gt;"@ =~= seq!['&', 'g', 't', ';']);
}

/// A text starts with `c` exactly when its first character is `c`.
proof fn lemma_prefix_char(s: Seq<char>, c: char)
    requires
        s.len() > 0,
    ensures
        has_prefix(s, seq![c]) == (s[0] == c),
{
    assert(s.subrange(0, 1) =~= seq![s[0]]);
    assert(seq![s[0]][0] == s[0]);
    assert(seq![c][0] == c);
    if s[0] == c {
        assert(seq![s[0]] =~= seq![c]);
    }
}

/// Replacing a single character distributes over concatenation.
proof fn lemma_replace_char_concat(a: Seq<char>, b: Seq<char>, c: char, r: Seq<char>)
    ensures
        replace_all(a + b, seq![c], r) == replace_all(a, seq![c], r) + replace_all(b, seq![c], r),
    decreases a.len(),
{
    if a.len() == 0 {
        assert(a + b =~= b);
        assert(replace_all(a, seq![c], r) =~= Seq::<char>::empty());
    } else {
        lemma_replace_char_concat(a.skip(1), b, c, r);
        assert((a + b).skip(1) =~= a.skip(1) + b);
        assert((a + b)[0] == a[0]);
        lemma_prefix_char(a + b, c);
        lemma_prefix_char(a, c);
    }
}

/// Replacing a character that does not occur changes nothing.
proof fn lemma_replace_absent(s: Seq<char>, c: char, r: Seq<char>)
    requires
        !s.contains(c),
    ensures
        replace_all(s, seq![c], r) == s,
    decreases s.len(),
{
    if s.len() > 0 {
        assert(!s.skip(1).contains(c)) by {
            if s.skip(1).contains(c) {
                let k = choose|k: int| 0 <= k < s.skip(1).len() && s.skip(1)[k] == c;
                assert(s[k + 1] == c);
            }
        }
        lemma_replace_absent(s.skip(1), c, r);
        lemma_prefix_char(s, c);
        assert(s[0] != c);
        assert(seq![s[0]] + s.skip(1) =~= s);
    }
}

/// Replacing a single character in a one-character text.
proof fn lemma_replace_one(x: char, c: char, r: Seq<char>)
    ensures
        replace_all(seq![x], seq![c], r) == (if x == c { r } else { seq![x] }),
{
    let s = seq![x];
    lemma_prefix_char(s, c);
    assert(s[0] == x);
    assert(s.skip(1) =~= Seq::<char>::empty());
    assert(replace_all(Seq::<char>::empty(), seq![c], r) =~= Seq::<char>::empty());
    if x == c {
        assert(r + Seq::<char>::empty() =~= r);
    } else {
        assert(s + Seq::<char>::empty() =~= s);
    }
}

/// Escaping writes each character as `escape_char` writes it.
proof fn lemma_escaped_each(s: Seq<char>)
    ensures
        escaped(s) == escape_each(s),
    decreases s.len(),
{
    lemma_entities();
    if s.len() == 0 {
        assert(escaped(s) =~= Seq::<char>::empty());
    } else {
        let x = s[0];
        let t = s.skip(1);
        lemma_escaped_each(t);
        assert(s =~= seq![x] + t);
        let amp = "&amp;"@;
        let lt = "&lt;"@;
        let gt = "&gt;"@;
        lemma_replace_char_concat(seq![x], t, '&', amp);
        lemma_replace_one(x, '&', amp);
        let e1 = if x == '&' { amp } else { seq![x] };
        let r1 = replace_all(t, seq!['&'], amp);
        lemma_replace_char_concat(e1, r1, '<', lt);
        let e2 = if x == '&' { amp } else if x == '<' { lt } else { seq![x] };
        if x == '&' {
            assert(!amp.contains('<')) by {
                assert forall|k: int| 0 <= k < amp.len() implies amp[k] != '<' by {}
            }
            lemma_replace_absent(amp, '<', lt);
        } else {
            lemma_replace_one(x, '<', lt);
        }
        let r2 = replace_all(r1, seq!['<'], lt);
        lemma_replace_char_concat(e2, r2, '>', gt);
        if x == '&' {
            assert(!amp.contains('>')) by {
                assert forall|k: int| 0 <= k < amp.len() implies amp[k] != '>' by {}
            }
            lemma_replace_absent(amp, '>', gt);
        } else if x == '<' {
            assert(!lt.contains('>')) by {
                assert forall|k: int| 0 <= k < lt.len() implies lt[k] != '>' by {}
            }
            lemma_replace_absent(lt, '>', gt);
        } else {
            lemma_replace_one(x, '>', gt);
        }
        assert(escaped(s) == escape_char(x) + escaped(t));
    }
}

proof fn lemma_escape_each_laws(s: Seq<char>)
    ensures
        !escape_each(s).contains('<'),
        !escape_each(s).contains('>'),
        escape_each(s).len() == s.len() + 4 * occurrences(s, '&') + 3 * occurrences(s, '<') + 3 * occurrences(s, '>'),
        unescaped(escape_each(s)) == s,
    decreases s.len(),
{
    lemma_entities();
    if s.len() > 0 {
        let x = s[0];
        let t = s.skip(1);
        lemma_escape_each_laws(t);
        let e = escape_char(x);
        let rest = escape_each(t);
        let all = e + rest;
        assert(escape_each(s) == all);
        assert(!e.contains('<') && !e.contains('>')) by {
            assert forall|k: int| 0 <= k < e.len() implies e[k] != '<' && e[k] != '>' by {}
        }
        assert(!all.contains('<') && !all.contains('>')) by {
            assert forall|k: int| 0 <= k < all.len() implies all[k] != '<' && all[k] != '>' by {
                if k < e.len() {
                    assert(all[k] == e[k]);
                } else {
                    assert(all[k] == rest[k - e.len()]);
                }
            }
        }
        assert(all.skip(e.len() as int) =~= rest);
        if x == '&' {
            assert(all.subrange(0, 5) =~= "&amp;"@);
        } else if x == '<' {
            assert(all.subrange(0, 5) != "&amp;"@ || all.len() < 5) by {
                if all.len() >= 5 {
                    assert(all.subrange(0, 5)[1] == 'l');
                }
            }
            assert(all.subrange(0, 4) =~= "&lt;"@);
        } else if x == '>' {
            if all.len() >= 5 {
                assert(all.subrange(0, 5)[1] == 'g');
            }
            assert(all.subrange(0, 4)[1] == 'g');
            assert(all.subrange(0, 4) =~= "&gt;"@);
        } else {
            assert(all[0] == x);
            if all.len() >= 5 {
                assert(all.subrange(0, 5)[0] == x);
            }
            if all.len() >= 4 {
                assert(all.subrange(0, 4)[0] == x);
            }
        }
    }
}

/// Escaped text holds no `<` or `>`, is longer by four characters for each
/// `&` and three for each `<` or `>`, and reads back as the text it came
/// from: nothing is escaped twice.
pub proof fn law_escaping_is_safe_and_reversible(text: Seq<char>)
    ensures
        !escaped(text).contains('<'),
        !escaped(text).contains('>'),
        escaped(text).len() == text.len() + 4 * occurrences(text, '&') + 3 * occurrences(text, '<') + 3
            * occurrences(text, '>'),
        unescaped(escaped(text)) == text,
{
    lemma_escaped_each(text);
    lemma_escape_each_laws(text);
}

// ---------------------------------------------------------------- laws

/// A request that does not carry the server's token is refused, whatever it
/// asks for and whatever the registry holds.
pub proof fn law_the_token_is_required(
    url: Seq<char>,
    token: Seq<char>,
    m: RegistryModel,
    listed: Seq<ResourceModel>,
)
    requires
        supplied_token(url_parts(url).1) != token,
    ensures
        route(url, token, m, listed) == ReplyModel::Forbidden,
        reply_status(route(url, token, m, listed)) == 403,
{
}

/// Every answer that carries content (a page, an asset or an event stream)
/// is sent with status 200; a refusal for a missing token with 403; an
/// unknown page or result with 404.
pub proof fn law_answers_with_content_succeed(r: ReplyModel)
    ensures
        (r is Html || r is Asset || r is Events) <==> reply_status(r) == 200,
        r is Forbidden <==> reply_status(r) == 403,
        (r is NotFound || r is UnknownResult) <==> reply_status(r) == 404,
        forall|a: Asset| #[trigger] reply_status(ReplyModel::Asset(a)) == 200,
{
}

/// The first copy of `c` in `a + [c] + b`, when `a` has none, is the one
/// after `a`.
proof fn lemma_find_char(a: Seq<char>, c: char, b: Seq<char>)
    requires
        !a.contains(c),
    ensures
        find(a + seq![c] + b, seq![c]) == Some(a.len() as int),
{
    let s = a + seq![c] + b;
    lemma_find_props(s, seq![c]);
    assert(s.subrange(a.len() as int, a.len() as int + 1) =~= seq![c]);
    assert(matches_at(s, seq![c], a.len() as int));
    match find(s, seq![c]) {
        Some(k) => {
            if k < a.len() {
                assert(s.subrange(k, k + 1)[0] == s[k]);
                assert(s[k] == a[k]);
            }
        },
        None => {},
    }
}

/// A text without `c` has no copy of it to find, and is one piece.
proof fn lemma_without_char(s: Seq<char>, c: char)
    requires
        !s.contains(c),
    ensures
        find(s, seq![c]) is None,
        split(s, c) == seq![s],
{
    lemma_find_props(s, seq![c]);
    match find(s, seq![c]) {
        Some(k) => {
            assert(s.subrange(k, k + 1)[0] == s[k]);
        },
        None => {},
    }
}

/// The path and query of the address of a result's page are read back as
/// the result's id and the token.
proof fn lemma_result_address(id: Seq<char>, token: Seq<char>)
    requires
        id.len() > 0,
        !id.contains('/'),
        !id.contains('?'),
        !token.contains('&'),
    ensures
        url_parts("/r/"@ + id + "?token="@ + token) == ("/r/"@ + id, "token="@ + token),
        supplied_token("token="@ + token) == token,
        segments("/r/"@ + id) == seq!["r"@, id],
{
    reveal_strlit("/r/");
    reveal_strlit("?token=");
    reveal_strlit("token=");
    reveal_strlit("r");
    let a = "/r/"@ + id;
    let b = "token="@ + token;
    let url = "/r/"@ + id + "?token="@ + token;
    assert(url =~= a + seq!['?'] + b);
    assert(!a.contains('?')) by {
        assert forall|i: int| 0 <= i < a.len() implies a[i] != '?' by {
            if i >= 3 {
                assert(a[i] == id[i - 3]);
            }
        }
    }
    lemma_find_char(a, '?', b);
    assert(url.take(a.len() as int) =~= a);
    assert(url.skip(a.len() as int + 1) =~= b);
    // the query is one piece, starting with the key
    assert(!b.contains('&')) by {
        assert forall|i: int| 0 <= i < b.len() implies b[i] != '&' by {
            if i >= 6 {
                assert(b[i] == token[i - 6]);
            }
        }
    }
    lemma_without_char(b, '&');
    assert(b.take(6) =~= "token="@);
    assert(b.skip(6) =~= token);
    assert(strip_prefix(b, "token="@) == Some(token));
    assert(first_stripped(seq![b], "token="@) == Some(token));
    // the path is `r` and the id
    let t = "r/"@ + id;
    reveal_strlit("r/");
    assert(a.skip(1) =~= t);
    assert(trim_char_start(t, '/') == t);
    assert(trim_char_start(a, '/') == t);
    assert(t.last() == id.last());
    assert(id.last() != '/');
    assert(trim_char_end(t, '/') == t);
    assert(t =~= seq!['r'] + seq!['/'] + id);
    assert(!seq!['r'].contains('/'));
    lemma_find_char(seq!['r'], '/', id);
    lemma_without_char(id, '/');
    assert(t.take(1) =~= "r"@);
    assert(t.skip(2) =~= id);
    assert(split(t, '/') == seq![t.take(1)] + split(t.skip(2), '/'));
    assert(split(t, '/') =~= seq!["r"@, id]);
}

/// A rendered result reaches the browser: once a script has been shown and
/// the server has rendered it, its page, asked for with the token, is the
/// render, made into a page.
pub proof fn law_a_rendered_result_reaches_the_browser(
    m: RegistryModel,
    title: Seq<char>,
    uri: Seq<char>,
    html: Seq<char>,
    token: Seq<char>,
    listed: Seq<ResourceModel>,
)
    requires
        !token.contains('&'),
    ensures
        ({
            let id = resource_id_of(uri);
            let after = rendered(registered(m, title, uri), uri, html);
            route("/r/"@ + id + "?token="@ + token, token, after, listed) == ReplyModel::Html(
                render_page(html, id, token),
            )
        }),
{
    let id = resource_id_of(uri);
    lemma_hex_fixed(default_hash(uri) as nat, 16);
    assert(!id.contains('/') && !id.contains('?')) by {
        assert forall|i: int| 0 <= i < id.len() implies id[i] != '/' && id[i] != '?' by {
            assert(is_hex_digit(id[i]));
        }
    }
    lemma_result_address(id, token);
    reveal_strlit("r");
    reveal_strlit("assets");
    assert("r"@ != "assets"@) by {
        assert("r"@.len() != "assets"@.len());
    }
}

} // verus!
