//! The single Markdown file the editor keeps open.
//!
//! One file rather than one per script: the editor cannot be told to open a
//! document, so every extra file is another manual open. With a single pane the
//! reader opens it once, splits it beside the source, and every subsequent
//! "Show script results" lands there. This module decides what the pane shows;
//! writing the file is left to the caller.

use vstd::prelude::*;
use vstd::utf8::{decode_utf8, encode_scalar, encode_utf8, has_width_1_encoding, is_char_boundary, valid_utf8};
use crate::http::first_stripped;
use crate::numbers::{parse_unsigned, parsed_within};
use crate::table::Table;
use crate::text::{has_prefix, append_str, chars_of, split, split_exec, split_once, split_once_exec, string_of, strip_prefix_exec};

verus! {

broadcast use vstd::string::group_string_axioms;

/// Where the pane is written by default, under the project.
pub const DEFAULT_RESULTS_PATH: &'static str = ".daml/ide/script-results.md";

/// The title used when a render arrives for a script whose title is not
/// known.
pub const FALLBACK_TITLE: &'static str = "Script results";

// ---------------------------------------------------------------- decoding

/// The byte two hexadecimal digits spell, read the way `u8::from_str_radix`
/// reads them (which also takes `+` and one digit).
pub open spec fn hex_pair(b1: u8, b2: u8) -> Option<u8> {
    match parsed_within(seq![b1, b2], 16, 255) {
        Some(n) => Some(n as u8),
        None => None,
    }
}

/// The bytes with `%XY` escapes turned into the byte they spell and `+` into
/// a space; a `%` that does not start an escape stays as it is.
pub open spec fn decoded(b: Seq<u8>) -> Seq<u8>
    decreases b.len(),
{
    if b.len() == 0 {
        Seq::empty()
    } else if b[0] == 37u8 && 2 < b.len() {
        match hex_pair(b[1], b[2]) {
            Some(v) => seq![v] + decoded(b.skip(3)),
            None => seq![37u8] + decoded(b.skip(1)),
        }
    } else if b[0] == 43u8 {
        seq![32u8] + decoded(b.skip(1))
    } else {
        seq![b[0]] + decoded(b.skip(1))
    }
}

/// The two characters' worth of bytes after each `%` end on a character
/// boundary. The escape is read by slicing the text there, which panics on
/// any other input.
pub open spec fn slices_cleanly(b: Seq<u8>) -> bool {
    forall|i: int| 0 <= i && i + 2 < b.len() && b[i] == 37u8 ==> #[trigger] is_char_boundary(b, i + 3)
}

/// What `String::from_utf8_lossy` makes of the bytes.
pub uninterp spec fn lossy_text(bytes: Seq<u8>) -> Seq<char>;

/// Text from bytes with `String::from_utf8_lossy`: each invalid sequence
/// becomes U+FFFD. Stated: the result is named by the bytes alone, and valid
/// UTF-8 comes back as the characters it encodes.
#[verifier::external_body]
fn utf8_lossy(bytes: &[u8]) -> (r: String)
    ensures
        r@ == lossy_text(bytes@),
        valid_utf8(bytes@) ==> r@ == decode_utf8(bytes@),
{
    String::from_utf8_lossy(bytes).into_owned()
}

/// The text with its percent escapes decoded: the characters the decoded
/// bytes encode when they are valid UTF-8, and what
/// `String::from_utf8_lossy` makes of them otherwise.
pub open spec fn percent_decoded(text: Seq<char>) -> Seq<char> {
    let b = decoded(encode_utf8(text));
    if valid_utf8(b) {
        decode_utf8(b)
    } else {
        lossy_text(b)
    }
}


/// A character other than `%` and `+` encodes to bytes that are neither.
proof fn lemma_scalar_bytes_plain(c: char)
    requires
        c != '%',
        c != '+',
    ensures
        forall|i: int| 0 <= i < encode_scalar(c as u32).len() ==> #[trigger] encode_scalar(c as u32)[i] != 37u8
            && encode_scalar(c as u32)[i] != 43u8,
{
    let v = c as u32;
    if has_width_1_encoding(v) {
        assert(v != 37u32 && v != 43u32);
        assert((v & 0x7F) as u8 != 37u8 && (v & 0x7F) as u8 != 43u8) by (bit_vector)
            requires
                v <= 0x7F,
                v != 37u32,
                v != 43u32,
        ;
    } else {
        let b0 = encode_scalar(v)[0];
        assert forall|x: u32| #![auto] (0xC0u8 | ((x >> 6) & 0x1F) as u8) >= 0x80u8 && (0xE0u8 | ((x >> 12)
            & 0x0F) as u8) >= 0x80u8 && (0xF0u8 | ((x >> 18) & 0x7) as u8) >= 0x80u8 && (0x80u8 | (x
            & 0x3F) as u8) >= 0x80u8 && (0x80u8 | ((x >> 6) & 0x3F) as u8) >= 0x80u8 && (0x80u8 | ((x
            >> 12) & 0x3F) as u8) >= 0x80u8 by {
            assert((0xC0u8 | ((x >> 6) & 0x1F) as u8) >= 0x80u8) by (bit_vector);
            assert((0xE0u8 | ((x >> 12) & 0x0F) as u8) >= 0x80u8) by (bit_vector);
            assert((0xF0u8 | ((x >> 18) & 0x7) as u8) >= 0x80u8) by (bit_vector);
            assert((0x80u8 | (x & 0x3F) as u8) >= 0x80u8) by (bit_vector);
            assert((0x80u8 | ((x >> 6) & 0x3F) as u8) >= 0x80u8) by (bit_vector);
            assert((0x80u8 | ((x >> 12) & 0x3F) as u8) >= 0x80u8) by (bit_vector);
        }
        assert(forall|i: int| 0 <= i < encode_scalar(v).len() ==> #[trigger] encode_scalar(v)[i] >= 0x80u8);
    }
}

/// Text with neither `%` nor `+` encodes to bytes with neither.
proof fn lemma_plain_bytes(text: Seq<char>)
    requires
        !text.contains('%'),
        !text.contains('+'),
    ensures
        forall|i: int| 0 <= i < encode_utf8(text).len() ==> #[trigger] encode_utf8(text)[i] != 37u8
            && encode_utf8(text)[i] != 43u8,
    decreases text.len(),
{
    if text.len() > 0 {
        assert(!text.drop_first().contains('%') && !text.drop_first().contains('+')) by {
            if text.drop_first().contains('%') {
                let k = choose|k: int| 0 <= k < text.drop_first().len() && text.drop_first()[k] == '%';
                assert(text[k + 1] == '%');
            }
            if text.drop_first().contains('+') {
                let k = choose|k: int| 0 <= k < text.drop_first().len() && text.drop_first()[k] == '+';
                assert(text[k + 1] == '+');
            }
        }
        lemma_plain_bytes(text.drop_first());
        assert(text[0] != '%' && text[0] != '+');
        lemma_scalar_bytes_plain(text[0]);
        let head = encode_scalar(text[0] as u32);
        let tail = encode_utf8(text.drop_first());
        assert(encode_utf8(text) == head + tail);
        assert forall|i: int| 0 <= i < encode_utf8(text).len() implies #[trigger] encode_utf8(text)[i] != 37u8
            && encode_utf8(text)[i] != 43u8 by {
            if i < head.len() {
                assert(encode_utf8(text)[i] == head[i]);
            } else {
                assert(encode_utf8(text)[i] == tail[i - head.len()]);
            }
        }
    }
}

/// Bytes with neither `%` nor `+` decode to themselves.
proof fn lemma_decoded_plain(b: Seq<u8>)
    requires
        forall|i: int| 0 <= i < b.len() ==> #[trigger] b[i] != 37u8 && b[i] != 43u8,
    ensures
        decoded(b) == b,
    decreases b.len(),
{
    if b.len() > 0 {
        assert(b[0] != 37u8 && b[0] != 43u8);
        assert forall|i: int| 0 <= i < b.skip(1).len() implies #[trigger] b.skip(1)[i] != 37u8 && b.skip(1)[i] != 43u8 by {
            assert(b.skip(1)[i] == b[i + 1]);
        }
        lemma_decoded_plain(b.skip(1));
        assert(seq![b[0]] + b.skip(1) =~= b);
    }
}

/// `text` with `%XY` escapes and `+` decoded; what is not valid UTF-8
/// afterwards becomes U+FFFD.
pub fn percent_decode(text: &str) -> (r: String)
    requires
        slices_cleanly(encode_utf8(text@)),
    ensures
        r@ == percent_decoded(text@),
        !text@.contains('%') && !text@.contains('+') ==> r@ == text@,
{
    proof {
        if !text@.contains('%') && !text@.contains('+') {
            lemma_plain_bytes(text@);
            lemma_decoded_plain(encode_utf8(text@));
            vstd::utf8::encode_utf8_valid_utf8(text@);
            vstd::utf8::encode_utf8_decode_utf8(text@);
        }
    }
    let bytes = text.as_bytes();
    let ghost b = bytes@;
    let mut out: Vec<u8> = Vec::new();
    let mut i: usize = 0;
    assert(b.skip(0) =~= b);
    while i < bytes.len()
        invariant
            0 <= i <= b.len(),
            b == bytes@,
            decoded(b) == out@ + decoded(b.skip(i as int)),
        decreases b.len() - i,
    {
        let ghost rest = b.skip(i as int);
        assert(rest[0] == b[i as int]);
        let n = bytes.len();
        if bytes[i] == 37u8 && n - i > 2 {
            assert(rest[1] == b[i + 1] && rest[2] == b[i + 2]);
            let pair = [bytes[i + 1], bytes[i + 2]];
            assert(pair@ =~= seq![b[i + 1], b[i + 2]]);
            match parse_unsigned(&pair, 16, 255) {
                Some(v) => {
                    out.push(v as u8);
                    assert(rest.skip(3) =~= b.skip(i + 3));
                    i += 3;
                },
                None => {
                    out.push(37u8);
                    assert(rest.skip(1) =~= b.skip(i + 1));
                    i += 1;
                },
            }
        } else if bytes[i] == 43u8 {
            out.push(32u8);
            assert(rest.skip(1) =~= b.skip(i + 1));
            i += 1;
        } else {
            out.push(bytes[i]);
            assert(rest.skip(1) =~= b.skip(i + 1));
            i += 1;
        }
    }
    assert(decoded(b.skip(i as int)) =~= Seq::<u8>::empty());
    assert(out@ =~= decoded(b));
    utf8_lossy(out.as_slice())
}

// ---------------------------------------------------------------- the query

/// The query of a URI: what follows its first `?`.
pub open spec fn query_of(uri: Seq<char>) -> Option<Seq<char>> {
    match split_once(uri, '?') {
        Some((_, q)) => Some(q),
        None => None,
    }
}

/// The undecoded value of `key` in the query of `uri`: from the first pair
/// that starts with `key=`.
pub open spec fn raw_query_value(uri: Seq<char>, key: Seq<char>) -> Option<Seq<char>> {
    match query_of(uri) {
        Some(q) => first_stripped(split(q, '&'), key + "="@),
        None => None,
    }
}

/// The value of `key` in the query of `uri`, decoded.
pub open spec fn query_value_of(uri: Seq<char>, key: Seq<char>) -> Option<Seq<char>> {
    match raw_query_value(uri, key) {
        Some(v) => Some(percent_decoded(v)),
        None => None,
    }
}

/// Decoding the value of `key` in `uri` does not panic.
pub open spec fn decodes_cleanly(uri: Seq<char>, key: Seq<char>) -> bool {
    match raw_query_value(uri, key) {
        Some(v) => slices_cleanly(encode_utf8(v)),
        None => true,
    }
}

/// The decoded value of `key` in the query of `uri`, as in
/// `daml://compiler?file=%2Fa%2Fb.daml&top-level-decl=setup`.
pub fn query_value(uri: &str, key: &str) -> (r: Option<String>)
    requires
        decodes_cleanly(uri@, key@),
    ensures
        match query_value_of(uri@, key@) {
            Some(v) => r matches Some(s) && s@ == v,
            None => r is None,
        },
{
    let u = chars_of(uri);
    let query = match split_once_exec(u.as_slice(), '?') {
        Some((_, q)) => q,
        None => {
            return None;
        },
    };
    let mut prefix = chars_of(key);
    append_str(&mut prefix, "=");
    let pieces = split_exec(query.as_slice(), '&');
    let ghost all = split(query@, '&');
    assert(all.skip(0) =~= all);
    let mut i: usize = 0;
    while i < pieces.len()
        invariant
            0 <= i <= pieces@.len(),
            all == split(query@, '&'),
            query_of(uri@) == Some(query@),
            decodes_cleanly(uri@, key@),
            pieces@.len() == all.len(),
            forall|k: int| 0 <= k < pieces@.len() ==> #[trigger] pieces@[k]@ == all[k],
            prefix@ == key@ + "="@,
            first_stripped(all, key@ + "="@) == first_stripped(all.skip(i as int), key@ + "="@),
        decreases pieces@.len() - i,
    {
        let ghost rest = all.skip(i as int);
        assert(rest.len() > 0 && rest[0] == pieces@[i as int]@);
        match strip_prefix_exec(pieces[i].as_slice(), prefix.as_slice()) {
            Some(v) => {
                assert(first_stripped(rest, key@ + "="@) == Some(v@));
                assert(raw_query_value(uri@, key@) == Some(v@));
                let value = string_of(v.as_slice());
                return Some(percent_decode(value.as_str()));
            },
            None => {
                assert(rest.skip(1) =~= all.skip(i + 1));
            },
        }
        i += 1;
    }
    None
}

// ---------------------------------------------------------------- paths

/// Whether a path starts with a Windows verbatim prefix (`\\?\`), after which
/// `Path::join` normalises the whole path.
pub open spec fn verbatim(path: Seq<char>) -> bool {
    has_prefix(path, seq!['\\', '\\', '?', '\\'])
}

/// What `Path::join` makes of a base and a relative path, written out as
/// text. It follows the path rules of the platform the crate is built for,
/// and depends on nothing else.
pub uninterp spec fn joined_path(base: Seq<char>, rest: Seq<char>) -> Seq<char>;

/// `base` joined with the relative path `rest` by `Path::join`.
///
/// Stated: the result is named by the two paths alone; unless `base` is a
/// verbatim path, it starts with `base` and ends with `rest`, as
/// `PathBuf::push` documents for a relative path.
#[verifier::external_body]
fn join_path(base: &str, rest: &str) -> (r: String)
    requires
        rest@ == DEFAULT_RESULTS_PATH@,
    ensures
        r@ == joined_path(base@, rest@),
        !verbatim(base@) ==> r@.len() >= base@.len() + rest@.len() && r@.take(base@.len() as int) == base@
            && r@.skip(r@.len() - rest@.len()) == rest@,
{
    std::path::Path::new(base).join(rest).display().to_string()
}

/// What `Path::strip_prefix` gives for a path and a base, written out as
/// text: the rest of the path when `base` is one of its leading components,
/// nothing otherwise. It follows the path rules of the platform the crate is
/// built for, and depends on nothing else.
pub uninterp spec fn stripped_path(path: Seq<char>, base: Seq<char>) -> Option<Seq<char>>;

/// `path` relative to `base` by `Path::strip_prefix`, when `base` is one of
/// its leading components. Stated: the result is named by the two paths
/// alone.
#[verifier::external_body]
fn relative_path(path: &str, base: &str) -> (r: Option<String>)
    ensures
        match stripped_path(path@, base@) {
            Some(x) => r matches Some(t) && t@ == x,
            None => r is None,
        },
{
    std::path::Path::new(path).strip_prefix(base).ok().map(|relative| relative.display().to_string())
}

// ---------------------------------------------------------------- the pane

/// The document shown while a script runs.
pub open spec fn placeholder(title: Seq<char>, source: Seq<char>) -> Seq<char> {
    "# "@ + title + "\n\n`"@ + source + "`\n\n_Running…_\n"@
}

/// What a render of the shown script is written with: the markdown for it
/// is made from these.
pub struct Rendering {
    pub title: String,
    pub source: String,
    pub html: String,
}

/// The pane: where it is written, the project it belongs to, the script it
/// shows and the title of every script shown.
pub struct Pane {
    path: String,
    root: String,
    /// The script the pane is currently showing. Several virtual resources
    /// can re-render at once, and without this the pane would flip between
    /// them.
    current: Option<String>,
    titles: Table<String>,
}

/// The model of a pane.
pub struct PaneModel {
    pub path: Seq<char>,
    pub root: Seq<char>,
    pub current: Option<Seq<char>>,
    pub titles: Map<Seq<char>, Seq<char>>,
}

impl View for Pane {
    type V = PaneModel;

    closed spec fn view(&self) -> PaneModel {
        PaneModel {
            path: self.path@,
            root: self.root@,
            current: match self.current {
                Some(c) => Some(c@),
                None => None,
            },
            titles: self.titles.map().map_values(|t: String| t@),
        }
    }
}

/// The source a URI's script lives in, for a project at `root`: the file
/// the URI names, relative to the project when it is inside it, or the URI
/// itself when it names no file.
pub open spec fn source_text(root: Seq<char>, uri: Seq<char>) -> Seq<char> {
    match query_value_of(uri, "file"@) {
        None => uri,
        Some(file) => match stripped_path(file, root) {
            Some(relative) => relative,
            None => file,
        },
    }
}

impl Pane {
    /// The pane is consistent.
    pub closed spec fn wf(&self) -> bool {
        self.titles.wf()
    }

    /// A pane for the project at `root`, written to `path`, or by default to
    /// `.daml/ide/script-results.md` under the project.
    pub fn new(root: &str, path: Option<&str>) -> (r: Pane)
        ensures
            r.wf(),
            r@.root == root@,
            r@.current is None,
            r@.titles == Map::<Seq<char>, Seq<char>>::empty(),
            match path {
                Some(p) => r@.path == p@,
                None => r@.path == joined_path(root@, DEFAULT_RESULTS_PATH@) && (!verbatim(root@) ==> r@.path.take(root@.len() as int) == root@ && r@.path.len() >= root@.len()
                    + DEFAULT_RESULTS_PATH@.len() && r@.path.skip(
                    r@.path.len() - DEFAULT_RESULTS_PATH@.len(),
                ) == DEFAULT_RESULTS_PATH@),
            },
    {
        let path = match path {
            Some(p) => p.to_owned(),
            None => join_path(root, DEFAULT_RESULTS_PATH),
        };
        let r = Pane { path, root: root.to_owned(), current: None, titles: Table::new() };
        assert(r@.titles =~= Map::<Seq<char>, Seq<char>>::empty());
        r
    }

    /// Where the pane is written.
    pub fn path(&self) -> (r: &str)
        ensures
            r@ == self@.path,
    {
        self.path.as_str()
    }

    /// The source file the script lives in, relative to the project when it
    /// is inside it, because an absolute path is noise in a heading. The URI
    /// itself when it names no file.
    pub fn source_of(&self, uri: &str) -> (r: String)
        requires
            decodes_cleanly(uri@, "file"@),
        ensures
            r@ == source_text(self@.root, uri@),
    {
        match query_value(uri, "file") {
            Some(file) => match relative_path(file.as_str(), self.root.as_str()) {
                Some(relative) => relative,
                None => file,
            },
            None => uri.to_owned(),
        }
    }

    /// Switches the pane to this script immediately, before the server has
    /// rendered anything, so a click always produces visible feedback, and
    /// returns the document to write.
    pub fn show(&mut self, uri: &str, title: &str) -> (r: String)
        requires
            old(self).wf(),
            decodes_cleanly(uri@, "file"@),
        ensures
            final(self).wf(),
            final(self)@ == (PaneModel {
                current: Some(uri@),
                titles: old(self)@.titles.insert(uri@, title@),
                ..old(self)@
            }),
            r@ == placeholder(title@, source_text(old(self)@.root, uri@)),
    {
        let ghost before = self@;
        self.current = Some(uri.to_owned());
        self.titles.insert(uri.to_owned(), title.to_owned());
        assert(self@.titles =~= before.titles.insert(uri@, title@));
        let source = self.source_of(uri);
        let mut v = chars_of("# ");
        append_str(&mut v, title);
        append_str(&mut v, "\n\n`");
        append_str(&mut v, source.as_str());
        append_str(&mut v, "`\n\n_Running…_\n");
        string_of(v.as_slice())
    }

    /// What a render of `uri` is written with, or `None` when the pane shows
    /// another script: renders for anything else are ignored.
    pub fn update(&self, uri: &str, html: &str) -> (r: Option<Rendering>)
        requires
            self.wf(),
            self@.current == Some(uri@) ==> decodes_cleanly(uri@, "file"@),
        ensures
            r is Some <==> self@.current == Some(uri@),
            r matches Some(x) ==> x.html@ == html@ && x.source@ == source_text(self@.root, uri@) && x.title@ == (
            if self@.titles.dom().contains(uri@) {
                self@.titles[uri@]
            } else {
                FALLBACK_TITLE@
            }),
    {
        let shown = match &self.current {
            Some(c) => crate::text::str_eq(c.as_str(), uri),
            None => false,
        };
        if !shown {
            return None;
        }
        let title = match self.titles.get(uri) {
            Some(t) => t.clone(),
            None => FALLBACK_TITLE.to_owned(),
        };
        Some(Rendering { title, source: self.source_of(uri), html: html.to_owned() })
    }
}

} // verus!
