//! The Zed extension's decisions: which command starts the language server,
//! and how completions and symbols are labelled.
//!
//! Labels are given as Daml code with byte ranges into it, so the grammar
//! highlights them; the ranges are byte offsets, as Zed counts them.

use vstd::prelude::*;
use vstd::utf8::encode_utf8;
use crate::server::{texts, ResolvedCommand, ServerSettings};
use crate::text::{append_str, chars_of, has_prefix_exec, slice_chars, string_of, strip_prefix, trim, trim_end, trim_exec, trim_start};

verus! {

broadcast use vstd::string::group_string_axioms;

/// The length of a text in bytes, as UTF-8.
pub open spec fn blen(s: Seq<char>) -> nat {
    encode_utf8(s).len()
}

proof fn lemma_blen_concat(a: Seq<char>, b: Seq<char>)
    ensures
        blen(a + b) == blen(a) + blen(b),
    decreases a.len(),
{
    if a.len() > 0 {
        lemma_blen_concat(a.drop_first(), b);
        assert((a + b).drop_first() =~= a.drop_first() + b);
        assert((a + b)[0] == a[0]);
    } else {
        assert(a + b =~= b);
    }
}

fn byte_len(s: &str) -> (n: usize)
    requires
        blen(s@) <= usize::MAX,
    ensures
        n == blen(s@),
{
    s.len()
}

// ---------------------------------------------------------------- labels

/// A byte range into a label's code.
#[derive(Debug, Clone, Copy, PartialEq, Eq, Structural)]
pub struct Span {
    pub start: usize,
    pub end: usize,
}

/// A piece of a label: a range of its code, highlighted as code, or text of
/// its own with an optional highlight.
pub enum LabelPart {
    Code(Span),
    Literal(String, Option<String>),
}

/// A label: code to highlight, the pieces shown, and the range that is
/// matched against what the user types.
pub struct Label {
    pub code: String,
    pub parts: Vec<LabelPart>,
    pub filter: Span,
}

/// The model of a piece.
pub enum PartModel {
    Code(nat, nat),
    Literal(Seq<char>, Option<Seq<char>>),
}

/// The model of a label.
pub struct LabelModel {
    pub code: Seq<char>,
    pub parts: Seq<PartModel>,
    pub filter: (nat, nat),
}

impl View for LabelPart {
    type V = PartModel;

    open spec fn view(&self) -> PartModel {
        match self {
            LabelPart::Code(s) => PartModel::Code(s.start as nat, s.end as nat),
            LabelPart::Literal(t, h) => PartModel::Literal(
                t@,
                match h {
                    Some(x) => Some(x@),
                    None => None,
                },
            ),
        }
    }
}

impl View for Label {
    type V = LabelModel;

    open spec fn view(&self) -> LabelModel {
        LabelModel {
            code: self.code@,
            parts: self.parts@.map_values(|p: LabelPart| p@),
            filter: (self.filter.start as nat, self.filter.end as nat),
        }
    }
}

/// The detail worth showing after a completion's name: trimmed, without a
/// leading `::` or `:` (damlc sometimes includes the separator itself), and
/// trimmed again. Nothing when it is missing or blank.
pub open spec fn completion_detail(detail: Option<Seq<char>>) -> Option<Seq<char>> {
    match detail {
        None => None,
        Some(d) => {
            let t = trim(d);
            if t.len() == 0 {
                None
            } else {
                Some(
                    trim(
                        match strip_prefix(t, "::"@) {
                            Some(r) => r,
                            None => match strip_prefix(t, ":"@) {
                                Some(r) => r,
                                None => t,
                            },
                        },
                    ),
                )
            }
        },
    }
}

/// A completion shown as `name : Type`, Daml's single-colon annotation, so
/// the grammar highlights it; the separator is highlighted as an operator
/// and only the name is matched.
pub open spec fn completion_label_for(label: Seq<char>, detail: Option<Seq<char>>) -> Option<LabelModel> {
    match completion_detail(detail) {
        None => None,
        Some(d) => {
            let code = label + " : "@ + d;
            Some(
                LabelModel {
                    code,
                    parts: seq![
                        PartModel::Code(0, blen(label)),
                        PartModel::Literal(" : "@, Some("operator"@)),
                        PartModel::Code(blen(label) + blen(" : "@), blen(code)),
                    ],
                    filter: (0, blen(label)),
                },
            )
        },
    }
}


proof fn lemma_blen_skip(s: Seq<char>, k: int)
    requires
        0 <= k <= s.len(),
    ensures
        blen(s.skip(k)) <= blen(s),
{
    lemma_blen_concat(s.take(k), s.skip(k));
    assert(s.take(k) + s.skip(k) =~= s);
}

proof fn lemma_blen_drop_last(s: Seq<char>)
    requires
        s.len() > 0,
    ensures
        blen(s.drop_last()) <= blen(s),
{
    lemma_blen_concat(s.drop_last(), seq![s.last()]);
    assert(s.drop_last() + seq![s.last()] =~= s);
}

proof fn lemma_blen_trim_start(s: Seq<char>)
    ensures
        blen(trim_start(s)) <= blen(s),
    decreases s.len(),
{
    if s.len() > 0 {
        lemma_blen_trim_start(s.skip(1));
        lemma_blen_skip(s, 1);
    }
}

proof fn lemma_blen_trim_end(s: Seq<char>)
    ensures
        blen(trim_end(s)) <= blen(s),
    decreases s.len(),
{
    if s.len() > 0 {
        lemma_blen_trim_end(s.drop_last());
        lemma_blen_drop_last(s);
    }
}

proof fn lemma_blen_trim(s: Seq<char>)
    ensures
        blen(trim(s)) <= blen(s),
{
    lemma_blen_trim_start(s);
    lemma_blen_trim_end(trim_start(s));
}

/// The detail shown is no longer than the one given.
proof fn lemma_blen_detail(d: Seq<char>)
    ensures
        completion_detail(Some(d)) matches Some(x) ==> blen(x) <= blen(d),
{
    let t = trim(d);
    lemma_blen_trim(d);
    if t.len() > 0 {
        let stripped = match strip_prefix(t, "::"@) {
            Some(r) => r,
            None => match strip_prefix(t, ":"@) {
                Some(r) => r,
                None => t,
            },
        };
        if strip_prefix(t, "::"@) is Some {
            lemma_blen_skip(t, "::"@.len() as int);
        } else if strip_prefix(t, ":"@) is Some {
            lemma_blen_skip(t, ":"@.len() as int);
        }
        assert(blen(stripped) <= blen(t));
        lemma_blen_trim(stripped);
    }
}

/// The label of a completion with the given name and detail. The label's
/// code must fit in memory.
pub fn completion_label(label: &str, detail: Option<&str>) -> (r: Option<Label>)
    requires
        detail matches Some(d) ==> blen(label@) + 3 + blen(d@) <= usize::MAX,
    ensures
        match completion_label_for(label@, match detail { Some(d) => Some(d@), None => None }) {
            Some(m) => r matches Some(l) && l@ == m,
            None => r is None,
        },
{
    let d = match detail {
        Some(d) => d,
        None => {
            return None;
        },
    };
    let t = trim_exec(chars_of(d).as_slice());
    if t.len() == 0 {
        return None;
    }
    let ghost tm = t@;
    let double = chars_of("::");
    let single = chars_of(":");
    let stripped = if has_prefix_exec(t.as_slice(), double.as_slice()) {
        slice_chars(t.as_slice(), double.len(), t.len())
    } else if has_prefix_exec(t.as_slice(), single.as_slice()) {
        slice_chars(t.as_slice(), single.len(), t.len())
    } else {
        t
    };
    let detail_text = string_of(trim_exec(stripped.as_slice()).as_slice());
    let ghost dm = detail_text@;
    proof {
        reveal_strlit(" : ");
        reveal_strlit("::");
        reveal_strlit(":");
        assert(completion_detail(Some(d@)) == Some(dm));
        lemma_blen_detail(d@);
        vstd::utf8::is_ascii_chars_encode_utf8(" : "@);
        assert(blen(" : "@) == 3);
        lemma_blen_concat(label@, " : "@);
        lemma_blen_concat(label@ + " : "@, dm);
    }
    let mut code = chars_of(label);
    append_str(&mut code, " : ");
    append_str(&mut code, detail_text.as_str());
    let code = string_of(code.as_slice());
    let name_end = byte_len(label);
    let detail_start = name_end + 3;
    let code_end = byte_len(code.as_str());
    let mut parts: Vec<LabelPart> = Vec::new();
    parts.push(LabelPart::Code(Span { start: 0, end: name_end }));
    parts.push(LabelPart::Literal(" : ".to_owned(), Some("operator".to_owned())));
    parts.push(LabelPart::Code(Span { start: detail_start, end: code_end }));
    let r = Label { code, parts, filter: Span { start: 0, end: name_end } };
    assert(r@.parts =~= completion_label_for(label@, Some(d@))->0.parts);
    Some(r)
}

/// The kinds of symbol a label is made for.
#[derive(Debug, Clone, Copy, PartialEq, Eq, Structural)]
pub enum SymbolKind {
    Struct,
    Constructor,
    Variable,
    Function,
    /// Any other kind, which gets no label.
    Other,
}

/// A symbol shown inside a line of Daml that gives it its usual
/// highlighting: a record as `data Name = A`, a constructor as
/// `data A = Name`, a value or function as `name : T`. Only the name is
/// matched; the `data` keyword of a record is shown with it.
pub open spec fn symbol_label_for(name: Seq<char>, kind: SymbolKind) -> Option<LabelModel> {
    let n = blen(name);
    match kind {
        SymbolKind::Struct => Some(
            LabelModel {
                code: "data "@ + name + " = A"@,
                parts: seq![PartModel::Code(0, blen("data "@) + n)],
                filter: (blen("data "@), blen("data "@) + n),
            },
        ),
        SymbolKind::Constructor => Some(
            LabelModel {
                code: "data A = "@ + name,
                parts: seq![PartModel::Code(blen("data A = "@), blen("data A = "@) + n)],
                filter: (0, n),
            },
        ),
        SymbolKind::Variable | SymbolKind::Function => Some(
            LabelModel { code: name + " : T"@, parts: seq![PartModel::Code(0, n)], filter: (0, n) },
        ),
        SymbolKind::Other => None,
    }
}

/// The label of a symbol with the given name and kind. The label's code must
/// fit in memory.
pub fn symbol_label(name: &str, kind: SymbolKind) -> (r: Option<Label>)
    requires
        blen(name@) + 9 <= usize::MAX,
    ensures
        match symbol_label_for(name@, kind) {
            Some(m) => r matches Some(l) && l@ == m,
            None => r is None,
        },
{
    proof {
        reveal_strlit("data ");
        reveal_strlit("data A = ");
        vstd::utf8::is_ascii_chars_encode_utf8("data "@);
        vstd::utf8::is_ascii_chars_encode_utf8("data A = "@);
    }
    let n = byte_len(name);
    let (code, display, filter) = match kind {
        SymbolKind::Struct => {
            let mut c = chars_of("data ");
            append_str(&mut c, name);
            append_str(&mut c, " = A");
            (c, Span { start: 0, end: 5 + n }, Span { start: 5, end: 5 + n })
        },
        SymbolKind::Constructor => {
            let mut c = chars_of("data A = ");
            append_str(&mut c, name);
            (c, Span { start: 9, end: 9 + n }, Span { start: 0, end: n })
        },
        SymbolKind::Variable | SymbolKind::Function => {
            let mut c = chars_of(name);
            append_str(&mut c, " : T");
            (c, Span { start: 0, end: n }, Span { start: 0, end: n })
        },
        SymbolKind::Other => {
            return None;
        },
    };
    let mut parts: Vec<LabelPart> = Vec::new();
    parts.push(LabelPart::Code(display));
    let r = Label { code: string_of(code.as_slice()), parts, filter };
    assert(r@.parts =~= symbol_label_for(name@, kind)->0.parts);
    Some(r)
}

// ---------------------------------------------------------------- the command

/// The program that runs the Daml SDK, looked for on the PATH.
pub const DPM_PROGRAM: &'static str = "dpm";

/// The bridge, looked for on the PATH when no path to it is configured.
pub const BRIDGE_PROGRAM: &'static str = "daml-ide-bridge";

/// The command a binary path in the user's settings gives: it always wins,
/// with the configured arguments or none. This is the escape hatch for the
/// legacy `daml` assistant and for SDKs older than 3.4, which the extension
/// does not detect on its own.
pub fn explicit_command(path: Option<String>, arguments: Option<Vec<String>>) -> (r: Option<ResolvedCommand>)
    ensures
        match path {
            Some(p) => r matches Some(c) && c.program@ == p@ && texts(c.args@) == (match arguments {
                Some(a) => texts(a@),
                None => Seq::empty(),
            }),
            None => r is None,
        },
{
    match path {
        Some(program) => {
            let args = match arguments {
                Some(a) => a,
                None => {
                    let none: Vec<String> = Vec::new();
                    assert(texts(none@) =~= Seq::<Seq<char>>::empty());
                    none
                },
            };
            Some(ResolvedCommand { program, args })
        },
        None => None,
    }
}

/// Whether the bridge has to be looked for on the PATH: script results are
/// on and no path to it is configured.
pub fn bridge_search_needed(settings: &ServerSettings) -> (r: bool)
    ensures
        r == (settings.script_results && settings.bridge_path is None),
{
    settings.script_results && settings.bridge_path.is_none()
}

/// The bridge to run the server behind, given what a search of the PATH
/// found. Zed cannot show script results itself, so they go through this
/// sidecar; its absence is not an error, everything else works without it.
pub fn find_bridge(settings: &ServerSettings, found_on_path: Option<String>) -> (r: Option<String>)
    ensures
        !settings.script_results ==> r is None,
        settings.script_results ==> match settings.bridge_path {
            Some(b) => r matches Some(x) && x@ == b@,
            None => match found_on_path {
                Some(f) => r matches Some(x) && x@ == f@,
                None => r is None,
            },
        },
{
    if !settings.script_results {
        return None;
    }
    match &settings.bridge_path {
        Some(b) => Some(b.clone()),
        None => found_on_path,
    }
}

} // verus!
