//! One line per message for the optional trace file.
//!
//! An editor captures the bridge's stderr into a log only the editor can show,
//! which makes diagnosing "nothing happened" needlessly hard. Pointing `--log`
//! (or `DAML_IDE_BRIDGE_LOG`) at a file gives a record anyone can read. A line
//! says enough to follow the conversation without dumping kilobytes of
//! rendered HTML into the log.

use vstd::prelude::*;
use crate::json::{as_text, at, field, member, opt_as_array, opt_as_str, opt_copy, Json, JsonModel};
use crate::text::{append_chars, append_str, chars_of, decimal, decimal_exec, str_eq, string_of};

verus! {

/// A piece of a trace line: text as it is, or a value written as JSON.
pub enum Part {
    Text(String),
    Json(Json),
}

/// The model of a piece.
pub enum PartModel {
    Text(Seq<char>),
    Json(JsonModel),
}

impl View for Part {
    type V = PartModel;

    open spec fn view(&self) -> PartModel {
        match self {
            Part::Text(t) => PartModel::Text(t@),
            Part::Json(j) => PartModel::Json(j@),
        }
    }
}

/// The models of a line's pieces.
pub open spec fn parts_model(v: Seq<Part>) -> Seq<PartModel> {
    v.map_values(|p: Part| p@)
}

/// The methods whose line names the document.
pub open spec fn names_document(method: Seq<char>) -> bool {
    method == "textDocument/codeAction"@ || method == "textDocument/codeLens"@
        || method == "textDocument/didOpen"@ || method == "textDocument/didSave"@
}

/// The method of a message, or nothing for a response.
pub open spec fn method_name(msg: JsonModel) -> Seq<char> {
    match as_text(field(msg, "method"@)) {
        Some(m) => m,
        None => Seq::empty(),
    }
}

/// What follows the method: for a response, something about its shape (the
/// method is only known to the interceptor); the document or the command
/// for the requests that have one.
pub open spec fn detail(msg: JsonModel) -> Seq<PartModel> {
    let method = method_name(msg);
    if method.len() == 0 {
        let result = field(msg, "result"@);
        match result {
            JsonModel::Array(items) => seq![PartModel::Text(" result=["@ + decimal(items.len()) + " items]"@)],
            JsonModel::Null => if member(msg, "error"@) is Some {
                seq![PartModel::Text(" error="@), PartModel::Json(field(field(msg, "error"@), "message"@))]
            } else {
                seq![PartModel::Text(" result=null"@)]
            },
            _ => seq![PartModel::Text(" result=object"@)],
        }
    } else if names_document(method) {
        seq![PartModel::Text(" uri="@), PartModel::Json(field(field(field(msg, "params"@), "textDocument"@), "uri"@))]
    } else if method == "workspace/executeCommand"@ {
        seq![PartModel::Text(" command="@), PartModel::Json(field(field(msg, "params"@), "command"@))]
    } else {
        Seq::empty()
    }
}

/// The trace line for a message crossing in `direction`: the direction, the
/// method, the id when there is one, and the detail.
pub open spec fn message_line_for(direction: Seq<char>, msg: JsonModel) -> Seq<PartModel> {
    let id = field(msg, "id"@);
    seq![PartModel::Text(direction + " "@ + method_name(msg))] + (if id is Null {
        Seq::empty()
    } else {
        seq![PartModel::Text(" id="@), PartModel::Json(id)]
    }) + detail(msg)
}

fn text(s: &str) -> (r: Part)
    ensures
        r@ == PartModel::Text(s@),
{
    Part::Text(s.to_owned())
}

fn detail_exec(msg: &Json, method: &String) -> (r: Vec<Part>)
    requires
        method@ == method_name(msg@),
    ensures
        parts_model(r@) == detail(msg@),
{
    let m = Some(msg);
    let mut out: Vec<Part> = Vec::new();
    if method.as_str().is_empty() {
        let result = at(m, "result");
        match opt_as_array(result) {
            Some(items) => {
                let mut v = chars_of(" result=[");
                let n = decimal_exec(items.len() as u64);
                append_chars(&mut v, n.as_slice());
                append_str(&mut v, " items]");
                proof {
                    crate::json::lemma_items_model(items@);
                }
                out.push(Part::Text(string_of(v.as_slice())));
            },
            None => {
                let is_null = match result {
                    Some(Json::Null) => true,
                    None => true,
                    _ => false,
                };
                if is_null {
                    if msg.get("error").is_some() {
                        out.push(text(" error="));
                        out.push(Part::Json(opt_copy(at(at(m, "error"), "message"))));
                    } else {
                        out.push(text(" result=null"));
                    }
                } else {
                    out.push(text(" result=object"));
                }
            },
        }
    } else if str_eq(method.as_str(), "textDocument/codeAction") || str_eq(method.as_str(), "textDocument/codeLens")
        || str_eq(method.as_str(), "textDocument/didOpen") || str_eq(method.as_str(), "textDocument/didSave")
    {
        out.push(text(" uri="));
        out.push(Part::Json(opt_copy(at(at(at(m, "params"), "textDocument"), "uri"))));
    } else if str_eq(method.as_str(), "workspace/executeCommand") {
        out.push(text(" command="));
        out.push(Part::Json(opt_copy(at(at(m, "params"), "command"))));
    }
    assert(parts_model(out@) =~= detail(msg@));
    out
}

/// The trace line for a message crossing in `direction`, in pieces.
pub fn message(direction: &str, msg: &Json) -> (r: Vec<Part>)
    ensures
        parts_model(r@) == message_line_for(direction@, msg@),
{
    let m = Some(msg);
    let method = match opt_as_str(at(m, "method")) {
        Some(s) => s.clone(),
        None => String::new(),
    };
    let mut head = chars_of(direction);
    append_str(&mut head, " ");
    append_str(&mut head, method.as_str());
    let mut out: Vec<Part> = Vec::new();
    out.push(Part::Text(string_of(head.as_slice())));
    let id = at(m, "id");
    let id_is_null = match id {
        Some(Json::Null) => true,
        None => true,
        _ => false,
    };
    if !id_is_null {
        out.push(text(" id="));
        out.push(Part::Json(opt_copy(id)));
    }
    let ghost before = parts_model(out@);
    let rest = detail_exec(msg, &method);
    let mut rest = rest;
    out.append(&mut rest);
    assert(parts_model(out@) =~= before + detail(msg@));
    assert(parts_model(out@) =~= message_line_for(direction@, msg@));
    out
}

} // verus!
