use daml_ide::json::{Json, JsonNumber};
use daml_ide::trace::{message, Part};
use serde_json::Value;

fn to_json(v: &Value) -> Json {
    match v {
        Value::Null => Json::Null,
        Value::Bool(b) => Json::Bool(*b),
        Value::Number(n) => {
            if let Some(u) = n.as_u64() {
                Json::Number(JsonNumber::PosInt(u))
            } else if let Some(i) = n.as_i64() {
                Json::Number(JsonNumber::NegInt(i))
            } else {
                Json::Number(JsonNumber::Float(n.to_string()))
            }
        }
        Value::String(s) => Json::String(s.clone()),
        Value::Array(items) => Json::Array(items.iter().map(to_json).collect()),
        Value::Object(m) => Json::Object(m.iter().map(|(k, v)| (k.clone(), to_json(v))).collect()),
    }
}

fn to_value(j: &Json) -> Value {
    match j {
        Json::Null => Value::Null,
        Json::Bool(b) => Value::Bool(*b),
        Json::Number(JsonNumber::PosInt(u)) => Value::from(*u),
        Json::Number(JsonNumber::NegInt(i)) => Value::from(*i),
        Json::Number(JsonNumber::Float(t)) => serde_json::from_str(t).unwrap_or(Value::Null),
        Json::String(s) => Value::String(s.clone()),
        Json::Array(items) => Value::Array(items.iter().map(to_value).collect()),
        Json::Object(members) => {
            let mut map = serde_json::Map::new();
            for (k, v) in members {
                if !map.contains_key(k) {
                    map.insert(k.clone(), to_value(v));
                }
            }
            Value::Object(map)
        }
    }
}

/// The line as the trace file gets it.
fn line(direction: &str, text: &str) -> String {
    let msg = to_json(&serde_json::from_str::<Value>(text).unwrap());
    message(direction, &msg)
        .iter()
        .map(|p| match p {
            Part::Text(t) => t.clone(),
            Part::Json(j) => to_value(j).to_string(),
        })
        .collect()
}

#[test]
fn requests_name_their_document() {
    assert_eq!(
        line(
            "editor->server",
            r#"{"id": 3, "method": "textDocument/codeAction", "params": {"textDocument": {"uri": "file:///a.daml"}}}"#
        ),
        r#"editor->server textDocument/codeAction id=3 uri="file:///a.daml""#
    );
}

#[test]
fn commands_are_named() {
    assert_eq!(
        line(
            "editor->server",
            r#"{"id": "x", "method": "workspace/executeCommand", "params": {"command": "daml.showResource"}}"#
        ),
        r#"editor->server workspace/executeCommand id="x" command="daml.showResource""#
    );
}

#[test]
fn responses_describe_their_shape() {
    assert_eq!(line("server->editor", r#"{"id": 1, "result": [1, 2, 3]}"#), "server->editor  id=1 result=[3 items]");
    assert_eq!(line("server->editor", r#"{"id": 1, "result": null}"#), "server->editor  id=1 result=null");
    assert_eq!(line("server->editor", r#"{"id": 1, "result": {"a": 1}}"#), "server->editor  id=1 result=object");
    assert_eq!(line("server->editor", r#"{"id": 1, "result": "text"}"#), "server->editor  id=1 result=object");
    assert_eq!(
        line("server->editor", r#"{"id": 1, "error": {"code": -1, "message": "boom"}}"#),
        r#"server->editor  id=1 error="boom""#
    );
    assert_eq!(line("server->editor", r#"{"id": 1, "error": {}}"#), "server->editor  id=1 error=null");
}

#[test]
fn notifications_have_no_id() {
    assert_eq!(
        line("server->editor", r#"{"method": "window/logMessage", "params": {"message": "hi"}}"#),
        "server->editor window/logMessage"
    );
    assert_eq!(
        line("editor->server", r#"{"method": "textDocument/didSave", "params": {}}"#),
        "editor->server textDocument/didSave uri=null"
    );
}
