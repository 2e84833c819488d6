use daml_ide::intercept::{Interceptor, Outbound};
use daml_ide::json::{Json, JsonNumber};
use serde_json::Value;

fn to_json(v: &Value) -> Json {
    match v {
        Value::Null => Json::Null,
        Value::Bool(b) => Json::Bool(*b),
        Value::Number(n) => {
            if let Some(u) = n.as_u64() {
                Json::Number(JsonNumber::PosInt(u))
            } else if let Some(i) = n.as_i64() {
                Json::Number(JsonNumber::NegInt(i))
            } else {
                Json::Number(JsonNumber::Float(n.to_string()))
            }
        }
        Value::String(s) => Json::String(s.clone()),
        Value::Array(items) => Json::Array(items.iter().map(to_json).collect()),
        Value::Object(m) => Json::Object(m.iter().map(|(k, v)| (k.clone(), to_json(v))).collect()),
    }
}

fn to_value(j: &Json) -> Value {
    match j {
        Json::Null => Value::Null,
        Json::Bool(b) => Value::Bool(*b),
        Json::Number(JsonNumber::PosInt(u)) => Value::from(*u),
        Json::Number(JsonNumber::NegInt(i)) => Value::from(*i),
        Json::Number(JsonNumber::Float(t)) => serde_json::from_str(t).unwrap_or(Value::Null),
        Json::String(s) => Value::String(s.clone()),
        Json::Array(items) => Value::Array(items.iter().map(to_value).collect()),
        Json::Object(members) => {
            let mut map = serde_json::Map::new();
            for (k, v) in members {
                if !map.contains_key(k) {
                    map.insert(k.clone(), to_value(v));
                }
            }
            Value::Object(map)
        }
    }
}

fn parse(text: &str) -> Json {
    to_json(&serde_json::from_str::<Value>(text).unwrap())
}

fn lens() -> &'static str {
    r#"{
        "range": {"start": {"line": 7, "character": 0},
                  "end": {"line": 7, "character": 5}},
        "command": {
            "command": "daml.showResource",
            "title": "Script results",
            "arguments": ["Script: setup", "daml://compiler?file=%2Fa.daml&top-level-decl=setup"]
        }
    }"#
}

fn from_server(i: &mut Interceptor, text: &str) -> Vec<Outbound> {
    let msg = parse(text);
    assert!(i.accepts_server_message(&msg));
    i.on_server_message(msg)
}

fn client_message(i: &mut Interceptor, text: &str) -> Vec<Outbound> {
    i.on_client_message(parse(text))
}

fn first_to_client(out: &[Outbound]) -> Value {
    match &out[0] {
        Outbound::ToClient(msg) => to_value(msg),
        _ => panic!("expected a message for the editor"),
    }
}

fn with_lens_for_a(i: &mut Interceptor) {
    client_message(
        i,
        r#"{"id": 2, "method": "textDocument/codeLens",
            "params": {"textDocument": {"uri": "file:///a.daml"}}}"#,
    );
    from_server(i, &format!(r#"{{"id": 2, "result": [{}]}}"#, lens()));
}

#[test]
fn advertises_the_show_resource_command() {
    let mut i = Interceptor::default();
    client_message(&mut i, r#"{"id": 1, "method": "initialize", "params": {}}"#);
    let out = from_server(
        &mut i,
        r#"{"id": 1,
            "result": {"capabilities": {"executeCommandProvider": {"commands": ["typesignature.add"]}}}}"#,
    );
    let msg = first_to_client(&out);
    let commands = msg["result"]["capabilities"]["executeCommandProvider"]["commands"]
        .as_array()
        .unwrap();
    assert!(commands.iter().any(|c| c == "daml.showResource"));
    assert!(commands.iter().any(|c| c == "typesignature.add"));
}

#[test]
fn adds_the_command_when_the_server_advertises_none() {
    let mut i = Interceptor::default();
    client_message(&mut i, r#"{"id": 1, "method": "initialize", "params": {}}"#);
    let out = from_server(&mut i, r#"{"id": 1, "result": {"capabilities": {}}}"#);
    let msg = first_to_client(&out);
    assert_eq!(
        msg["result"]["capabilities"]["executeCommandProvider"]["commands"][0],
        "daml.showResource"
    );
}

#[test]
fn remembers_lenses_and_turns_them_into_code_actions() {
    let mut i = Interceptor::default();
    with_lens_for_a(&mut i);
    client_message(
        &mut i,
        r#"{"id": 3, "method": "textDocument/codeAction",
            "params": {"textDocument": {"uri": "file:///a.daml"},
                       "range": {"start": {"line": 7, "character": 0},
                                 "end": {"line": 7, "character": 0}}}}"#,
    );
    let out = from_server(&mut i, r#"{"id": 3, "result": []}"#);
    let msg = first_to_client(&out);
    let action = &msg["result"][0];
    assert_eq!(action["title"], "Show script results: Script: setup");
    assert_eq!(action["command"]["command"], "daml.showResource");
}

#[test]
fn does_not_offer_an_action_for_another_line() {
    let mut i = Interceptor::default();
    with_lens_for_a(&mut i);
    client_message(
        &mut i,
        r#"{"id": 3, "method": "textDocument/codeAction",
            "params": {"textDocument": {"uri": "file:///a.daml"},
                       "range": {"start": {"line": 40, "character": 0},
                                 "end": {"line": 40, "character": 0}}}}"#,
    );
    let out = from_server(&mut i, r#"{"id": 3, "result": []}"#);
    let msg = first_to_client(&out);
    assert_eq!(msg["result"].as_array().unwrap().len(), 0);
}

#[test]
fn keeps_the_actions_the_server_already_returned() {
    let mut i = Interceptor::default();
    with_lens_for_a(&mut i);
    client_message(
        &mut i,
        r#"{"id": 3, "method": "textDocument/codeAction",
            "params": {"textDocument": {"uri": "file:///a.daml"},
                       "range": {"start": {"line": 7, "character": 0},
                                 "end": {"line": 7, "character": 0}}}}"#,
    );
    let out = from_server(&mut i, r#"{"id": 3, "result": [{"title": "Add type signature"}]}"#);
    let msg = first_to_client(&out);
    assert_eq!(msg["result"][0]["title"], "Add type signature");
    assert_eq!(msg["result"].as_array().unwrap().len(), 2);
}

#[test]
fn handles_show_resource_without_forwarding_it() {
    let mut i = Interceptor::default();
    let out = client_message(
        &mut i,
        r#"{"id": 9, "method": "workspace/executeCommand",
            "params": {"command": "daml.showResource",
                       "arguments": ["Script: setup", "daml://compiler?x=1"]}}"#,
    );
    assert!(matches!(out[0], Outbound::Show { .. }));
    // The editor still needs a response, and the server must not see it.
    assert!(out.iter().any(|o| matches!(o, Outbound::ToClient(_))));
    assert!(!out.iter().any(|o| matches!(o, Outbound::ToServer(_))));
}

#[test]
fn forwards_other_commands_to_the_server() {
    let mut i = Interceptor::default();
    let out = client_message(
        &mut i,
        r#"{"id": 9, "method": "workspace/executeCommand",
            "params": {"command": "typesignature.add", "arguments": []}}"#,
    );
    assert!(matches!(out[0], Outbound::ToServer(_)));
}

#[test]
fn absorbs_virtual_resource_notifications() {
    let mut i = Interceptor::default();
    let out = from_server(
        &mut i,
        r#"{"method": "daml/virtualResource/didChange",
            "params": {"uri": "daml://compiler?x=1", "contents": "<html></html>"}}"#,
    );
    match &out[0] {
        Outbound::ResourceChanged { uri, contents } => {
            assert_eq!(uri, "daml://compiler?x=1");
            assert_eq!(contents, "<html></html>");
        }
        _ => panic!("expected a render"),
    }
    assert!(!out.iter().any(|o| matches!(o, Outbound::ToClient(_))));
}

#[test]
fn absorbs_progress_notifications() {
    let mut i = Interceptor::default();
    let out = from_server(
        &mut i,
        r#"{"method": "daml/virtualResource/didProgress",
            "params": {"uri": "daml://compiler?x=1"}}"#,
    );
    assert!(matches!(out[0], Outbound::ResourceProgress { .. }));
}

#[test]
fn passes_everything_else_through_untouched() {
    let mut i = Interceptor::default();
    let diag = r#"{"method": "textDocument/publishDiagnostics", "params": {"uri": "file:///a"}}"#;
    let out = from_server(&mut i, diag);
    let msg = first_to_client(&out);
    assert_eq!(msg, serde_json::from_str::<Value>(diag).unwrap());

    let hover = r#"{"id": 5, "method": "textDocument/hover", "params": {}}"#;
    let out = client_message(&mut i, hover);
    let Outbound::ToServer(msg) = &out[0] else {
        panic!("expected a message for the server")
    };
    assert_eq!(to_value(msg), serde_json::from_str::<Value>(hover).unwrap());
}

#[test]
fn a_string_request_id_is_matched_too() {
    let mut i = Interceptor::default();
    client_message(&mut i, r#"{"id": "abc", "method": "initialize", "params": {}}"#);
    let out = from_server(&mut i, r#"{"id": "abc", "result": {"capabilities": {}}}"#);
    let msg = first_to_client(&out);
    assert_eq!(
        msg["result"]["capabilities"]["executeCommandProvider"]["commands"][0],
        "daml.showResource"
    );
}

#[test]
fn a_show_request_is_answered_with_null() {
    let mut i = Interceptor::default();
    let out = client_message(
        &mut i,
        r#"{"id": 9, "method": "workspace/executeCommand",
            "params": {"command": "daml.showResource",
                       "arguments": ["Script: setup", "daml://compiler?x=1"]}}"#,
    );
    match &out[0] {
        Outbound::Show { title, uri } => {
            assert_eq!(title, "Script: setup");
            assert_eq!(uri, "daml://compiler?x=1");
        }
        _ => panic!("expected a show"),
    }
    let reply = out
        .iter()
        .find_map(|o| match o {
            Outbound::ToClient(m) => Some(to_value(m)),
            _ => None,
        })
        .unwrap();
    assert_eq!(reply["id"], 9);
    assert_eq!(reply["result"], Value::Null);
    assert_eq!(reply["jsonrpc"], "2.0");
}

#[test]
fn an_unmatched_response_passes_through() {
    let mut i = Interceptor::default();
    let text = r#"{"id": 77, "result": {"capabilities": {}}}"#;
    let out = from_server(&mut i, text);
    assert_eq!(first_to_client(&out), serde_json::from_str::<Value>(text).unwrap());
}

#[test]
fn a_code_action_request_goes_to_the_server_unchanged() {
    let mut i = Interceptor::default();
    let text = r#"{"id": 3, "method": "textDocument/codeAction",
            "params": {"textDocument": {"uri": "file:///b.daml"},
                       "range": {"start": {"line": 1, "character": 0},
                                 "end": {"line": 1, "character": 0}}}}"#;
    let out = client_message(&mut i, text);
    assert_eq!(out.len(), 1);
    let Outbound::ToServer(msg) = &out[0] else {
        panic!("expected a message for the server")
    };
    assert_eq!(to_value(msg), serde_json::from_str::<Value>(text).unwrap());
}
