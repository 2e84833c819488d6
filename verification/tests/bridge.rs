use daml_ide::bridge::{dispatch, launcher, parse_args, start_line, Effect, Session, USAGE};
use daml_ide::intercept::Outbound;
use daml_ide::json::{Json, JsonNumber};
use daml_ide::resources::Registry;
use serde_json::Value;

fn to_value(j: &Json) -> Value {
    match j {
        Json::Null => Value::Null,
        Json::Bool(b) => Value::Bool(*b),
        Json::Number(JsonNumber::PosInt(u)) => Value::from(*u),
        Json::Number(JsonNumber::NegInt(i)) => Value::from(*i),
        Json::Number(JsonNumber::Float(t)) => serde_json::from_str(t).unwrap_or(Value::Null),
        Json::String(s) => Value::String(s.clone()),
        Json::Array(items) => Value::Array(items.iter().map(to_value).collect()),
        Json::Object(members) => {
            let mut map = serde_json::Map::new();
            for (k, v) in members {
                if !map.contains_key(k) {
                    map.insert(k.clone(), to_value(v));
                }
            }
            Value::Object(map)
        }
    }
}

fn args(words: &[&str]) -> Vec<String> {
    words.iter().map(|w| w.to_string()).collect()
}

#[test]
fn the_server_command_follows_the_separator() {
    let inv = parse_args(args(&["--no-open", "--log", "/tmp/t.log", "--", "dpm", "damlc", "multi-ide"]), None).unwrap();
    assert!(!inv.auto_open);
    assert_eq!(inv.log_path.as_deref(), Some("/tmp/t.log"));
    assert_eq!(inv.server_command, args(&["dpm", "damlc", "multi-ide"]));
}

#[test]
fn without_a_separator_everything_left_is_the_command() {
    let inv = parse_args(args(&["dpm", "damlc"]), None).unwrap();
    assert!(inv.auto_open);
    assert_eq!(inv.log_path, None);
    assert_eq!(inv.server_command, args(&["dpm", "damlc"]));
}

#[test]
fn the_environment_names_the_trace_when_the_flag_does_not() {
    let inv = parse_args(args(&["--", "dpm"]), Some("/tmp/env.log".into())).unwrap();
    assert_eq!(inv.log_path.as_deref(), Some("/tmp/env.log"));
    let inv = parse_args(args(&["--log", "/tmp/flag.log", "--", "dpm"]), Some("/tmp/env.log".into())).unwrap();
    assert_eq!(inv.log_path.as_deref(), Some("/tmp/flag.log"));
}

#[test]
fn a_trailing_log_flag_is_dropped() {
    let inv = parse_args(args(&["dpm", "--log"]), Some("/tmp/env.log".into())).unwrap();
    assert_eq!(inv.log_path.as_deref(), Some("/tmp/env.log"));
    assert_eq!(inv.server_command, args(&["dpm"]));
}

#[test]
fn no_command_is_a_usage_error() {
    assert!(parse_args(args(&[]), None).is_none());
    assert!(parse_args(args(&["--no-open", "--"]), None).is_none());
    assert!(parse_args(args(&["--log", "x"]), None).is_none());
    assert!(USAGE.starts_with("usage: daml-ide-bridge"));
}

#[test]
fn the_start_line_joins_the_command() {
    assert_eq!(start_line(&args(&["dpm", "damlc", "multi-ide"])), "start: dpm damlc multi-ide");
    assert_eq!(start_line(&args(&[])), "start: ");
}

#[test]
fn a_session_knows_its_addresses() {
    let s = Session::new(8123, "tok".into(), true);
    assert_eq!(s.base, "http://127.0.0.1:8123");
    assert_eq!(s.listing_url(), "http://127.0.0.1:8123/?token=tok");
    assert_eq!(s.result_url("abc"), "http://127.0.0.1:8123/r/abc?token=tok");
}

#[test]
fn the_browser_is_opened_the_platform_way() {
    assert_eq!(launcher("macos", "http://x"), ("open".to_string(), args(&["http://x"])));
    assert_eq!(launcher("windows", "http://x"), ("cmd".to_string(), args(&["/c", "start", "", "http://x"])));
    assert_eq!(launcher("linux", "http://x"), ("xdg-open".to_string(), args(&["http://x"])));
}

#[test]
fn showing_a_result_opens_it_once() {
    let mut reg = Registry::default();
    let session = Session::new(1, "tok".into(), true);
    let show = || Outbound::Show { title: "Script: setup".into(), uri: "daml://x".into() };
    let effects = dispatch(vec![show()], &mut reg, &session);
    let id = daml_ide::ids::resource_id("daml://x");
    let url = format!("http://127.0.0.1:1/r/{id}?token=tok");
    assert_eq!(effects.len(), 4);
    assert!(matches!(&effects[0], Effect::Trace(t) if t == "show: Script: setup daml://x"));
    match &effects[1] {
        Effect::ToServer(msg) => {
            let v = to_value(msg);
            assert_eq!(v["method"], "textDocument/didOpen");
            assert_eq!(v["jsonrpc"], "2.0");
            assert_eq!(v["params"]["textDocument"]["uri"], "daml://x");
            assert_eq!(v["params"]["textDocument"]["languageId"], "daml");
            assert_eq!(v["params"]["textDocument"]["version"], 0);
            assert_eq!(v["params"]["textDocument"]["text"], "");
        }
        _ => panic!("expected the server to be asked to open the resource"),
    }
    assert!(matches!(&effects[2], Effect::Announce(t) if *t == format!("daml-ide-bridge: Script: setup -> {url}")));
    assert!(matches!(&effects[3], Effect::OpenBrowser(u) if *u == url));
    assert!(reg.is_known("daml://x"));

    let again = dispatch(vec![show()], &mut reg, &session);
    assert_eq!(again.len(), 2);
    assert!(!again.iter().any(|e| matches!(e, Effect::ToServer(_) | Effect::OpenBrowser(_))));
}

#[test]
fn without_auto_open_the_browser_is_left_alone() {
    let mut reg = Registry::default();
    let session = Session::new(1, "tok".into(), false);
    let effects = dispatch(
        vec![Outbound::Show { title: "t".into(), uri: "daml://x".into() }],
        &mut reg,
        &session,
    );
    assert!(!effects.iter().any(|e| matches!(e, Effect::OpenBrowser(_))));
    assert!(effects.iter().any(|e| matches!(e, Effect::ToServer(_))));
}

#[test]
fn renders_and_progress_reach_the_registry() {
    let mut reg = Registry::default();
    let session = Session::new(1, "tok".into(), false);
    let id = reg.register("t", "daml://x");
    let effects = dispatch(
        vec![Outbound::ResourceChanged { uri: "daml://x".into(), contents: "<p>é</p>".into() }],
        &mut reg,
        &session,
    );
    assert!(matches!(&effects[0], Effect::Trace(t) if t == "rendered: 9 bytes for daml://x"));
    assert_eq!(reg.get(&id).unwrap().html.as_deref(), Some("<p>é</p>"));
    assert!(!reg.get(&id).unwrap().running);
    let effects = dispatch(vec![Outbound::ResourceProgress { uri: "daml://x".into() }], &mut reg, &session);
    assert!(effects.is_empty());
    assert!(reg.get(&id).unwrap().running);
}

#[test]
fn messages_are_passed_on_in_order() {
    let mut reg = Registry::default();
    let session = Session::new(1, "tok".into(), false);
    let effects = dispatch(
        vec![
            Outbound::ToServer(Json::Number(JsonNumber::PosInt(1))),
            Outbound::ToClient(Json::Number(JsonNumber::PosInt(2))),
        ],
        &mut reg,
        &session,
    );
    assert_eq!(effects.len(), 3);
    assert!(matches!(&effects[0], Effect::ToServer(Json::Number(JsonNumber::PosInt(1)))));
    assert!(matches!(&effects[1], Effect::TraceMessage(d, Json::Number(JsonNumber::PosInt(2))) if d == "bridge->editor"));
    assert!(matches!(&effects[2], Effect::ToClient(Json::Number(JsonNumber::PosInt(2)))));
}
