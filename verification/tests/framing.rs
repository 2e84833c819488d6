use daml_ide::framing::{header, Headers};
use serde_json::Value;
use std::io::{BufRead, Read};

/// Reads one message the way the bridge does: header lines until the blank
/// one, then the body the headers announced.
fn read_message(input: &mut impl BufRead) -> Option<Value> {
    let mut headers = Headers::new();
    loop {
        let mut line = String::new();
        if input.read_line(&mut line).unwrap() == 0 {
            return None;
        }
        if headers.take_line(&line) {
            break;
        }
    }
    let len = headers.content_length().expect("a Content-Length");
    let mut body = vec![0u8; len];
    input.read_exact(&mut body).unwrap();
    Some(serde_json::from_slice(&body).unwrap())
}

fn write_message(out: &mut Vec<u8>, message: &Value) {
    let body = serde_json::to_vec(message).unwrap();
    out.extend_from_slice(header(body.len()).as_bytes());
    out.extend_from_slice(&body);
}

#[test]
fn reads_one_message() {
    let mut input = &b"Content-Length: 17\r\n\r\n{\"jsonrpc\":\"2.0\"}"[..];
    let msg = read_message(&mut input).unwrap();
    assert_eq!(msg["jsonrpc"], "2.0");
}

#[test]
fn reads_two_messages_back_to_back() {
    let mut input = &b"Content-Length: 7\r\n\r\n{\"a\":1}Content-Length: 7\r\n\r\n{\"b\":2}"[..];
    assert_eq!(read_message(&mut input).unwrap()["a"], 1);
    assert_eq!(read_message(&mut input).unwrap()["b"], 2);
    assert!(read_message(&mut input).is_none());
}

#[test]
fn ignores_unknown_headers() {
    let mut input = &b"Content-Type: application/json\r\nContent-Length: 7\r\n\r\n{\"a\":1}"[..];
    assert_eq!(read_message(&mut input).unwrap()["a"], 1);
}

#[test]
fn round_trips() {
    let mut buf = Vec::new();
    let message: Value = serde_json::from_str(r#"{"a": 1}"#).unwrap();
    write_message(&mut buf, &message);
    assert_eq!(read_message(&mut &buf[..]).unwrap()["a"], 1);
}

#[test]
fn the_header_names_the_length() {
    assert_eq!(header(0), "Content-Length: 0\r\n\r\n");
    assert_eq!(header(1234), "Content-Length: 1234\r\n\r\n");
}

#[test]
fn header_lines_are_read_leniently() {
    let mut h = Headers::new();
    assert!(!h.take_line("Content-Length:   42  \r\n"));
    assert_eq!(h.content_length(), Some(42));
    assert!(!h.take_line("Content-Length: +7\n"));
    assert_eq!(h.content_length(), Some(7));
    assert!(!h.take_line("X-Other: 1\r\n"));
    assert_eq!(h.content_length(), Some(7));
    assert!(h.take_line("\r\n"));
    assert!(Headers::new().take_line("\n"));
    assert!(Headers::new().take_line(""));
}

#[test]
fn an_unreadable_length_leaves_none() {
    let mut h = Headers::new();
    assert!(!h.take_line("Content-Length: 7\r\n"));
    assert!(!h.take_line("Content-Length: seven\r\n"));
    assert_eq!(h.content_length(), None);
    let mut h = Headers::new();
    assert!(!h.take_line("Content-Length: 99999999999999999999999\r\n"));
    assert_eq!(h.content_length(), None);
    let mut h = Headers::new();
    assert!(!h.take_line("Content-Length: -1\r\n"));
    assert_eq!(h.content_length(), None);
    let mut h = Headers::new();
    assert!(!h.take_line("content-length: 3\r\n"));
    assert_eq!(h.content_length(), None);
}
