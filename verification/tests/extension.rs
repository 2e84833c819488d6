use daml_ide::extension::{
    bridge_search_needed, completion_label, explicit_command, find_bridge, symbol_label, Label, LabelPart,
    Span, SymbolKind,
};
use daml_ide::server::ServerSettings;

fn code_range(part: &LabelPart) -> (usize, usize) {
    match part {
        LabelPart::Code(Span { start, end }) => (*start, *end),
        LabelPart::Literal(..) => panic!("expected a code range"),
    }
}

fn check(label: &Label, code: &str, ranges: &[(usize, usize)], filter: (usize, usize)) {
    assert_eq!(label.code, code);
    assert_eq!(label.filter, Span { start: filter.0, end: filter.1 });
    let got: Vec<(usize, usize)> = label
        .parts
        .iter()
        .filter(|p| matches!(p, LabelPart::Code(_)))
        .map(code_range)
        .collect();
    assert_eq!(got, ranges);
}

#[test]
fn completions_read_as_daml_annotations() {
    let label = completion_label("foo", Some(" Int -> Text ")).unwrap();
    check(&label, "foo : Int -> Text", &[(0, 3), (6, 17)], (0, 3));
    match &label.parts[1] {
        LabelPart::Literal(text, highlight) => {
            assert_eq!(text, " : ");
            assert_eq!(highlight.as_deref(), Some("operator"));
        }
        LabelPart::Code(_) => panic!("expected the separator"),
    }
}

#[test]
fn a_separator_in_the_detail_is_dropped() {
    assert_eq!(completion_label("x", Some(":: Party")).unwrap().code, "x : Party");
    assert_eq!(completion_label("x", Some(": Party")).unwrap().code, "x : Party");
    assert_eq!(completion_label("x", Some("::")).unwrap().code, "x : ");
}

#[test]
fn completions_without_detail_get_no_label() {
    assert!(completion_label("x", None).is_none());
    assert!(completion_label("x", Some("   ")).is_none());
}

#[test]
fn ranges_count_bytes() {
    let label = completion_label("é", Some("Ä")).unwrap();
    check(&label, "é : Ä", &[(0, 2), (5, 7)], (0, 2));
}

#[test]
fn symbols_are_shown_in_daml_syntax() {
    check(&symbol_label("Iou", SymbolKind::Struct).unwrap(), "data Iou = A", &[(0, 8)], (5, 8));
    check(&symbol_label("Iou", SymbolKind::Constructor).unwrap(), "data A = Iou", &[(9, 12)], (0, 3));
    check(&symbol_label("setup", SymbolKind::Function).unwrap(), "setup : T", &[(0, 5)], (0, 5));
    check(&symbol_label("x", SymbolKind::Variable).unwrap(), "x : T", &[(0, 1)], (0, 1));
    assert!(symbol_label("M", SymbolKind::Other).is_none());
}

#[test]
fn an_explicit_binary_wins() {
    let cmd = explicit_command(Some("/bin/daml".into()), Some(vec!["ide".into()])).unwrap();
    assert_eq!(cmd.program, "/bin/daml");
    assert_eq!(cmd.args, vec!["ide"]);
    let cmd = explicit_command(Some("/bin/daml".into()), None).unwrap();
    assert!(cmd.args.is_empty());
    assert!(explicit_command(None, Some(vec!["ide".into()])).is_none());
}

#[test]
fn the_bridge_is_looked_for_only_when_needed() {
    let on = ServerSettings::default();
    assert!(bridge_search_needed(&on));
    assert_eq!(find_bridge(&on, Some("/usr/bin/daml-ide-bridge".into())).as_deref(), Some("/usr/bin/daml-ide-bridge"));
    assert_eq!(find_bridge(&on, None), None);

    let configured = ServerSettings { bridge_path: Some("/opt/bridge".into()), ..Default::default() };
    assert!(!bridge_search_needed(&configured));
    assert_eq!(find_bridge(&configured, Some("/usr/bin/other".into())).as_deref(), Some("/opt/bridge"));

    let off = ServerSettings { script_results: false, bridge_path: Some("/opt/bridge".into()), ..Default::default() };
    assert!(!bridge_search_needed(&off));
    assert_eq!(find_bridge(&off, Some("/usr/bin/other".into())), None);
}
