use rama_syntax::learn::{analyze_tape, apply_fixes, parse_tape, Suggestion, TapeViolation};
use rama_syntax::parse::parse;
use rama_syntax::span::Span;

const SOURCE: &str = r#"module Demo

extern str = clojure.core/str(value: Long) -> Long

fn bad(value: Long) -> Long {
  return str(value)
}
"#;

#[test]
fn parses_tab_separated_tape() {
    let tape = "extern `str` return\tjava.lang.Long\tjava.lang.String\n";
    assert_eq!(
        parse_tape(tape),
        vec![TapeViolation {
            path: "extern `str` return".into(),
            expected: "java.lang.Long".into(),
            actual: "java.lang.String".into(),
        }]
    );
}

#[test]
fn dishonest_extern_return_gets_a_mechanical_fix() {
    let file = parse(SOURCE).expect("parse");
    let violations = parse_tape(
        "extern `str` return\tjava.lang.Long\tjava.lang.String\n\
         extern `str` return\tjava.lang.Long\tjava.lang.String\n",
    );
    let suggestions = analyze_tape(SOURCE, &file, &violations);
    assert_eq!(suggestions.len(), 1);
    assert!(suggestions[0].message.contains("fix the pin to `String`"));
    assert!(suggestions[0].message.contains("(2x)"));

    let (updated, applied) = apply_fixes(SOURCE, &suggestions);
    assert_eq!(applied, 1);
    assert!(
        updated.contains("extern str = clojure.core/str(value: Long) -> String"),
        "{updated}"
    );
    let (_, result) = rama_syntax::analyze(&updated).expect("reparse");
    assert!(result
        .diagnostics
        .iter()
        .any(|diagnostic| diagnostic.message.contains("return type")));
}

#[test]
fn inconsistent_actual_classes_do_not_autofix() {
    let file = parse(SOURCE).expect("parse");
    let violations = parse_tape(
        "extern `str` return\tjava.lang.Long\tjava.lang.String\n\
         extern `str` return\tjava.lang.Long\tjava.lang.Boolean\n",
    );
    let suggestions = analyze_tape(SOURCE, &file, &violations);
    assert!(suggestions
        .iter()
        .all(|suggestion| suggestion.fix.is_none()));
}

#[test]
fn argument_violations_report_without_autofix() {
    let file = parse(SOURCE).expect("parse");
    let violations = parse_tape("bad argument `value`\tjava.lang.Long\tjava.lang.String\n");
    let suggestions = analyze_tape(SOURCE, &file, &violations);
    assert_eq!(suggestions.len(), 1);
    assert!(suggestions[0].fix.is_none());
    assert!(suggestions[0]
        .message
        .contains("`bad` argument `value` declares `java.lang.Long`"));
}

#[test]
fn tape_lines_without_three_fields_are_skipped() {
    let violations = parse_tape("only\tone tab\n\na\tb\tc\td\r\nlast\tline\tno newline");
    assert_eq!(violations.len(), 2);
    assert_eq!(violations[0].actual, "c\td");
    assert_eq!(violations[1].path, "last");
    assert_eq!(violations[1].actual, "no newline");
}

#[test]
fn unknown_contract_paths_are_reported_plainly() {
    let file = parse(SOURCE).expect("parse");
    let violations = parse_tape("somewhere\tjava.lang.Long\tnil\n");
    let suggestions = analyze_tape(SOURCE, &file, &violations);
    assert_eq!(suggestions.len(), 1);
    assert_eq!(
        suggestions[0].message,
        "contract at `somewhere` expected `java.lang.Long` but saw `nil` (1x)"
    );
}

#[test]
fn undeclared_extern_is_reported() {
    let file = parse(SOURCE).expect("parse");
    let violations = parse_tape("extern `other` return\tjava.lang.Long\tjava.lang.String\n");
    let suggestions = analyze_tape(SOURCE, &file, &violations);
    assert!(suggestions[0].message.contains("not declared in this file"));
    assert!(suggestions[0].fix.is_none());
}

#[test]
fn apply_fixes_without_fixes_changes_nothing() {
    let (updated, applied) = apply_fixes("abc", &[].to_vec());
    assert_eq!(updated, "abc");
    assert_eq!(applied, 0);
}

#[test]
fn apply_fixes_replaces_each_span_once_from_the_end() {
    let suggestions = vec![
        Suggestion { message: "a".into(), fix: Some((Span::new(0, 1), "X".into())) },
        Suggestion { message: "b".into(), fix: Some((Span::new(2, 3), "YY".into())) },
        Suggestion { message: "c".into(), fix: Some((Span::new(2, 3), "ZZ".into())) },
        Suggestion { message: "d".into(), fix: Some((Span::new(10, 12), "W".into())) },
    ];
    let (updated, applied) = apply_fixes("abc", &suggestions);
    assert_eq!(updated, "XbYY");
    assert_eq!(applied, 2);
}
