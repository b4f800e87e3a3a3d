use rama_syntax::ast::Item;
use rama_syntax::{analyze, lex, parse, transpile_source, TokenKind};

#[test]
fn static_callback_mismatch_points_to_map_call() {
    let source = r#"
module BrokenHigher
fn string-size(value: String) -> Long { return count(value) }
fn bad(values: java.util.List<Long>) -> clojure.lang.LazySeq<Long> {
  return map(string-size, values)
}
"#;
    let (_, result) = analyze(source).expect("parse");
    let diagnostic = result
        .diagnostics
        .iter()
        .find(|diagnostic| diagnostic.message.contains("no `map` signature"))
        .expect("map mismatch");
    assert_eq!(diagnostic.span.slice(source), "map");
}

#[test]
fn reports_precise_return_mismatch() {
    let source = r#"
module Broken
fn nope(value: Long) -> String {
  return value
}
"#;
    let (_, result) = analyze(source).expect("parse");
    let diagnostic = result
        .diagnostics
        .iter()
        .find(|diagnostic| diagnostic.message.contains("return type"))
        .expect("return mismatch");
    assert!(diagnostic.message.contains("java.lang.Long"));
    assert!(diagnostic.message.contains("java.lang.String"));
    assert_eq!(diagnostic.span.slice(source).trim(), "return value");
}

#[test]
fn parses_explicit_qualified_extern_target() {
    let source = r#"
module Qualified
extern vec = clojure.core/vec(value: Unknown) -> Unknown
"#;
    let file = parse(source).expect("parse");
    let Item::Extern(extern_decl) = &file.items[1] else {
        panic!("expected extern");
    };
    assert_eq!(
        extern_decl
            .target
            .as_ref()
            .map(|target| target.node.as_str()),
        Some("clojure.core/vec")
    );
}

#[test]
fn transpile_dispatches_on_sexp_mode() {
    let out = transpile_source("(def x 1)\n").expect("sexp");
    assert!(out.contains("(def x 1)"), "{out}");
    let out = transpile_source("module M\nfn f(x) { return x }\n").expect("surface");
    assert!(out.contains("(defn f"), "{out}");
    let err = transpile_source("module M\nfn bad(x: Long) -> String { return x }\n").unwrap_err();
    assert!(err.diagnostics.iter().any(|d| d.message.contains("return type")));
}

#[test]
fn lexer_accounts_for_every_character() {
    let source = "// note\n( x /* c */ )";
    let tokens = lex(source).expect("lex");
    assert_eq!(tokens.len(), 3);
    assert_eq!(tokens[0].0, TokenKind::LParen);
    assert_eq!(tokens[1].0, TokenKind::Ident("x".to_string()));
    assert_eq!(tokens[2].0, TokenKind::RParen);
    assert_eq!(tokens[1].1.slice(source), "x");
    assert!(lex("#").is_err());
}

#[test]
fn field_types_parse_from_names() {
    let file = parse("module M\nfn f(x: Long?, g: Fn<(String) -> Long>) -> Long { return x }\n").expect("parse");
    assert_eq!(file.items.len(), 2);
    assert!(parse("module M\nfn f(x: 5) -> Long { return x }\n").is_err());
}

#[test]
fn sexp_reader_expands_dispatch_and_quote() {
    let out = transpile_source("(def s #{1 2}) ; trailing\n(def q 'x)\n").expect("sexp");
    assert!(out.contains("(hash-set 1 2)"), "{out}");
    assert!(out.contains("(quote x)"), "{out}");
    let out = transpile_source("(def r #\"a+\")\n").expect("regex");
    assert!(out.contains("(re-pattern \"a+\")"), "{out}");
    let err = transpile_source("(def x [1 2)\n").unwrap_err();
    assert!(err.diagnostics[0].message.contains("expected form"));
    let err = transpile_source("(def m {:a})\n").unwrap_err();
    assert!(err.diagnostics[0].message.contains("map entry missing value"));
}

#[test]
fn bare_type_names_parse_as_named_types() {
    let file = parse("module M\nfn f(x: Long, y: java.util.List<Long>) { return x }\n").expect("parse");
    let func = file
        .items
        .iter()
        .find_map(|item| match item {
            Item::Fn(f) => Some(f),
            _ => None,
        })
        .expect("fn");
    match &func.params[0].ty.as_ref().expect("annotated").node {
        rama_syntax::ast::ValueTypeExpr::Named { path, args } => {
            assert_eq!(path, "Long");
            assert!(args.is_empty());
        }
        other => panic!("unexpected {other:?}"),
    }
    match &func.params[1].ty.as_ref().expect("annotated").node {
        rama_syntax::ast::ValueTypeExpr::Named { path, args } => {
            assert_eq!(path, "java.util.List");
            assert_eq!(args.len(), 1);
        }
        other => panic!("unexpected {other:?}"),
    }
}
