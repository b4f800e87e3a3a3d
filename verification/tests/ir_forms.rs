use rama_syntax::ast::Item;
use rama_syntax::clj::{self, render, Document, Form};
use rama_syntax::clj_verify::verify;
use rama_syntax::lex::{lex, TokenKind};
use rama_syntax::lower::lower_fn_body;
use rama_syntax::parse::parse;
use rama_syntax::sexp::{looks_like_sexp, parse_document};

#[test]
fn renders_let_cond_shape() {
    let form = clj::call(
        "let",
        vec![clj::vector(vec![clj::sym("y"), clj::call("inc", vec![clj::sym("x")])]), clj::sym("y")],
    );
    let s = render(&form);
    assert!(s.contains("let"), "{s}");
    assert!(s.contains("inc"), "{s}");
}

#[test]
fn rejects_bare_else_marker() {
    let mut doc = Document::new();
    doc.push(clj::call(
        "deframaop",
        vec![
            clj::sym("x>"),
            clj::vector(vec![]),
            Form::List(vec![clj::sym("<<if"), clj::bool(true), clj::sym("else>"), clj::nil()]),
        ],
    ));
    assert_eq!(verify(&doc)[0].invariant, "clj/else-marker-is-form");
}

#[test]
fn rejects_pstate_not_passed_to_ramaop() {
    let mut doc = Document::new();
    doc.push(clj::call(
        "deframaop",
        vec![
            clj::sym("x>"),
            clj::vector(vec![clj::sym("*event")]),
            clj::call(
                "local-select>",
                vec![clj::call("keypath", vec![clj::sym("*id")]), clj::sym("$$p")],
            ),
        ],
    ));
    assert!(verify(&doc)
        .iter()
        .any(|issue| issue.invariant == "clj/deframaop-pstate-parameter"));
}

#[test]
fn rejects_control_macro_in_dataflow() {
    let mut doc = Document::new();
    doc.push(clj::call(
        "deframaop",
        vec![
            clj::sym("x>"),
            clj::vector(vec![]),
            clj::call(
                "identity",
                vec![
                    clj::call("if", vec![clj::bool(true), clj::integer(1), clj::integer(0)]),
                    clj::sym(":>"),
                    clj::sym("*x"),
                ],
            ),
        ],
    ));
    assert!(verify(&doc)
        .iter()
        .any(|issue| issue.invariant == "clj/no-clojure-control-in-dataflow"));
}

#[test]
fn lexes_v2_surface() {
    let tokens = lex(r#"pstate $$matches: Map<String, Match>
               $$mapBans --> keypath(matchId) > { turn }
               fail "x" if turn == nil
               |hash homeTeamId"#)
    .unwrap();
    assert!(tokens.iter().any(|(t, _)| matches!(t, TokenKind::MapKw)));
    assert!(tokens.iter().any(|(t, _)| matches!(t, TokenKind::ArrowSelect)));
    assert!(tokens.iter().any(|(t, _)| matches!(t, TokenKind::Fail)));
    assert!(tokens.iter().any(|(t, _)| matches!(t, TokenKind::EqEq)));
    assert!(tokens.iter().any(|(t, _)| matches!(t, TokenKind::Pipe(p) if p == "hash")));
}

#[test]
fn lowers_ban_error_style_to_cond() {
    let src = r#"
module M
fn ban-error(turn, home, away, teamId, remaining, arenaId) {
  if (turn == nil) { return "no-ban-state" }
  if (teamId != (even?(turn) ? away : home)) { return "not-your-turn" }
  if (not(contains?(remaining, arenaId))) { return "arena-not-in-pool" }
  return nil
}
"#;
    let file = parse(src).expect("parse");
    let Item::Fn(func) = &file.items[1] else {
        panic!("expected fn");
    };
    let out = render(&lower_fn_body(&func.body));
    assert!(out.contains("cond"), "got: {out}");
    assert!(out.contains("no-ban-state"), "got: {out}");
    assert!(out.contains(":else"), "got: {out}");
    assert!(!out.contains("return"), "got: {out}");
    assert!(!out.contains("ack-return"), "got: {out}");
}

#[test]
fn lowers_let_to_clojure_let() {
    let src = r#"
module M
fn add1(x) {
  let y = inc(x)
  return y
}
"#;
    let file = parse(src).expect("parse");
    let Item::Fn(func) = &file.items[1] else {
        panic!("expected fn");
    };
    let form = lower_fn_body(&func.body);
    assert!(
        matches!(&form, Form::List(xs) if xs.first() == Some(&clj::sym("let"))),
        "expected let form, got {form:?}"
    );
    let out = render(&form);
    assert!(out.contains("inc"), "got: {out}");
    assert!(out.contains('y'), "got: {out}");
    assert!(!out.contains("*y"), "got: {out}");
}

#[test]
fn parses_ns_and_deftest_shape() {
    let src = r#"
(ns demo-test
  (:require [clojure.test :refer [deftest is]]))

(def MODULE-NAME "x")

(deftest t
  (is (= 1 1)))
"#;
    assert!(looks_like_sexp(src));
    let doc = parse_document(src).expect("parse");
    let rendered = doc.render();
    assert!(rendered.contains("(ns demo-test"));
    assert!(rendered.contains("(deftest t"));
    assert!(rendered.contains("MODULE-NAME"));
}

#[test]
fn surface_module_is_not_sexp() {
    let src = r#"
// comment
module foo/Bar topology t
"#;
    assert!(!looks_like_sexp(src));
}
