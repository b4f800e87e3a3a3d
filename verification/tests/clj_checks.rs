use rama_syntax::ast::Item;
use rama_syntax::clj::{self, render, Document, Form};
use rama_syntax::clj_verify::{debug_form, verify};
use rama_syntax::lower::lower_fn_body;
use rama_syntax::parse::parse;

fn body_of(src: &str) -> Form {
    let file = parse(src).expect("parse");
    let Item::Fn(func) = &file.items[1] else {
        panic!("expected fn");
    };
    lower_fn_body(&func.body)
}

#[test]
fn debug_form_matches_derived_debug() {
    let form = Form::List(vec![
        clj::sym("a\"b"),
        clj::integer(-12),
        clj::bool(false),
        clj::nil(),
        clj::vector(vec![clj::string("x\ny"), clj::kw("k")]),
        clj::map(vec![(clj::kw("a"), clj::integer(1)), (clj::string("b"), clj::vector(vec![]))]),
        Form::Comment("note".to_string()),
    ]);
    assert_eq!(debug_form(&form), format!("{:?}", form));
}

#[test]
fn missing_pstate_parameters_come_in_ascending_order() {
    let mut doc = Document::new();
    doc.push(clj::call(
        "deframaop",
        vec![
            clj::sym("x>"),
            clj::vector(vec![clj::sym("*e"), clj::sym("$$b")]),
            clj::call("f", vec![clj::sym("$$c"), clj::sym("$$b")]),
            clj::vector(vec![clj::sym("$$a"), clj::sym("$$c")]),
        ],
    ));
    let issues = verify(&doc);
    assert_eq!(issues.len(), 2);
    assert_eq!(issues[0].invariant, "clj/deframaop-pstate-parameter");
    assert_eq!(issues[0].message, "generated deframaop references $$a without declaring it as a parameter");
    assert_eq!(issues[1].message, "generated deframaop references $$c without declaring it as a parameter");
}

#[test]
fn fixed_keys_schema_reports_each_non_string_key() {
    let mut doc = Document::new();
    doc.push(clj::call(
        "fixed-keys-schema",
        vec![clj::map(vec![
            (clj::string("ok"), clj::sym("String")),
            (clj::kw("id"), clj::sym("Long")),
        ])],
    ));
    let issues = verify(&doc);
    assert_eq!(issues.len(), 1);
    assert_eq!(issues[0].invariant, "clj/rest-fixed-key-strings");
    assert_eq!(issues[0].message, "generated REST fixed-keys-schema key is not a string: Keyword(\"id\")");
}

#[test]
fn hash_by_needs_a_symbol() {
    let mut doc = Document::new();
    doc.push(clj::call("hash-by", vec![clj::string("f")]));
    doc.push(clj::call("hash-by", vec![clj::sym("f")]));
    let issues = verify(&doc);
    assert_eq!(issues.len(), 1);
    assert_eq!(issues[0].invariant, "clj/hash-by-symbol");
}

#[test]
fn defn_inside_dataflow_may_use_control_macros() {
    let mut doc = Document::new();
    doc.push(clj::call(
        "deframaop",
        vec![
            clj::sym("x>"),
            clj::vector(vec![]),
            clj::call("fn", vec![clj::vector(vec![]), clj::call("cond", vec![clj::kw("else"), clj::nil()])]),
            clj::call("and", vec![clj::bool(true)]),
        ],
    ));
    let issues = verify(&doc);
    assert_eq!(issues.len(), 1);
    assert_eq!(
        issues[0].message,
        "generated dataflow contains Clojure control macro `and`; lift it to a top-level defn"
    );
}

#[test]
fn clean_document_has_no_issues() {
    let mut doc = Document::new();
    doc.push(clj::call("defn", vec![clj::sym("f"), clj::vector(vec![]), clj::call("if", vec![clj::bool(true), clj::nil(), clj::nil()])]));
    assert!(verify(&doc).is_empty());
}

#[test]
fn empty_fn_body_is_nil() {
    let form = body_of("\nmodule M\nfn f() {\n}\n");
    assert_eq!(form, clj::nil());
}

#[test]
fn trailing_effect_is_the_value_and_earlier_ones_are_sequenced() {
    let form = body_of("\nmodule M\nfn f(x) {\n  g(x)\n  h(x)\n}\n");
    assert_eq!(
        form,
        clj::call("do", vec![clj::call("g", vec![clj::sym("x")]), clj::call("h", vec![clj::sym("x")])])
    );
}

#[test]
fn if_without_else_carries_the_rest_into_both_branches() {
    let form = body_of("\nmodule M\nfn f(x) {\n  if (x) { g(x) }\n  return 1\n}\n");
    assert_eq!(
        form,
        clj::call(
            "if",
            vec![
                clj::sym("x"),
                clj::call("do", vec![clj::call("g", vec![clj::sym("x")]), clj::integer(1)]),
                clj::integer(1),
            ]
        )
    );
}

#[test]
fn early_returns_become_one_cond() {
    let form = body_of("\nmodule M\nfn f(x) {\n  if (x == 1) { return \"a\" }\n  if (x == 2) { return \"b\" }\n  return \"c\"\n}\n");
    let eq = |n: i64| clj::call("=", vec![clj::sym("x"), clj::integer(n)]);
    assert_eq!(
        form,
        clj::call(
            "cond",
            vec![eq(1), clj::string("a"), eq(2), clj::string("b"), clj::kw("else"), clj::string("c")]
        )
    );
}

#[test]
fn destructuring_let_binds_keys() {
    let form = body_of("\nmodule M\nfn f(m) {\n  let { a, b } = m\n  return a\n}\n");
    assert_eq!(
        form,
        clj::call(
            "let",
            vec![
                clj::vector(vec![
                    clj::map(vec![(clj::kw("keys"), clj::vector(vec![clj::sym("a"), clj::sym("b")]))]),
                    clj::sym("m"),
                ]),
                clj::sym("a"),
            ]
        )
    );
}

#[test]
fn trailing_dataflow_statement_throws() {
    let form = body_of("\nmodule M\nfn f(x) {\n  fail \"no\" if x == nil\n}\n");
    assert_eq!(
        form,
        clj::call(
            "throw",
            vec![clj::call("ex-info", vec![clj::string("fail not valid in fn"), clj::map(vec![])])]
        )
    );
}

#[test]
fn block_heads_print_one_argument_per_line() {
    let form = clj::call("defn", vec![clj::sym("f"), clj::vector(vec![clj::sym("x")]), clj::sym("x")]);
    assert_eq!(render(&form), "(defn f\n  [x]\n  x)");
}

#[test]
fn small_collections_stay_on_one_line() {
    let form = clj::call("f", vec![clj::vector(vec![clj::integer(1), clj::integer(2)]), clj::kw("k")]);
    assert_eq!(render(&form), "(f [1 2] :k)");
    let map = clj::map(vec![(clj::kw("a"), clj::integer(1)), (clj::string("b"), clj::nil())]);
    assert_eq!(render(&map), "{:a 1 \"b\" nil}");
}

#[test]
fn large_maps_print_one_entry_per_line() {
    let four = clj::vector(vec![clj::integer(1), clj::integer(2), clj::integer(3), clj::integer(4)]);
    let map = clj::map(vec![(clj::kw("a"), four), (clj::kw("b"), clj::integer(2))]);
    assert_eq!(render(&map), "{:a [1 2 3 4]\n :b 2}");
}

#[test]
fn document_separates_forms_and_keeps_comments_close() {
    let mut doc = Document::new();
    doc.push(Form::Comment("head".to_string()));
    doc.push(clj::call("a", vec![]));
    doc.push(clj::call("b", vec![]));
    assert_eq!(doc.render(), ";; head\n\n(a)\n\n\n(b)\n");
}

#[test]
fn clj_marker_makes_sexp_mode() {
    assert!(rama_syntax::sexp::looks_like_sexp("#!clj\nfoo\n"));
    assert!(rama_syntax::sexp::looks_like_sexp("// note\n#!clj (ns a)\n"));
    assert!(!rama_syntax::sexp::looks_like_sexp("module M\n"));
}

#[test]
fn ban_error_lowers_as_documented() {
    let form = body_of(
        "module M\nfn ban-error(turn, home, away, teamId, remaining, arenaId) {\n  if (turn == nil) { return \"no-ban-state\" }\n  if (teamId != (even?(turn) ? away : home)) { return \"not-your-turn\" }\n  if (not(contains?(remaining, arenaId))) { return \"arena-not-in-pool\" }\n  return nil\n}\n",
    );
    let text = render(&form);
    let collapsed = text.split_whitespace().collect::<Vec<_>>().join(" ");
    assert_eq!(
        collapsed,
        "(cond (nil? turn) \"no-ban-state\" (not= teamId (if (even? turn) away home)) \"not-your-turn\" (not (contains? remaining arenaId)) \"arena-not-in-pool\" :else nil)"
    );
}

#[test]
fn hop_ops_inline_into_one_switch() {
    let src = "module M\ndepot events keyed-by id\npstate $$p: Map<String, Object>\nop hop(event) {\n  let { id } = event\n  |hash id\n  $$p !<-- keypath(id), termval(\"x\")\n  return {\"ok\" true}\n}\nop stay(event) {\n  return {\"ok\" true}\n}\n";
    let file = parse(src).expect("parse");
    let program = rama_syntax::rama_ir::Program::from_ast(&file);
    let out = rama_syntax::emit_clj::compile_program(&program).render();
    assert!(out.contains("(deframaop stay>"), "{out}");
    assert!(!out.contains("(deframaop hop>"), "{out}");
    assert!(out.contains("(case> \"hop\")"), "{out}");
    assert!(out.contains("(|hash *id)"), "{out}");
    assert_eq!(out.matches("<<switch").count(), 1, "{out}");
    assert_eq!(out.matches("<<if").count(), 0, "{out}");
}
