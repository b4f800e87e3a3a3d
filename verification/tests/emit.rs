use rama_syntax::clj::{self, Form};
use rama_syntax::emit_clj::{compile, emit_clojure};
use rama_syntax::parse::parse;

#[test]
fn emits_fixed_keys_schema_from_struct() {
    let src = r#"
module M
struct Match { :status String :boGames Long }
pstate $$matches: Map<String, Match>
"#;
    let file = parse(src).expect("parse");
    let out = emit_clojure(&file).expect("valid IR");
    assert!(out.contains("fixed-keys-schema"), "got: {out}");
    assert!(out.contains("\"status\" String"), "got: {out}");
    assert!(out.contains("String"), "got: {out}");
}

#[test]
fn collapses_fail_chain_to_single_if() {
    let src = r#"
module M
depot events keyed-by id
op ban(event) {
  let { turn, arenaId } = event
  fail "no-ban-state" if turn == nil
  fail "bad" if arenaId == nil
  return {"ok" true}
}
"#;
    let file = parse(src).expect("parse");
    let doc = compile(&file);
    let out = doc.render();
    assert!(out.contains("(defn __ban-fail-1"), "got: {out}");
    assert!(out.contains("cond"), "got: {out}");
    assert!(out.contains("some?"), "got: {out}");
    assert!(out.contains("*__err1"), "got: {out}");
    assert!(out.contains("(else>)"), "got: {out}");
    assert!(out.contains("<<switch"), "got: {out}");
    assert!(out.contains("(case> \"ban\")"), "got: {out}");
    assert!(out.contains("(deframaop ban>"), "got: {out}");
    let if_count = out.matches("<<if").count();
    assert_eq!(if_count, 1, "expected one <<if, got {if_count}: {out}");
}

#[test]
fn lowers_surface_keyword_fields_to_rest_strings() {
    let src = r#"
module M
depot events keyed-by id
pstate $$p: Map<String, Object>
op put(event) {
  let { id } = event
  $$p !<-- keypath(id), termval({:status "ok"})
  return {"ok" true}
}
"#;
    let file = parse(src).expect("parse");
    let out = emit_clojure(&file).expect("valid IR");
    assert!(out.contains("{\"status\" \"ok\"}"), "got: {out}");
}

#[test]
fn compile_yields_ir_not_just_string() {
    let src = "module M\nfn f(x) { return x }\n";
    let file = parse(src).expect("parse");
    let doc = compile(&file);
    assert!(
        doc.forms
            .iter()
            .any(|f| matches!(f, Form::List(xs) if xs.first() == Some(&clj::sym("defn")))),
        "expected defn form in IR: {:?}",
        doc.forms
    );
}

#[test]
fn typed_function_gets_argument_and_return_contracts() {
    let src = "module M\nfn echo(value: String) -> String { return value }\n";
    let file = parse(src).expect("parse");
    let out = emit_clojure(&file).expect("valid IR");
    assert!(out.contains("(defn __rama_contract!"), "got: {out}");
    assert!(out.contains("\"echo argument `value`\""), "got: {out}");
    assert!(out.contains("\"echo return\""), "got: {out}");
    assert!(out.contains("java.lang.String"), "got: {out}");
}

#[test]
fn extern_calls_go_through_dispatcher() {
    let src = "module M\nextern str = clojure.core/str(value: Long) -> String\nfn show(x: Long) -> String { return str(x) }\n";
    let file = parse(src).expect("parse");
    let out = emit_clojure(&file).expect("valid IR");
    assert!(out.contains("(defn __rama_extern_str"), "got: {out}");
    assert!(out.contains("\"extern `str` return\""), "got: {out}");
    assert!(out.contains("(__rama_extern_str x)"), "got: {out}");
}

#[test]
fn hop_free_op_stays_deframaop_and_hop_op_inlines() {
    let src = r#"
module M
depot events keyed-by id
pstate $$p: Map<String, Object>
op put(event) {
  let { id } = event
  |hash id
  $$p !<-- keypath(id), termval("x")
  return {"ok" true}
}
"#;
    let file = parse(src).expect("parse");
    let out = emit_clojure(&file).expect("valid IR");
    assert!(!out.contains("(deframaop put>"), "got: {out}");
    assert!(out.contains("(|hash *id)"), "got: {out}");
    assert!(out.contains("events-partition-key"), "got: {out}");
}

#[test]
fn module_name_gets_module_suffix_once() {
    let plain = parse("module Users\ndepot d keyed-by id\n").expect("parse");
    let out = emit_clojure(&plain).expect("valid IR");
    assert!(out.contains("(defmodule UsersModule"), "got: {out}");
    let suffixed = parse("module UsersModule\ndepot d keyed-by id\n").expect("parse");
    let out = emit_clojure(&suffixed).expect("valid IR");
    assert!(out.contains("(defmodule UsersModule"), "got: {out}");
    assert!(!out.contains("UsersModuleModule"), "got: {out}");
}
