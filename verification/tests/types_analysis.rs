use rama_syntax::parse::parse;
use rama_syntax::rama_ir::Program;
use rama_syntax::types::{analyze, Typing};

fn typing(source: &str) -> Typing {
    let ast = parse(source).expect("parse");
    analyze(&Program::from_ast(&ast))
}

const PATH_MODULE: &str = r#"
module T
struct User { :name String :score Long }
pstate $$users: Map<String, User>
pstate $$index: Map<String, String>
depot d keyed-by id
struct E { :id String :label String }
"#;

fn path_typing(op: &str) -> Typing {
    typing(&format!("{PATH_MODULE}\n{op}"))
}

#[test]
fn generic_vec_preserves_element_type() {
    let result = typing(
        r#"
module T
fn copy(xs: java.util.List<String>) -> java.util.List<String> {
  return vec(xs)
}
"#,
    );
    assert!(result.diagnostics.is_empty(), "{:#?}", result.diagnostics);
    let function = result.function("copy").expect("typed copy");
    assert_eq!(
        result.table.display(function.return_type),
        "java.util.List<java.lang.String>"
    );
}

#[test]
fn rejects_wrong_return_type() {
    let result = typing(
        r#"
module T
fn bad(x: Long) -> String { return x }
"#,
    );
    assert!(result
        .diagnostics
        .iter()
        .any(|diagnostic| diagnostic.message.contains("return type")));
}

#[test]
fn requires_extern_for_unknown_clojure_var() {
    let result = typing(
        r#"
module T
fn bad(x: String) -> String { return mystery(x) }
"#,
    );
    assert!(result
        .diagnostics
        .iter()
        .any(|diagnostic| diagnostic.message.contains("add an `extern`")));
}

#[test]
fn extern_type_variables_are_correlated() {
    let result = typing(
        r#"
module T
extern mine<T>(x: T) -> T
fn okay(x: String) -> String { return mine(x) }
"#,
    );
    assert!(result.diagnostics.is_empty(), "{:#?}", result.diagnostics);
}

#[test]
fn nullable_return_accepts_nil() {
    let result = typing(
        r#"
module T
fn maybe(x: String) -> String? {
  if (x == "") { return nil }
  return x
}
"#,
    );
    assert!(result.diagnostics.is_empty(), "{:#?}", result.diagnostics);
}

#[test]
fn seq_preserves_element_type_and_nilability() {
    let result = typing(
        r#"
module T
fn sequence(xs: java.util.List<String>) -> clojure.lang.ISeq<String>? {
  return seq(xs)
}
"#,
    );
    assert!(result.diagnostics.is_empty(), "{:#?}", result.diagnostics);
}

#[test]
fn generic_collection_mismatch_is_rejected() {
    let result = typing(
        r#"
module T
fn wrong(xs: java.util.List<Long>) -> java.util.List<String> {
  return vec(xs)
}
"#,
    );
    assert!(result
        .diagnostics
        .iter()
        .any(|diagnostic| diagnostic.message.contains("return type")));
}

#[test]
fn overlapping_externs_report_ambiguity() {
    let result = typing(
        r#"
module T
extern choose(a: Any, b: String) -> Long
extern choose(a: String, b: Any) -> Long
fn ambiguous(a: String, b: String) -> Long {
  return choose(a, b)
}
"#,
    );
    assert!(result
        .diagnostics
        .iter()
        .any(|diagnostic| diagnostic.message.contains("ambiguous call")));
}

#[test]
fn polymorphic_count_accepts_strings_and_collections() {
    let result = typing(
        r#"
module T
fn string-size(value: String) -> Long { return count(value) }
fn list-size(value: java.util.List<String>) -> Long { return count(value) }
"#,
    );
    assert!(result.diagnostics.is_empty(), "{:#?}", result.diagnostics);
}

#[test]
fn unannotated_parameter_is_rejected_in_typed_fn() {
    let result = typing(
        r#"
module T
fn mixed(typed: String, missing) -> String { return typed }
"#,
    );
    assert!(result
        .diagnostics
        .iter()
        .any(|diagnostic| diagnostic.message.contains("needs a type annotation")));
}

#[test]
fn conj_return_widens_persistent_collection_elements() {
    let result = typing(
        r#"
module T
fn append-label(xs: java.util.List<Long>) -> java.util.List<Long | String> {
  return conj(xs, "label")
}
"#,
    );
    assert!(result.diagnostics.is_empty(), "{:#?}", result.diagnostics);
}

#[test]
fn event_destructure_types_fields_and_catches_typos() {
    let good = typing(
        r#"
module T
struct BanEvent { :matchId String :turn Long }
op ban(event: BanEvent) {
  let { matchId, turn } = event
  fail "bad-turn" if not(even?(turn))
  return {"ok" true "matchId" matchId}
}
"#,
    );
    assert!(good.diagnostics.is_empty(), "{:#?}", good.diagnostics);

    let typo = typing(
        r#"
module T
struct BanEvent { :matchId String :turn Long }
op ban(event: BanEvent) {
  let { mtchId } = event
  return {"ok" true}
}
"#,
    );
    assert!(typo.diagnostics.iter().any(|diagnostic| {
        diagnostic.message.contains("no field `mtchId`")
            && diagnostic.message.contains("matchId, turn")
    }));

    let misuse = typing(
        r#"
module T
struct BanEvent { :matchId String :turn Long }
op ban(event: BanEvent) {
  let { matchId } = event
  fail "bad" if not(even?(matchId))
  return {"ok" true}
}
"#,
    );
    assert!(misuse
        .diagnostics
        .iter()
        .any(|diagnostic| { diagnostic.message.contains("no `even?` signature") }));
}

#[test]
fn keypath_field_typo_is_caught_with_available_fields() {
    let result = path_typing(
        r#"
op read(event: E) {
  let { id } = event
  $$users --> keypath(id, :scor) > s
  return {"ok" true}
}
"#,
    );
    assert!(result.diagnostics.iter().any(|diagnostic| {
        diagnostic.message.contains("no field `scor`")
            && diagnostic.message.contains("name, score")
    }));
}

#[test]
fn select_destructure_typo_is_caught() {
    let result = path_typing(
        r#"
op read(event: E) {
  let { id } = event
  $$users --> keypath(id) > { name, scre }
  return {"ok" true}
}
"#,
    );
    assert!(result
        .diagnostics
        .iter()
        .any(|diagnostic| { diagnostic.message.contains("no field `scre`") }));
}

#[test]
fn select_bindings_carry_schema_types() {
    let good = path_typing(
        r#"
op read(event: E) {
  let { id } = event
  $$users --> keypath(id, :score), nil->val(0) > s
  let next = inc(s)
  return {"ok" true "next" next}
}
"#,
    );
    assert!(good.diagnostics.is_empty(), "{:#?}", good.diagnostics);

    let bad = path_typing(
        r#"
op read(event: E) {
  let { id } = event
  $$users --> keypath(id, :name) > n
  let next = inc(n)
  return {"ok" true "next" next}
}
"#,
    );
    assert!(bad.diagnostics.iter().any(|diagnostic| {
        diagnostic
            .message
            .contains("no `inc` signature accepts (java.lang.String)")
    }));
}

#[test]
fn termval_type_mismatches_are_caught() {
    let leaf = path_typing(
        r#"
op write(event: E) {
  let { id } = event
  $$users !<-- keypath(id, :score), termval("high")
  return {"ok" true}
}
"#,
    );
    assert!(leaf.diagnostics.iter().any(|diagnostic| {
        diagnostic.message.contains(
            "termval writes `java.lang.String` where the schema declares `java.lang.Long`",
        )
    }));

    let map = path_typing(
        r#"
op write(event: E) {
  let { id, label } = event
  $$users !<-- keypath(id), termval({:name label :score "zero" :extra 1})
  return {"ok" true}
}
"#,
    );
    assert!(map.diagnostics.iter().any(|diagnostic| {
        diagnostic
            .message
            .contains("field `score` of `User` declares `java.lang.Long`")
    }));
    assert!(map
        .diagnostics
        .iter()
        .any(|diagnostic| diagnostic.message.contains("no field `extra`")));
}

#[test]
fn map_key_type_mismatch_is_caught() {
    let result = path_typing(
        r#"
op write(event: E) {
  let { id } = event
  $$users --> keypath(id, :score) > s
  $$index !<-- keypath(s), termval(id)
  return {"ok" true}
}
"#,
    );
    assert!(result.diagnostics.iter().any(|diagnostic| {
        diagnostic.message.contains(
            "map key has type `java.lang.Long`, the schema declares `java.lang.String`",
        )
    }));
}

#[test]
fn term_function_must_match_position_type() {
    let result = path_typing(
        r#"
fn shout(value: String) -> String { return value }
op write(event: E) {
  let { id } = event
  $$users !<-- keypath(id, :score), nil->val(0), term(shout)
  return {"ok" true}
}
"#,
    );
    assert!(result
        .diagnostics
        .iter()
        .any(|diagnostic| { diagnostic.message.contains("term function `shout`") }));
}

#[test]
fn descending_past_a_leaf_is_caught() {
    let result = path_typing(
        r#"
op read(event: E) {
  let { id } = event
  $$users --> keypath(id, :score, :deeper) > s
  return {"ok" true}
}
"#,
    );
    assert!(result.diagnostics.iter().any(|diagnostic| {
        diagnostic
            .message
            .contains("cannot descend into `java.lang.Long`")
    }));
}

#[test]
fn get_allows_disjoint_query_keys_and_returns_nullable_value() {
    let result = typing(
        r#"
module T
fn lookup(m: java.util.Map<String, Long>, key: Boolean) -> Long? {
  return get(m, key)
}
"#,
    );
    assert!(result.diagnostics.is_empty(), "{:#?}", result.diagnostics);
}

#[test]
fn unknown_requires_explicit_checked_narrowing() {
    let unsafe_result = typing(
        r#"
module T
fn unsafe-use(value: Unknown) -> Long { return inc(value) }
"#,
    );
    assert!(unsafe_result
        .diagnostics
        .iter()
        .any(|diagnostic| diagnostic.message.contains("no `inc` signature")));

    let checked_result = typing(
        r#"
module T
fn checked-use(value: Unknown) -> String { return value as String }
"#,
    );
    assert!(
        checked_result.diagnostics.is_empty(),
        "{:#?}",
        checked_result.diagnostics
    );
}

#[test]
fn dynamic_remains_explicit_unsound_escape_hatch() {
    let result = typing(
        r#"
module T
fn dynamic-use(value: Dynamic) -> Long { return inc(value) }
"#,
    );
    assert!(result.diagnostics.is_empty(), "{:#?}", result.diagnostics);
}

#[test]
fn unknown_unqualified_jvm_type_is_diagnosed() {
    let result = typing(
        r#"
module T
fn typo(value: Strng) -> Strng { return value }
"#,
    );
    assert!(result
        .diagnostics
        .iter()
        .any(|diagnostic| diagnostic.message.contains("unknown JVM type `Strng`")));
}

#[test]
fn map_infers_through_typed_callback_and_seqable_capability() {
    let result = typing(
        r#"
module Higher
fn double(value: Long) -> Long { return inc(inc(value)) }
fn double-all(values: java.util.List<Long>) -> clojure.lang.LazySeq<Long> {
  return map(double, values)
}
"#,
    );
    assert!(result.diagnostics.is_empty(), "{:#?}", result.diagnostics);
}

#[test]
fn map_rejects_callback_with_wrong_element_type() {
    let result = typing(
        r#"
module Higher
fn string-size(value: String) -> Long { return count(value) }
fn invalid(values: java.util.List<Long>) -> clojure.lang.LazySeq<Long> {
  return map(string-size, values)
}
"#,
    );
    assert!(
        result
            .diagnostics
            .iter()
            .any(|diagnostic| diagnostic.message.contains("no `map` signature")),
        "{:#?}",
        result.diagnostics
    );
}

#[test]
fn reduce_with_init_correlates_accumulator_and_element_types() {
    let result = typing(
        r#"
module Higher
extern add = clojure.core/+(left: Long, right: Long) -> Long
fn add-values(left: Long, right: Long) -> Long { return add(left, right) }
fn total(values: java.util.List<Long>) -> Long {
  return reduce(add-values, 0, values)
}
"#,
    );
    assert!(result.diagnostics.is_empty(), "{:#?}", result.diagnostics);
}

#[test]
fn fn_type_and_capability_annotations_round_trip() {
    let result = typing(
        r#"
module Higher
extern invoke<T, R>(f: Fn<(T) -> R>, value: T) -> R
fn use(f: Fn<(Long) -> String>, values: Seqable<Long>) -> String {
  return invoke(f, first(values) as Long)
}
"#,
    );
    assert!(result.diagnostics.is_empty(), "{:#?}", result.diagnostics);
    let function = result.function("use").expect("typed use");
    assert_eq!(
        result.table.display(function.params[0].1),
        "Fn<(java.lang.Long) -> java.lang.String>"
    );
    assert_eq!(
        result.table.display(function.params[1].1),
        "Seqable<java.lang.Long>"
    );
}
