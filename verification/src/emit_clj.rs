//! .rama AST → [`clj::Document`] → source text.
//!
//! All structural work happens on the Clojure IR; [`emit_clojure`] only
//! renders.

use vstd::prelude::*;
use crate::ast::{DepotDecl, DepotKey, Item, OpDef, Param, PStateDecl, SourceFile, StructField, TypeExpr};
use crate::clj::{self, model, Document, Form, FormModel};
use crate::clj_verify::{self, Issue};
use crate::lower;
use crate::rama_ir::{last_struct, Program};
use crate::span::Spanned;
use crate::text::{cat, ends_with, join, owned, str_eq};
use crate::types::model::{sanitize, typed_function_spec};
use crate::types::{self, TypeId, TypeModel, Typing};

pub mod ops;
pub mod runtime;

use ops::{compile_op_body, event_spec, op_has_partitioner, op_pstates, pstate_symbol, FieldCheck};
use runtime::{contract_call, contract_helper_forms, contract_spec, extern_dispatcher_form};

verus! {

/// The module's class name: the name itself when it already ends in
/// `Module`, else the name with `Module` appended.
pub open spec fn module_type_name_spec(name: Seq<char>) -> Seq<char> {
    if crate::text::is_suffix("Module"@, name) {
        name
    } else {
        name + "Module"@
    }
}

fn module_type_name(module_name: &str) -> (out: String)
    ensures
        out@ == module_type_name_spec(module_name@),
{
    if ends_with(module_name, "Module") {
        owned(module_name)
    } else {
        let mut out = owned(module_name);
        out.push_str("Module");
        out
    }
}

/// The top-level function a depot is partitioned by.
fn partitioner_name(depot: &DepotDecl) -> (out: String)
    ensures
        out@ == depot.name.node@ + "-partition-key"@,
{
    let mut out = owned(depot.name.node.as_str());
    out.push_str("-partition-key");
    out
}

/// One partition-key choice: `(get event "field")` or the literal.
pub open spec fn key_choice(k: DepotKey) -> FormModel {
    match k {
        DepotKey::Field(f) => FormModel::List(seq![FormModel::Symbol("get"@), FormModel::Symbol("event"@), FormModel::String(f@)]),
        DepotKey::Literal(v) => FormModel::String(v@),
    }
}

pub open spec fn key_choices(keys: Seq<Spanned<DepotKey>>) -> Seq<FormModel> {
    keys.map_values(|k: Spanned<DepotKey>| key_choice(k.node))
}

/// The depot's partition key: the one key, or the first non-nil of several.
fn depot_key_form(depot: &DepotDecl) -> (out: Form)
    ensures
        model(out) == if depot.keyed_by@.len() == 1 {
            key_choice(depot.keyed_by@[0].node)
        } else {
            FormModel::List(seq![FormModel::Symbol("or"@)] + key_choices(depot.keyed_by@))
        },
{
    let mut choices: Vec<Form> = Vec::new();
    let mut i: usize = 0;
    while i < depot.keyed_by.len()
        invariant
            i <= depot.keyed_by.len(),
            choices@.len() == i,
            forall|k: int| 0 <= k < i ==> model(#[trigger] choices@[k]) == key_choice(depot.keyed_by@[k].node),
        decreases depot.keyed_by.len() - i,
    {
        let choice = match &depot.keyed_by[i].node {
            DepotKey::Field(field) => {
                let args = vec![clj::sym("event"), clj::string(field.as_str())];
                proof {
                    clj::lemma_models_from_elements(args@, seq![FormModel::Symbol("event"@), FormModel::String(field@)]);
                }
                let c = clj::call("get", args);
                assert(model(c) == FormModel::List(seq![FormModel::Symbol("get"@)] + seq![FormModel::Symbol("event"@), FormModel::String(field@)]));
                assert(seq![FormModel::Symbol("get"@)] + seq![FormModel::Symbol("event"@), FormModel::String(field@)] =~= seq![
                    FormModel::Symbol("get"@),
                    FormModel::Symbol("event"@),
                    FormModel::String(field@),
                ]);
                c
            },
            DepotKey::Literal(value) => clj::string(value.as_str()),
        };
        choices.push(choice);
        i += 1;
    }
    if choices.len() == 1 {
        choices.remove(0)
    } else {
        proof {
            clj::lemma_models_from_elements(choices@, key_choices(depot.keyed_by@));
        }
        clj::call("or", choices)
    }
}

/// The extern dispatcher a name is called through.
fn extern_wrapper_name(name: &str) -> (out: String)
    ensures
        out@ == "__rama_extern_"@ + name@.map_values(|c: char| crate::types::model::sanitize_char(c)),
{
    let mut out = owned("__rama_extern_");
    out.push_str(sanitize(name).as_str());
    out
}

/// The wrapper registered for `name`, if any.
fn wrapper_for<'b>(wrappers: &'b Vec<(String, String)>, name: &str) -> (out: Option<&'b String>)
    ensures
        match out {
            Some(w) => first_wrapper(wrappers@, name@) == Some(w@),
            None => first_wrapper(wrappers@, name@) is None,
        },
        out matches Some(w) ==> exists|k: int| 0 <= k < wrappers@.len() && wrappers@[k].0@ == name@ && wrappers@[k].1 == *w,
        out is None ==> forall|k: int| 0 <= k < wrappers@.len() ==> (#[trigger] wrappers@[k]).0@ != name@,
{
    let mut i: usize = 0;
    assert(wrappers@.skip(0) =~= wrappers@);
    while i < wrappers.len()
        invariant
            i <= wrappers.len(),
            forall|k: int| 0 <= k < i ==> (#[trigger] wrappers@[k]).0@ != name@,
            first_wrapper(wrappers@, name@) == first_wrapper(wrappers@.skip(i as int), name@),
        decreases wrappers.len() - i,
    {
        assert(wrappers@.skip(i as int)[0] == wrappers@[i as int]);
        if str_eq(wrappers[i].0.as_str(), name) {
            return Some(&wrappers[i].1);
        }
        assert(wrappers@.skip(i as int).drop_first() =~= wrappers@.skip(i + 1));
        i += 1;
    }
    None
}

/// The dispatcher registered first for `name`.
pub open spec fn first_wrapper(wrappers: Seq<(String, String)>, name: Seq<char>) -> Option<Seq<char>>
    decreases wrappers.len(),
{
    if wrappers.len() == 0 {
        None
    } else if wrappers[0].0@ == name {
        Some(wrappers[0].1@)
    } else {
        first_wrapper(wrappers.drop_first(), name)
    }
}

/// A form with each list headed by an extern's name headed by its
/// dispatcher instead, everywhere inside it.
pub open spec fn rewritten(f: Form, ws: Seq<(String, String)>) -> FormModel
    decreases f,
{
    match f {
        Form::List(xs) => FormModel::List(
            if xs@.len() > 0 && xs@[0] is Symbol && first_wrapper(ws, xs@[0]->Symbol_0@) is Some {
                seq![FormModel::Symbol(first_wrapper(ws, xs@[0]->Symbol_0@)->0)] + rewritten_all(xs@.subrange(1, xs@.len() as int), ws)
            } else {
                rewritten_all(xs@, ws)
            },
        ),
        Form::Vector(xs) => FormModel::Vector(rewritten_all(xs@, ws)),
        Form::MapLit(es) => FormModel::MapLit(rewritten_entries(es@, ws)),
        _ => model(f),
    }
}

pub open spec fn rewritten_all(xs: Seq<Form>, ws: Seq<(String, String)>) -> Seq<FormModel>
    decreases xs,
{
    if xs.len() == 0 {
        Seq::empty()
    } else {
        rewritten_all(xs.subrange(0, xs.len() - 1), ws).push(rewritten(xs[xs.len() - 1], ws))
    }
}

pub open spec fn rewritten_entries(es: Seq<(Form, Form)>, ws: Seq<(String, String)>) -> Seq<(FormModel, FormModel)>
    decreases es,
{
    if es.len() == 0 {
        Seq::empty()
    } else {
        rewritten_entries(es.subrange(0, es.len() - 1), ws).push(
            (rewritten(es[es.len() - 1].0, ws), rewritten(es[es.len() - 1].1, ws)),
        )
    }
}

proof fn lemma_rewritten_all_index(xs: Seq<Form>, ws: Seq<(String, String)>)
    ensures
        rewritten_all(xs, ws).len() == xs.len(),
        forall|k: int| 0 <= k < xs.len() ==> (#[trigger] rewritten_all(xs, ws)[k]) == rewritten(xs[k], ws),
    decreases xs.len(),
{
    if xs.len() > 0 {
        let init = xs.subrange(0, xs.len() - 1);
        lemma_rewritten_all_index(init, ws);
        assert forall|k: int| 0 <= k < xs.len() implies (#[trigger] rewritten_all(xs, ws)[k]) == rewritten(xs[k], ws) by {
            if k < xs.len() - 1 {
                assert(init[k] == xs[k]);
            }
        }
    }
}

proof fn lemma_rewritten_entries_index(es: Seq<(Form, Form)>, ws: Seq<(String, String)>)
    ensures
        rewritten_entries(es, ws).len() == es.len(),
        forall|k: int| 0 <= k < es.len() ==> (#[trigger] rewritten_entries(es, ws)[k]) == (rewritten(es[k].0, ws), rewritten(es[k].1, ws)),
    decreases es.len(),
{
    if es.len() > 0 {
        let init = es.subrange(0, es.len() - 1);
        lemma_rewritten_entries_index(init, ws);
        assert forall|k: int| 0 <= k < es.len() implies (#[trigger] rewritten_entries(es, ws)[k]) == (rewritten(es[k].0, ws), rewritten(es[k].1, ws)) by {
            if k < es.len() - 1 {
                assert(init[k] == es[k]);
            }
        }
    }
}

/// The form with calls of externs redirected to their dispatchers.
#[verifier::loop_isolation(false)]
fn rewrite_calls(form: &Form, wrappers: &Vec<(String, String)>) -> (out: Form)
    ensures
        model(out) == rewritten(*form, wrappers@),
    decreases form,
{
    match form {
        Form::List(forms) => {
            let ghost ws = wrappers@;
            let ghost redirected = forms@.len() > 0 && forms@[0] is Symbol && first_wrapper(ws, forms@[0]->Symbol_0@) is Some;
            let ghost want = if redirected {
                seq![FormModel::Symbol(first_wrapper(ws, forms@[0]->Symbol_0@)->0)] + rewritten_all(forms@.subrange(1, forms@.len() as int), ws)
            } else {
                rewritten_all(forms@, ws)
            };
            proof {
                lemma_rewritten_all_index(forms@, ws);
                if forms@.len() > 0 {
                    lemma_rewritten_all_index(forms@.subrange(1, forms@.len() as int), ws);
                }
                assert(want.len() == forms@.len());
                assert forall|k: int| 1 <= k < forms@.len() implies #[trigger] want[k] == rewritten(forms@[k], ws) by {
                    if redirected {
                        assert(want[k] == rewritten_all(forms@.subrange(1, forms@.len() as int), ws)[k - 1]);
                        assert(forms@.subrange(1, forms@.len() as int)[k - 1] == forms@[k]);
                    }
                }
            }
            let mut xs: Vec<Form> = Vec::new();
            let mut i: usize = 0;
            while i < forms.len()
                invariant
                    i <= forms.len(),
                    xs@.len() == i,
                    forall|k: int| 0 <= k < i ==> model(#[trigger] xs@[k]) == want[k],
                decreases forms.len() - i,
            {
                let rewritten = if i == 0 {
                    match &forms[0] {
                        Form::Symbol(head) => match wrapper_for(wrappers, head.as_str()) {
                            Some(wrapper) => clj::sym(wrapper.as_str()),
                            None => rewrite_calls(&forms[0], wrappers),
                        },
                        _ => rewrite_calls(&forms[0], wrappers),
                    }
                } else {
                    rewrite_calls(&forms[i], wrappers)
                };
                xs.push(rewritten);
                i += 1;
            }
            proof {
                clj::lemma_models_from_elements(xs@, want);
            }
            Form::List(xs)
        }
        Form::Vector(forms) => {
            proof {
                lemma_rewritten_all_index(forms@, wrappers@);
            }
            let mut xs: Vec<Form> = Vec::new();
            let mut i: usize = 0;
            while i < forms.len()
                invariant
                    i <= forms.len(),
                    xs@.len() == i,
                    forall|k: int| 0 <= k < i ==> model(#[trigger] xs@[k]) == rewritten_all(forms@, wrappers@)[k],
                decreases forms.len() - i,
            {
                xs.push(rewrite_calls(&forms[i], wrappers));
                i += 1;
            }
            proof {
                clj::lemma_models_from_elements(xs@, rewritten_all(forms@, wrappers@));
            }
            Form::Vector(xs)
        }
        Form::MapLit(entries) => {
            proof {
                lemma_rewritten_entries_index(entries@, wrappers@);
            }
            let mut xs: Vec<(Form, Form)> = Vec::new();
            let mut i: usize = 0;
            while i < entries.len()
                invariant
                    i <= entries.len(),
                    xs@.len() == i,
                    forall|k: int| 0 <= k < i ==> (model((#[trigger] xs@[k]).0), model(xs@[k].1)) == rewritten_entries(entries@, wrappers@)[k],
                decreases entries.len() - i,
            {
                xs.push((rewrite_calls(&entries[i].0, wrappers), rewrite_calls(&entries[i].1, wrappers)));
                i += 1;
            }
            proof {
                clj::lemma_pair_models_index(xs@);
                assert(clj::pair_models(xs@) =~= rewritten_entries(entries@, wrappers@));
            }
            Form::MapLit(xs)
        }
        other => other.clone(),
    }
}

/// Nodes in a schema type.
pub open spec fn type_expr_size(ty: TypeExpr) -> nat
    decreases ty,
{
    match ty {
        TypeExpr::MapType { key, value, .. } => 1 + type_expr_size(*key) + type_expr_size(*value),
        _ => 1,
    }
}

/// `{:subindex? true}`.
pub open spec fn subindex_option() -> FormModel {
    FormModel::MapLit(seq![(FormModel::Keyword("subindex?"@), FormModel::Bool(true))])
}

/// The schema of a type, expanding at most `fuel` nested struct
/// declarations.
pub open spec fn schema_spec(ty: TypeExpr, program: Program, fuel: usize) -> FormModel
    decreases fuel, 1nat, type_expr_size(ty),
{
    match ty {
        TypeExpr::Named(n) => named_schema_spec(n@, program, fuel),
        TypeExpr::Object => FormModel::Symbol("Object"@),
        TypeExpr::MapType { key, value, subindexed } => FormModel::List(
            seq![FormModel::Symbol("map-schema"@), schema_spec(*key, program, fuel), schema_spec(*value, program, fuel)]
                + if subindexed { seq![subindex_option()] } else { Seq::empty() },
        ),
    }
}

/// The schema named `name`: a declared struct's fixed keys, else the name.
pub open spec fn named_schema_spec(name: Seq<char>, program: Program, fuel: usize) -> FormModel
    decreases fuel, 0nat, 0nat,
{
    if fuel == 0 {
        FormModel::Symbol(name)
    } else {
        match last_struct(program.structs@, name) {
            Some(s) => FormModel::List(
                seq![
                    FormModel::Symbol("fixed-keys-schema"@),
                    FormModel::MapLit(field_schemas(s.fields@, program, (fuel - 1) as usize)),
                ],
            ),
            None => FormModel::Symbol(name),
        }
    }
}

/// Each field's name and schema.
pub open spec fn field_schemas(fields: Seq<StructField>, program: Program, fuel: usize) -> Seq<(FormModel, FormModel)>
    decreases fuel, 2nat, fields.len(),
{
    if fields.len() == 0 {
        Seq::empty()
    } else {
        field_schemas(fields.drop_last(), program, fuel).push(
            (FormModel::String(fields.last().name.node@), schema_spec(fields.last().ty.node, program, fuel)),
        )
    }
}

/// The schema form of a pstate or struct field type; declared structs
/// become fixed-keys schemas.
fn type_form(ty: &TypeExpr, program: &Program<'_>) -> (out: Form)
    ensures
        model(out) == schema_spec(*ty, *program, program.structs@.len() as usize),
{
    type_form_within(ty, program, program.structs.len())
}

/// `type_form` expanding at most `fuel` nested struct declarations; a
/// path through more declarations than the program has must revisit one,
/// and such a cycle is cut off as the struct's bare name.
fn type_form_within(ty: &TypeExpr, program: &Program<'_>, fuel: usize) -> (out: Form)
    ensures
        model(out) == schema_spec(*ty, *program, fuel),
    decreases fuel, type_expr_size(*ty) + 1,
{
    match ty {
        TypeExpr::Named(n) => named_schema_within(n.as_str(), program, fuel),
        TypeExpr::Object => clj::sym("Object"),
        TypeExpr::MapType { key, value, subindexed } => {
            let k = type_form_within(key, program, fuel);
            let v = type_form_within(value, program, fuel);
            let mut args: Vec<Form> = vec![k, v];
            let ghost want = seq![model(k), model(v)] + if *subindexed { seq![subindex_option()] } else { Seq::empty() };
            if *subindexed {
                let option = clj::map(vec![(clj::kw("subindex?"), clj::bool(true))]);
                args.push(option);
            }
            proof {
                assert forall|q: int| 0 <= q < args@.len() implies model(#[trigger] args@[q]) == want[q] by {
                    if q == 2 {
                        clj::lemma_pair_models_index(args@[2]->MapLit_0@);
                        assert(clj::pair_models(args@[2]->MapLit_0@) =~= seq![(FormModel::Keyword("subindex?"@), FormModel::Bool(true))]);
                    }
                }
                clj::lemma_models_from_elements(args@, want);
                assert(seq![FormModel::Symbol("map-schema"@)] + want =~= seq![FormModel::Symbol("map-schema"@), model(k), model(v)]
                    + if *subindexed { seq![subindex_option()] } else { Seq::empty() });
            }
            clj::call("map-schema", args)
        }
    }
}

/// `(fixed-keys-schema {"field" Type …})` for a declared struct, else the
/// name as a symbol.
fn named_schema(name: &str, program: &Program<'_>) -> (out: Form)
    ensures
        model(out) == named_schema_spec(name@, *program, program.structs@.len() as usize),
{
    named_schema_within(name, program, program.structs.len())
}

#[verifier::loop_isolation(false)]
fn named_schema_within(name: &str, program: &Program<'_>, fuel: usize) -> (out: Form)
    ensures
        model(out) == named_schema_spec(name@, *program, fuel),
    decreases fuel, 0nat,
{
    if fuel == 0 {
        return clj::sym(name);
    }
    match program.struct_decl(name) {
        Some(s) => {
            let mut entries: Vec<(Form, Form)> = Vec::new();
            let mut i: usize = 0;
            assert(clj::pair_models(entries@) =~= field_schemas(s.fields@.take(0), *program, (fuel - 1) as usize));
            while i < s.fields.len()
                invariant
                    i <= s.fields.len(),
                    clj::pair_models(entries@) == field_schemas(s.fields@.take(i as int), *program, (fuel - 1) as usize),
                decreases s.fields.len() - i,
            {
                proof {
                    assert(s.fields@.take(i + 1).drop_last() =~= s.fields@.take(i as int));
                    assert(s.fields@.take(i + 1).last() == s.fields@[i as int]);
                }
                let f = &s.fields[i];
                let key = clj::string(f.name.node.as_str());
                let value = type_form_within(&f.ty.node, program, fuel - 1);
                let ghost before = entries@;
                entries.push((key, value));
                proof {
                    clj::lemma_pair_models_index(before);
                    clj::lemma_pair_models_index(entries@);
                    assert(clj::pair_models(entries@) =~= clj::pair_models(before).push((model(key), model(value))));
                }
                i += 1;
            }
            assert(s.fields@.take(s.fields@.len() as int) =~= s.fields@);
            let m = clj::map(entries);
            let args = vec![m];
            proof {
                clj::lemma_models_from_elements(args@, seq![model(m)]);
                assert(seq![FormModel::Symbol("fixed-keys-schema"@)] + seq![model(m)] =~= seq![
                    FormModel::Symbol("fixed-keys-schema"@),
                    model(m),
                ]);
            }
            clj::call("fixed-keys-schema", args)
        }
        None => clj::sym(name),
    }
}

/// The schema a pstate is declared with: a map's top level as a map
/// literal from its key schema to its value schema.
pub open spec fn pstate_schema_spec(ty: TypeExpr, program: Program) -> FormModel {
    let n = program.structs@.len() as usize;
    match ty {
        TypeExpr::MapType { key, value, subindexed } => FormModel::MapLit(
            seq![
                (
                    schema_spec(*key, program, n),
                    match *value {
                        TypeExpr::Named(name) => named_schema_spec(name@, program, n),
                        TypeExpr::MapType { key: k2, value: v2, subindexed: inner } => FormModel::List(
                            seq![FormModel::Symbol("map-schema"@), schema_spec(*k2, program, n), schema_spec(*v2, program, n)]
                                + if subindexed || inner { seq![subindex_option()] } else { Seq::empty() },
                        ),
                        other => schema_spec(other, program, n),
                    },
                ),
            ],
        ),
        other => schema_spec(other, program, n),
    }
}

/// The schema a pstate is declared with.
fn pstate_type_form(ty: &TypeExpr, program: &Program<'_>) -> (out: Form)
    ensures
        model(out) == pstate_schema_spec(*ty, *program),
{
    match ty {
        TypeExpr::MapType { key, value, subindexed } => {
            let k = type_form(key, program);
            let v = match &**value {
                TypeExpr::Named(name) => named_schema(name.as_str(), program),
                TypeExpr::MapType { key: k2, value: v2, subindexed: inner_sub } => {
                    let a = type_form(k2, program);
                    let b = type_form(v2, program);
                    let mut args: Vec<Form> = vec![a, b];
                    let ghost want = seq![model(a), model(b)] + if *subindexed || *inner_sub { seq![subindex_option()] } else { Seq::empty() };
                    if *subindexed || *inner_sub {
                        args.push(clj::map(vec![(clj::kw("subindex?"), clj::bool(true))]));
                    }
                    proof {
                        assert forall|q: int| 0 <= q < args@.len() implies model(#[trigger] args@[q]) == want[q] by {
                            if q == 2 {
                                clj::lemma_pair_models_index(args@[2]->MapLit_0@);
                                assert(clj::pair_models(args@[2]->MapLit_0@) =~= seq![(FormModel::Keyword("subindex?"@), FormModel::Bool(true))]);
                            }
                        }
                        clj::lemma_models_from_elements(args@, want);
                        assert(seq![FormModel::Symbol("map-schema"@)] + want =~= seq![FormModel::Symbol("map-schema"@), model(a), model(b)]
                            + if *subindexed || *inner_sub { seq![subindex_option()] } else { Seq::empty() });
                    }
                    clj::call("map-schema", args)
                }
                other => type_form(other, program),
            };
            let entries = vec![(k, v)];
            proof {
                clj::lemma_pair_models_index(entries@);
                assert(clj::pair_models(entries@) =~= seq![(model(k), model(v))]);
            }
            clj::map(entries)
        }
        other => type_form(other, program),
    }
}

pub open spec fn sym_m(s: Seq<char>) -> FormModel {
    FormModel::Symbol(s)
}

/// `(declare-depot setup *d (hash-by d-partition-key))`.
pub open spec fn depot_decl_spec(d: DepotDecl) -> FormModel {
    FormModel::List(
        seq![
            sym_m("declare-depot"@),
            sym_m("setup"@),
            sym_m(seq!['*'] + d.name.node@),
            FormModel::List(seq![sym_m("hash-by"@), sym_m(d.name.node@ + "-partition-key"@)]),
        ],
    )
}

/// `(declare-pstate s $$p schema)`.
pub open spec fn pstate_decl_spec(p: PStateDecl, program: Program) -> FormModel {
    FormModel::List(
        seq![
            sym_m("declare-pstate"@),
            sym_m("s"@),
            sym_m(seq!['$', '$'] + p.name.node@),
            pstate_schema_spec(p.ty.node, program),
        ],
    )
}

/// The forms recorded last under `name`.
pub open spec fn last_body(bodies: Seq<(String, Vec<Form>)>, name: Seq<char>) -> Option<Seq<Form>>
    decreases bodies.len(),
{
    if bodies.len() == 0 {
        None
    } else if bodies.last().0@ == name {
        Some(bodies.last().1@)
    } else {
        last_body(bodies.drop_last(), name)
    }
}

/// `$$p` for each of the pstates an op touches, in ascending order.
pub open spec fn pstate_args(op: OpDef) -> Seq<FormModel> {
    clj_verify::ascending(ops::stmts_pstates(op.body.stmts@)).map_values(|n: Seq<char>| sym_m(seq!['$', '$'] + n))
}

/// One `<<switch` case: `(case> "op")`, then the op's inlined body, or a
/// call of its `deframaop` with `*event` and the pstates it touches.
pub open spec fn op_case_spec(op: OpDef, bodies: Seq<(String, Vec<Form>)>) -> Seq<FormModel> {
    seq![FormModel::List(seq![sym_m("case>"@), FormModel::String(op.name.node@)])] + match last_body(bodies, op.name.node@) {
        Some(forms) => clj::models(forms),
        None => seq![FormModel::List(seq![sym_m(op.name.node@ + ">"@), sym_m("*event"@)] + pstate_args(op))],
    }
}

pub open spec fn op_cases_spec(ops: Seq<&OpDef>, bodies: Seq<(String, Vec<Form>)>) -> Seq<FormModel>
    decreases ops.len(),
{
    if ops.len() == 0 {
        Seq::empty()
    } else {
        op_cases_spec(ops.drop_last(), bodies) + op_case_spec(*ops.last(), bodies)
    }
}

/// `(ack-return> {"ok" false "error" "unknown-type" "type" *__type})`.
pub open spec fn unknown_type_spec() -> FormModel {
    FormModel::List(
        seq![
            sym_m("ack-return>"@),
            FormModel::MapLit(
                seq![
                    (FormModel::String("ok"@), FormModel::Bool(false)),
                    (FormModel::String("error"@), FormModel::String("unknown-type"@)),
                    (FormModel::String("type"@), sym_m("*__type"@)),
                ],
            ),
        ],
    )
}

/// `(<<switch *__type (case> "op") … (default>) (ack-return> …))`.
pub open spec fn switch_spec(ops: Seq<&OpDef>, bodies: Seq<(String, Vec<Form>)>) -> FormModel {
    FormModel::List(
        seq![sym_m("<<switch"@), sym_m("*__type"@)] + op_cases_spec(ops, bodies) + seq![
            FormModel::List(seq![sym_m("default>"@)]),
            unknown_type_spec(),
        ],
    )
}

/// `(<<sources s (source> *d :> *event) (get *event "type" :> *__type) switch)`.
pub open spec fn sources_spec(d: DepotDecl, ops: Seq<&OpDef>, bodies: Seq<(String, Vec<Form>)>) -> FormModel {
    FormModel::List(
        seq![
            sym_m("<<sources"@),
            sym_m("s"@),
            FormModel::List(seq![sym_m("source>"@), sym_m(seq!['*'] + d.name.node@), sym_m(":>"@), sym_m("*event"@)]),
            FormModel::List(seq![sym_m("get"@), sym_m("*event"@), FormModel::String("type"@), sym_m(":>"@), sym_m("*__type"@)]),
            switch_spec(ops, bodies),
        ],
    )
}

/// The module form: `(defmodule NameModule [setup topologies] depots…
/// (let [s (stream-topology topologies "T")] pstates… sources))`, the
/// sources reading the first depot, and present only when there is one.
pub open spec fn defmodule_spec(
    module_name: Seq<char>,
    topology: Seq<char>,
    depots: Seq<&DepotDecl>,
    pstates: Seq<&PStateDecl>,
    ops: Seq<&OpDef>,
    bodies: Seq<(String, Vec<Form>)>,
    program: Program,
) -> FormModel {
    FormModel::List(
        seq![sym_m("defmodule"@), sym_m(module_type_name_spec(module_name)), FormModel::Vector(seq![sym_m("setup"@), sym_m("topologies"@)])]
            + depots.map_values(|d: &DepotDecl| depot_decl_spec(*d)) + seq![
            FormModel::List(
                seq![
                    sym_m("let"@),
                    FormModel::Vector(
                        seq![sym_m("s"@), FormModel::List(seq![sym_m("stream-topology"@), sym_m("topologies"@), FormModel::String(topology)])],
                    ),
                ] + pstates.map_values(|p: &PStateDecl| pstate_decl_spec(*p, program)) + if depots.len() > 0 {
                    seq![sources_spec(*depots[0], ops, bodies)]
                } else {
                    Seq::empty()
                },
            ),
        ],
    )
}

fn depot_decl_form(d: &DepotDecl) -> (out: Form)
    ensures
        model(out) == depot_decl_spec(*d),
{
    let key = partitioner_name(d);
    let hashed = clj::call1("hash-by", clj::sym(key.as_str()));
    clj::call3("declare-depot", clj::sym("setup"), clj::sym(crate::emit_clj::ops::starred(d.name.node.as_str()).as_str()), hashed)
}

fn pstate_decl_form(p: &PStateDecl, program: &Program<'_>) -> (out: Form)
    ensures
        model(out) == pstate_decl_spec(*p, *program),
{
    clj::call3("declare-pstate", clj::sym("s"), pstate_symbol(p.name.node.as_str()), pstate_type_form(&p.ty.node, program))
}

/// The forms of one `<<switch` case.
fn op_case_forms(op: &OpDef, op_bodies: &Vec<(String, Vec<Form>)>) -> (out: Vec<Form>)
    ensures
        clj::models(out@) == op_case_spec(*op, op_bodies@),
{
    let mut forms: Vec<Form> = Vec::new();
    let head = clj::call1("case>", clj::string(op.name.node.as_str()));
    forms.push(head);
    proof {
        clj::lemma_models_from_elements(forms@, seq![model(head)]);
    }
    match body_for(op_bodies, op.name.node.as_str()) {
        Some(inlined) => {
            let mut copy = clj::clone_forms(inlined);
            let ghost a = forms@;
            let ghost b = copy@;
            forms.append(&mut copy);
            proof {
                clj::lemma_models_index(a);
                clj::lemma_models_index(b);
                clj::lemma_models_index(inlined@);
                clj::lemma_models_index(forms@);
                assert(clj::models(forms@) =~= clj::models(a) + clj::models(inlined@));
            }
        }
        None => {
            let mut name = owned(op.name.node.as_str());
            name.push_str(">");
            let mut call: Vec<Form> = Vec::new();
            call.push(clj::sym(name.as_str()));
            call.push(clj::sym("*event"));
            let names = op_pstates(&op.body);
            proof {
                let asc = clj_verify::ascending(ops::stmts_pstates(op.body.stmts@));
                assert(crate::text::sorted_unique(asc) && forall|x: Seq<char>| asc.contains(x) <==> ops::stmts_pstates(op.body.stmts@).contains(x));
                crate::text::lemma_sorted_unique_determined(asc, crate::text::views(names@));
            }
            let ghost want = seq![sym_m(op.name.node@ + ">"@), sym_m("*event"@)] + pstate_args(*op);
            let mut n: usize = 0;
            while n < names.len()
                invariant
                    n <= names.len(),
                    call@.len() == n + 2,
                    want == seq![sym_m(op.name.node@ + ">"@), sym_m("*event"@)] + pstate_args(*op),
                    crate::text::views(names@) == clj_verify::ascending(ops::stmts_pstates(op.body.stmts@)),
                    forall|k: int| 0 <= k < n + 2 ==> model(#[trigger] call@[k]) == want[k],
                decreases names.len() - n,
            {
                assert(crate::text::views(names@)[n as int] == names@[n as int]@);
                call.push(pstate_symbol(names[n].as_str()));
                n += 1;
            }
            proof {
                clj::lemma_models_from_elements(call@, want);
            }
            let c = Form::List(call);
            let ghost a = forms@;
            forms.push(c);
            proof {
                clj::lemma_models_push(a, c);
            }
        }
    }
    forms
}

/// `(ack-return> {"ok" false "error" "unknown-type" "type" *__type})`.
fn unknown_type_form() -> (out: Form)
    ensures
        model(out) == unknown_type_spec(),
{
    let entries = vec![
        (clj::string("ok"), clj::bool(false)),
        (clj::string("error"), clj::string("unknown-type")),
        (clj::string("type"), clj::sym("*__type")),
    ];
    proof {
        clj::lemma_pair_models_index(entries@);
        assert(clj::pair_models(entries@) =~= unknown_type_spec()->List_0[1]->MapLit_0);
    }
    clj::call1("ack-return>", clj::map(entries))
}

/// The `<<switch` over the ops.
fn switch_form(ops: &Vec<&OpDef>, op_bodies: &Vec<(String, Vec<Form>)>) -> (out: Form)
    ensures
        model(out) == switch_spec(ops@, op_bodies@),
{
    let mut switch: Vec<Form> = Vec::new();
    switch.push(clj::sym("<<switch"));
    switch.push(clj::sym("*__type"));
    let ghost head = seq![sym_m("<<switch"@), sym_m("*__type"@)];
    proof {
        clj::lemma_models_from_elements(switch@, head);
        assert(ops@.take(0) =~= Seq::<&OpDef>::empty());
        assert(clj::models(switch@) =~= head + op_cases_spec(ops@.take(0), op_bodies@));
    }
    let mut k: usize = 0;
    while k < ops.len()
        invariant
            k <= ops.len(),
            clj::models(switch@) == head + op_cases_spec(ops@.take(k as int), op_bodies@),
        decreases ops.len() - k,
    {
        proof {
            assert(ops@.take(k + 1).drop_last() =~= ops@.take(k as int));
            assert(ops@.take(k + 1).last() == ops@[k as int]);
        }
        let mut case = op_case_forms(ops[k], op_bodies);
        let ghost a = switch@;
        let ghost b = case@;
        switch.append(&mut case);
        proof {
            clj::lemma_models_index(a);
            clj::lemma_models_index(b);
            clj::lemma_models_index(switch@);
            assert(clj::models(switch@) =~= clj::models(a) + clj::models(b));
        }
        k += 1;
    }
    assert(ops@.take(ops@.len() as int) =~= ops@);
    let d = clj::call("default>", Vec::new());
    proof {
        assert(clj::models(Seq::<Form>::empty()) =~= Seq::<FormModel>::empty());
        assert(seq![sym_m("default>"@)] + Seq::<FormModel>::empty() =~= seq![sym_m("default>"@)]);
    }
    let u = unknown_type_form();
    let ghost before = switch@;
    switch.push(d);
    switch.push(u);
    proof {
        clj::lemma_models_push(before, d);
        clj::lemma_models_push(before.push(d), u);
        assert(clj::models(switch@) =~= head + op_cases_spec(ops@, op_bodies@) + seq![FormModel::List(seq![sym_m("default>"@)]), unknown_type_spec()]);
    }
    Form::List(switch)
}

/// The module form: depots, pstates, and a `<<sources` topology that
/// dispatches each depot event on its `"type"` through one flat
/// `<<switch`.
fn defmodule_form(
    module_name: &str,
    topology: &str,
    depots: &Vec<&DepotDecl>,
    pstates: &Vec<&PStateDecl>,
    ops: &Vec<&OpDef>,
    op_bodies: &Vec<(String, Vec<Form>)>,
    program: &Program<'_>,
) -> (out: Form)
    ensures
        model(out) == defmodule_spec(module_name@, topology@, depots@, pstates@, ops@, op_bodies@, *program),
{
    let ghost depot_models = depots@.map_values(|d: &DepotDecl| depot_decl_spec(*d));
    let ghost pstate_models = pstates@.map_values(|p: &PStateDecl| pstate_decl_spec(*p, *program));
    let mut body: Vec<Form> = Vec::new();
    let mut i: usize = 0;
    while i < depots.len()
        invariant
            i <= depots.len(),
            body@.len() == i,
            depot_models == depots@.map_values(|d: &DepotDecl| depot_decl_spec(*d)),
            forall|q: int| 0 <= q < i ==> model(#[trigger] body@[q]) == depot_models[q],
        decreases depots.len() - i,
    {
        body.push(depot_decl_form(depots[i]));
        i += 1;
    }
    let mut let_body: Vec<Form> = Vec::new();
    let mut j: usize = 0;
    while j < pstates.len()
        invariant
            j <= pstates.len(),
            let_body@.len() == j,
            pstate_models == pstates@.map_values(|p: &PStateDecl| pstate_decl_spec(*p, *program)),
            forall|q: int| 0 <= q < j ==> model(#[trigger] let_body@[q]) == pstate_models[q],
        decreases pstates.len() - j,
    {
        let_body.push(pstate_decl_form(pstates[j], program));
        j += 1;
    }
    proof {
        clj::lemma_models_from_elements(let_body@, pstate_models);
        clj::lemma_models_from_elements(body@, depot_models);
    }
    let ghost tail_models = if depots@.len() > 0 { seq![sources_spec(*depots@[0], ops@, op_bodies@)] } else { Seq::<FormModel>::empty() };
    if depots.len() > 0 {
        let d = depots[0];
        let source = clj::call3("source>", clj::sym(crate::emit_clj::ops::starred(d.name.node.as_str()).as_str()), clj::sym(":>"), clj::sym("*event"));
        let get_args = vec![clj::sym("*event"), clj::string("type"), clj::sym(":>"), clj::sym("*__type")];
        proof {
            clj::lemma_models_from_elements(get_args@, seq![sym_m("*event"@), FormModel::String("type"@), sym_m(":>"@), sym_m("*__type"@)]);
        }
        let get = clj::call("get", get_args);
        let sw = switch_form(ops, op_bodies);
        let sources = vec![clj::sym("<<sources"), clj::sym("s"), source, get, sw];
        proof {
            assert(model(get) == FormModel::List(seq![sym_m("get"@), sym_m("*event"@), FormModel::String("type"@), sym_m(":>"@), sym_m("*__type"@)])) by {
                assert(seq![sym_m("get"@)] + seq![sym_m("*event"@), FormModel::String("type"@), sym_m(":>"@), sym_m("*__type"@)] =~= seq![
                    sym_m("get"@),
                    sym_m("*event"@),
                    FormModel::String("type"@),
                    sym_m(":>"@),
                    sym_m("*__type"@),
                ]);
            }
            clj::lemma_models_from_elements(sources@, sources_spec(*d, ops@, op_bodies@)->List_0);
        }
        let ghost before = let_body@;
        let_body.push(Form::List(sources));
        proof {
            clj::lemma_models_push(before, let_body@.last());
        }
    }
    let topo = clj::call2("stream-topology", clj::sym("topologies"), clj::string(topology));
    let binding = vec![clj::sym("s"), topo];
    proof {
        clj::lemma_models_from_elements(binding@, seq![sym_m("s"@), model(topo)]);
    }
    let mut let_elems: Vec<Form> = vec![clj::sym("let"), clj::vector(binding)];
    let ghost le = let_elems@;
    let ghost lb = let_body@;
    let_elems.append(&mut let_body);
    proof {
        clj::lemma_models_index(le);
        clj::lemma_models_index(lb);
        clj::lemma_models_index(let_elems@);
        assert(clj::models(lb) == pstate_models + tail_models);
        assert(clj::models(let_elems@) =~= clj::models(le) + clj::models(lb));
        assert(model(topo) == FormModel::List(seq![sym_m("stream-topology"@), sym_m("topologies"@), FormModel::String(topology@)]));
        assert(clj::models(le) =~= seq![
            sym_m("let"@),
            FormModel::Vector(
                seq![sym_m("s"@), FormModel::List(seq![sym_m("stream-topology"@), sym_m("topologies"@), FormModel::String(topology@)])],
            ),
        ]);
        assert(clj::models(let_elems@) =~= seq![
            sym_m("let"@),
            FormModel::Vector(
                seq![sym_m("s"@), FormModel::List(seq![sym_m("stream-topology"@), sym_m("topologies"@), FormModel::String(topology@)])],
            ),
        ] + pstate_models + tail_models);
    }
    let let_form = Form::List(let_elems);
    let ghost bb = body@;
    body.push(let_form);
    proof {
        clj::lemma_models_push(bb, let_form);
    }
    let class_name = module_type_name(module_name);
    let params = vec![clj::sym("setup"), clj::sym("topologies")];
    proof {
        clj::lemma_models_from_elements(params@, seq![sym_m("setup"@), sym_m("topologies"@)]);
    }
    let mut mod_elems: Vec<Form> = vec![clj::sym("defmodule"), clj::sym(class_name.as_str()), clj::vector(params)];
    let ghost me = mod_elems@;
    let ghost bd = body@;
    mod_elems.append(&mut body);
    proof {
        clj::lemma_models_index(me);
        clj::lemma_models_index(bd);
        clj::lemma_models_index(mod_elems@);
        assert(clj::models(mod_elems@) =~= clj::models(me) + clj::models(bd));
        assert(clj::models(me) =~= seq![sym_m("defmodule"@), sym_m(module_type_name_spec(module_name@)), FormModel::Vector(seq![sym_m("setup"@), sym_m("topologies"@)])]);
        let let_model = FormModel::List(
            seq![
                sym_m("let"@),
                FormModel::Vector(
                    seq![sym_m("s"@), FormModel::List(seq![sym_m("stream-topology"@), sym_m("topologies"@), FormModel::String(topology@)])],
                ),
            ] + pstate_models + tail_models,
        );
        assert(model(topo) == FormModel::List(seq![sym_m("stream-topology"@), sym_m("topologies"@), FormModel::String(topology@)]));
        assert(clj::models(le) =~= seq![
            sym_m("let"@),
            FormModel::Vector(
                seq![sym_m("s"@), FormModel::List(seq![sym_m("stream-topology"@), sym_m("topologies"@), FormModel::String(topology@)])],
            ),
        ]);
        assert(model(let_form) == let_model);
        assert(clj::models(bd) =~= depot_models.push(let_model));
        assert(clj::models(mod_elems@) =~= defmodule_spec(module_name@, topology@, depots@, pstates@, ops@, op_bodies@, *program)->List_0);
    }
    Form::List(mod_elems)
}

/// The inlined body recorded for the op `name`, the last one if repeated.
fn body_for<'b>(bodies: &'b Vec<(String, Vec<Form>)>, name: &str) -> (out: Option<&'b Vec<Form>>)
    ensures
        match out {
            Some(b) => last_body(bodies@, name@) == Some(b@),
            None => last_body(bodies@, name@) is None,
        },
        out matches Some(b) ==> exists|k: int| 0 <= k < bodies@.len() && (#[trigger] bodies@[k]).0@ == name@ && bodies@[k].1 == *b
            && forall|j: int| k < j < bodies@.len() ==> (#[trigger] bodies@[j]).0@ != name@,
        out is None ==> forall|k: int| 0 <= k < bodies@.len() ==> (#[trigger] bodies@[k]).0@ != name@,
{
    let mut i = bodies.len();
    assert(bodies@.take(i as int) =~= bodies@);
    while i > 0
        invariant
            i <= bodies.len(),
            forall|k: int| i <= k < bodies@.len() ==> (#[trigger] bodies@[k]).0@ != name@,
            last_body(bodies@, name@) == last_body(bodies@.take(i as int), name@),
        decreases i,
    {
        assert(bodies@.take(i as int).drop_last() =~= bodies@.take(i - 1));
        assert(bodies@.take(i as int).last() == bodies@[i - 1]);
        if str_eq(bodies[i - 1].0.as_str(), name) {
            assert(bodies@[i - 1].0@ == name@);
            return Some(&bodies[i - 1].1);
        }
        i -= 1;
    }
    None
}

/// Whether the program needs the runtime contract helpers: it has typed
/// functions or externs.
fn has_runtime_contracts(typing: &Typing) -> (r: bool)
    ensures
        r == (typing.functions@.len() > 0 || typing.externs@.len() > 0),
{
    typing.functions.len() > 0 || typing.externs.len() > 0
}

/// `;; struct Name {:field Type …}` for a struct declaration.
fn struct_comment(s: &crate::ast::StructDecl, program: &Program<'_>) -> (out: Form) {
    let mut fields: Vec<String> = Vec::new();
    let mut i: usize = 0;
    while i < s.fields.len()
        invariant
            i <= s.fields.len(),
        decreases s.fields.len() - i,
    {
        let f = &s.fields[i];
        let shown = clj::render(&type_form(&f.ty.node, program));
        fields.push(cat(vec![":", f.name.node.as_str(), " ", shown.as_str()]));
        i += 1;
    }
    let joined = join(&fields, " ");
    clj::comment(cat(vec!["struct ", s.name.node.as_str(), " {", joined.as_str(), "}"]).as_str())
}

/// A typed function's body wrapped in runtime contracts: its arguments are
/// checked on entry and its result on exit, and extern calls go through
/// their dispatchers.
fn contracted_body(
    function: &crate::ast::FnDef,
    typed: &types::TypedFunction,
    body: Form,
    wrappers: &Vec<(String, String)>,
    typing: &Typing,
) -> (out: Form)
    ensures
        model(out) == with_argument_checks(
            function.name.node@,
            typed.params@,
            typing.table@,
            contract_spec(typing.table@, typed.return_type, function.name.node@ + " return"@, rewritten(body, wrappers@)),
        ),
{
    let name = function.name.node.as_str();
    let rewritten = rewrite_calls(&body, wrappers);
    let mut return_path = owned(name);
    return_path.push_str(" return");
    let mut out = contract_call(typed.return_type, return_path.as_str(), rewritten, &typing.table);
    let ghost core = model(out);
    let mut k = typed.params.len();
    assert(typed.params@.take(k as int) =~= typed.params@);
    while k > 0
        invariant
            k <= typed.params.len(),
            with_argument_checks(name@, typed.params@.take(k as int), typing.table@, model(out)) == with_argument_checks(
                name@,
                typed.params@,
                typing.table@,
                core,
            ),
        decreases k,
    {
        proof {
            assert(typed.params@.take(k as int).drop_last() =~= typed.params@.take(k - 1));
            assert(typed.params@.take(k as int).last() == typed.params@[k - 1]);
        }
        k -= 1;
        let param = typed.params[k].0.as_str();
        let mut argument_path = owned(name);
        argument_path.push_str(" argument `");
        argument_path.push_str(param);
        argument_path.push_str("`");
        let checked = contract_call(typed.params[k].1, argument_path.as_str(), clj::sym(param), &typing.table);
        let binding = vec![clj::sym(param), checked];
        let bound = clj::vector(binding);
        let args = vec![bound, out];
        let ghost inner = model(out);
        proof {
            clj::lemma_models_from_elements(binding@, seq![FormModel::Symbol(param@), model(checked)]);
            clj::lemma_models_from_elements(args@, seq![model(bound), inner]);
            assert(seq![FormModel::Symbol("let"@)] + seq![model(bound), inner] =~= seq![FormModel::Symbol("let"@), model(bound), inner]);
        }
        out = clj::call("let", args);
    }
    out
}

/// `(let [p (check p)] body)` around `body` for each parameter, the first
/// parameter outermost.
pub open spec fn with_argument_checks(name: Seq<char>, params: Seq<(String, TypeId)>, table: Seq<TypeModel>, body: FormModel) -> FormModel
    decreases params.len(),
{
    if params.len() == 0 {
        body
    } else {
        let p = params.last();
        with_argument_checks(
            name,
            params.drop_last(),
            table,
            FormModel::List(
                seq![
                    FormModel::Symbol("let"@),
                    FormModel::Vector(
                        seq![
                            FormModel::Symbol(p.0@),
                            contract_spec(table, p.1, name + " argument `"@ + p.0@ + "`"@, FormModel::Symbol(p.0@)),
                        ],
                    ),
                    body,
                ],
            ),
        )
    }
}

/// Whether a later depot declares the same name (the later one counts).
fn depot_shadowed(depots: &Vec<&DepotDecl>, i: usize) -> (r: bool)
    requires
        i < depots.len(),
    ensures
        r == exists|j: int| i < j < depots@.len() && (#[trigger] depots@[j]).name.node@ == depots@[i as int].name.node@,
{
    let mut j = i + 1;
    while j < depots.len()
        invariant
            i < j <= depots.len(),
            forall|k: int| i < k < j ==> (#[trigger] depots@[k]).name.node@ != depots@[i as int].name.node@,
        decreases depots.len() - j,
    {
        if str_eq(depots[j].name.node.as_str(), depots[i].name.node.as_str()) {
            return true;
        }
        j += 1;
    }
    false
}

/// The parameter vector of a `defn`: one symbol per parameter, in order.
pub open spec fn param_symbols(params: Seq<Param>) -> Seq<FormModel> {
    params.map_values(|p: Param| FormModel::Symbol(p.name.node@))
}

/// `(deframaop op> [*event $$p …] …)` for an op without partition hops.
pub open spec fn deframaop_form(f: Form, op: OpDef) -> bool {
    model(f) matches FormModel::List(ms) && ms.len() >= 3 && ms[0] == sym_m("deframaop"@) && ms[1] == sym_m(op.name.node@ + ">"@)
        && ms[2] == FormModel::Vector(seq![sym_m("*event"@)] + pstate_args(op))
}

/// An op item is emitted: one with a `|hash` hop has its body recorded for
/// inlining into the module's `<<switch`, any other gets its own
/// `deframaop`.
pub open spec fn op_emitted(item: Item, forms: Seq<Form>, bodies: Seq<(String, Vec<Form>)>) -> bool {
    match item {
        Item::Op(op) => if ops::stmts_have_hop(op.body.stmts@) {
            last_body(bodies, op.name.node@) is Some
        } else {
            exists|k: int| 0 <= k < forms.len() && #[trigger] deframaop_form(forms[k], op)
        },
        _ => true,
    }
}

/// Some op of `items` named `name` has a partition hop.
pub open spec fn hop_op_named(items: Seq<Item>, name: Seq<char>) -> bool {
    exists|j: int| 0 <= j < items.len() && ((#[trigger] items[j]) matches Item::Op(op) && op.name.node@ == name
        && ops::stmts_have_hop(op.body.stmts@))
}

proof fn lemma_op_emitted_grow(
    item: Item,
    small: Seq<Form>,
    big: Seq<Form>,
    bodies_small: Seq<(String, Vec<Form>)>,
    bodies_big: Seq<(String, Vec<Form>)>,
)
    requires
        op_emitted(item, small, bodies_small),
        small.len() <= big.len(),
        big.take(small.len() as int) == small,
        forall|t: Seq<char>| #[trigger] last_body(bodies_small, t) is Some ==> last_body(bodies_big, t) is Some,
    ensures
        op_emitted(item, big, bodies_big),
{
    if let Item::Op(op) = item {
        if !ops::stmts_have_hop(op.body.stmts@) {
            let k = choose|k: int| 0 <= k < small.len() && #[trigger] deframaop_form(small[k], op);
            assert(big.take(small.len() as int)[k] == big[k]);
            assert(deframaop_form(big[k], op));
        }
    }
}

/// `$$p` forms for the pstates an op touches, ascending.
fn pstate_arg_forms(op: &OpDef) -> (out: Vec<Form>)
    ensures
        clj::models(out@) == pstate_args(*op),
{
    let names = op_pstates(&op.body);
    proof {
        let asc = clj_verify::ascending(ops::stmts_pstates(op.body.stmts@));
        assert(crate::text::sorted_unique(asc) && forall|x: Seq<char>| asc.contains(x) <==> ops::stmts_pstates(op.body.stmts@).contains(x));
        crate::text::lemma_sorted_unique_determined(asc, crate::text::views(names@));
    }
    let mut out: Vec<Form> = Vec::new();
    let mut n: usize = 0;
    while n < names.len()
        invariant
            n <= names.len(),
            out@.len() == n,
            crate::text::views(names@) == clj_verify::ascending(ops::stmts_pstates(op.body.stmts@)),
            forall|k: int| 0 <= k < n ==> model(#[trigger] out@[k]) == pstate_args(*op)[k],
        decreases names.len() - n,
    {
        assert(crate::text::views(names@)[n as int] == names@[n as int]@);
        out.push(pstate_symbol(names[n].as_str()));
        n += 1;
    }
    proof {
        clj::lemma_models_from_elements(out@, pstate_args(*op));
    }
    out
}

/// The document ends with the module form over the program's depots,
/// pstates and ops, in source order, for some recording of the inlined
/// op bodies.
pub open spec fn module_closes(program: Program, forms: Seq<Form>) -> bool {
    forms.len() > 0 && exists|ds: Seq<&DepotDecl>, ps: Seq<&PStateDecl>, os: Seq<&OpDef>, bodies: Seq<(String, Vec<Form>)>|
        crate::rama_ir::deref_depots(ds) == crate::rama_ir::depots_in(program.source.items@)
            && crate::rama_ir::deref_pstates(ps) == crate::rama_ir::pstates_in(program.source.items@)
            && crate::rama_ir::deref_operations(os) == crate::rama_ir::operations_in(program.source.items@)
            && model(forms.last()) == defmodule_spec(program.module_name@, program.topology@, ds, ps, os, bodies, program)
            && (forall|k: int| 0 <= k < bodies.len() ==> hop_op_named(program.source.items@, #[trigger] bodies[k].0@))
            && (forall|j: int| 0 <= j < program.source.items@.len() ==> op_emitted(#[trigger] program.source.items@[j], forms, bodies))
}

/// `(defn NAME [PARAMS…] BODY)`.
pub open spec fn defn_form(f: Form, name: Seq<char>, params: Seq<Param>) -> bool {
    f matches Form::List(xs) && xs@.len() == 4 && (xs@[0] matches Form::Symbol(h) && h@ == "defn"@)
        && (xs@[1] matches Form::Symbol(n) && n@ == name) && model(xs@[2]) == FormModel::Vector(param_symbols(params))
}

/// Some form defines the function `name` with these parameters.
pub open spec fn defines(forms: Seq<Form>, name: Seq<char>, params: Seq<Param>) -> bool {
    exists|k: int| 0 <= k < forms.len() && #[trigger] defn_form(forms[k], name, params)
}

/// A dispatcher entry: an extern's name and `__rama_extern_` followed by
/// the name made a safe symbol.
pub open spec fn wrapper_named(w: (String, String)) -> bool {
    w.1@ == "__rama_extern_"@ + w.0@.map_values(|c: char| crate::types::model::sanitize_char(c))
}

pub open spec fn wrappers_named(ws: Seq<(String, String)>) -> bool {
    forall|k: int| 0 <= k < ws.len() ==> wrapper_named(#[trigger] ws[k])
}

/// A typed function's body: its lowering with extern calls sent to their
/// dispatchers, its result checked against its return type, and each
/// argument checked against its parameter type.
pub open spec fn contracted_shape(
    body: FormModel,
    lowered: Form,
    typed: types::TypedFunction,
    table: Seq<TypeModel>,
    ws: Seq<(String, String)>,
    f: crate::ast::FnDef,
) -> bool {
    &&& model(lowered) == lower::fn_stmts_spec(f.body.stmts@)
    &&& wrappers_named(ws)
    &&& body == with_argument_checks(
        f.name.node@,
        typed.params@,
        table,
        contract_spec(table, typed.return_type, f.name.node@ + " return"@, rewritten(lowered, ws)),
    )
}

/// The extern wrappers as names: each with its dispatcher's name.
pub open spec fn wrapper_views(ws: Seq<(String, String)>) -> Seq<(Seq<char>, Seq<char>)> {
    ws.map_values(|w: (String, String)| (w.0@, w.1@))
}

/// The dispatcher names of a typing's externs, in order.
pub open spec fn extern_wrapper_views(externs: Seq<(String, Vec<types::TypedExtern>)>) -> Seq<(Seq<char>, Seq<char>)> {
    externs.map_values(
        |e: (String, Vec<types::TypedExtern>)| (e.0@, "__rama_extern_"@ + e.0@.map_values(|c: char| crate::types::model::sanitize_char(c))),
    )
}

/// The body a `defn` of `f` carries under `typing`: for a function the
/// checker typed, the lowering of its body with extern calls sent to the
/// typing's dispatchers, wrapped in the runtime contracts of its inferred
/// types; otherwise the plain lowering.
pub open spec fn fn_body_ok(body: FormModel, f: crate::ast::FnDef, typing: types::Typing) -> bool {
    match crate::types::model::function_lookup(typing.functions@, f.name.node@) {
        Some(typed) => exists|lowered: Form, ws: Seq<(String, String)>|
            #[trigger] contracted_shape(body, lowered, typed, typing.table@, ws, f) && wrapper_views(ws) == extern_wrapper_views(
                typing.externs@,
            ),
        None => body == lower::fn_stmts_spec(f.body.stmts@),
    }
}

/// `(defn NAME [PARAMS…] BODY)` for `f`, with the body `fn_body_ok` gives.
pub open spec fn fn_defn(form: Form, f: crate::ast::FnDef, typing: types::Typing) -> bool {
    defn_form(form, f.name.node@, f.params@) && fn_body_ok(model(form->List_0@[3]), f, typing)
}

/// Some form is the `defn` of `f`.
pub open spec fn defines_fn(forms: Seq<Form>, f: crate::ast::FnDef, typing: types::Typing) -> bool {
    exists|k: int| 0 <= k < forms.len() && #[trigger] fn_defn(forms[k], f, typing)
}

/// What `types::analyze` guarantees of its result for these items: a
/// well-formed typing that records every function with annotations or casts.
pub open spec fn analyzed_items(items: Seq<Item>, typing: types::Typing) -> bool {
    &&& typing.wf()
    &&& forall|j: int| 0 <= j < items.len() ==> match #[trigger] items[j] {
        Item::Fn(f) => typed_function_spec(f) ==> crate::types::model::has_function(typing.functions@, f.name.node@),
        _ => true,
    }
}

/// The forms that follow `ns`: the runtime-contract helpers when anything
/// is typed, then one dispatcher per extern, in order.
pub open spec fn preamble_spec(typing: types::Typing) -> Seq<FormModel> {
    (if typing.functions@.len() > 0 || typing.externs@.len() > 0 {
        seq![runtime::tape_atom_spec(), runtime::record_spec(), runtime::contract_fn_spec()]
    } else {
        Seq::empty()
    }) + typing.externs@.map_values(
        |e: (String, Vec<types::TypedExtern>)|
            runtime::dispatcher_spec(
                typing.table@,
                e.0@,
                "__rama_extern_"@ + e.0@.map_values(|c: char| crate::types::model::sanitize_char(c)),
                e.1@,
            ),
    )
}

/// The forms after the header and `ns` begin with the preamble of `typing`,
/// and every `fn` has its `defn` under `typing`.
pub open spec fn compiled_with(forms: Seq<Form>, items: Seq<Item>, typing: types::Typing) -> bool {
    &&& forms.len() >= 2 + preamble_spec(typing).len()
    &&& clj::models(forms.subrange(2, 2 + preamble_spec(typing).len() as int)) == preamble_spec(typing)
    &&& fns_defined(forms, items, typing)
}

/// Every `fn` among the items has its `defn` under `typing`.
pub open spec fn fns_defined(forms: Seq<Form>, items: Seq<Item>, typing: types::Typing) -> bool {
    forall|j: int| 0 <= j < items.len() ==> match #[trigger] items[j] {
        Item::Fn(f) => defines(forms, f.name.node@, f.params@) && defines_fn(forms, f, typing),
        _ => true,
    }
}

proof fn lemma_wrapper_views_push(
    prev: Seq<(String, String)>,
    ws: Seq<(String, String)>,
    externs: Seq<(String, Vec<types::TypedExtern>)>,
    e: int,
)
    requires
        0 <= e < externs.len(),
        wrapper_views(prev) == extern_wrapper_views(externs.take(e)),
        ws.len() == prev.len() + 1,
        forall|k: int| 0 <= k < prev.len() ==> ws[k] == prev[k],
        ws.last().0@ == externs[e].0@,
        ws.last().1@ == "__rama_extern_"@ + externs[e].0@.map_values(|c: char| crate::types::model::sanitize_char(c)),
    ensures
        wrapper_views(ws) == extern_wrapper_views(externs.take(e + 1)),
{
    assert(wrapper_views(prev).len() == prev.len());
    assert(externs.take(e).len() == e);
    assert(prev.len() == e);
    assert(wrapper_views(ws).len() == e + 1);
    assert(extern_wrapper_views(externs.take(e + 1)).len() == e + 1);
    assert forall|k: int| 0 <= k < ws.len() implies #[trigger] wrapper_views(ws)[k] == extern_wrapper_views(externs.take(e + 1))[k] by {
        assert(externs.take(e + 1)[k] == externs[k]);
        if k < prev.len() {
            assert(externs.take(e)[k] == externs[k]);
            assert(wrapper_views(prev)[k] == extern_wrapper_views(externs.take(e))[k]);
            assert(ws[k] == prev[k]);
        }
    }
    assert(wrapper_views(ws) =~= extern_wrapper_views(externs.take(e + 1)));
}

proof fn lemma_defines_fn_grow(small: Seq<Form>, big: Seq<Form>, f: crate::ast::FnDef, typing: types::Typing)
    requires
        defines_fn(small, f, typing),
        small.len() <= big.len(),
        big.take(small.len() as int) == small,
    ensures
        defines_fn(big, f, typing),
{
    let k = choose|k: int| 0 <= k < small.len() && #[trigger] fn_defn(small[k], f, typing);
    assert(big.take(small.len() as int)[k] == big[k]);
    assert(fn_defn(big[k], f, typing));
}

proof fn lemma_defines_grow(small: Seq<Form>, big: Seq<Form>, name: Seq<char>, params: Seq<Param>)
    requires
        defines(small, name, params),
        small.len() <= big.len(),
        big.take(small.len() as int) == small,
    ensures
        defines(big, name, params),
{
    let k = choose|k: int| 0 <= k < small.len() && #[trigger] defn_form(small[k], name, params);
    assert(big.take(small.len() as int)[k] == big[k]);
    assert(defn_form(big[k], name, params));
}

/// Core compile step: semantic program → Clojure IR document.
#[verifier::loop_isolation(false)]
#[verifier::rlimit(100)]
pub fn compile_program(program: &Program<'_>) -> (out: Document)
    ensures
        out.forms@.len() >= 2,
        out.forms@[0] matches Form::Comment(c) && c@ == "Generated from .rama v2 — edit the .rama source."@,
        out.forms@[1] matches Form::List(xs) && xs@.len() == 3 && (xs@[0] matches Form::Symbol(h) && h@ == "ns"@)
            && (xs@[1] matches Form::Symbol(n) && n@ == program.namespace@),
        exists|typing: types::Typing| #[trigger] analyzed_items(program.source.items@, typing) && compiled_with(out.forms@, program.source.items@, typing),
        (crate::rama_ir::depots_in(program.source.items@).len() > 0 || crate::rama_ir::pstates_in(program.source.items@).len() > 0)
            ==> module_closes(*program, out.forms@),
{
    let file = program.source;
    let typing = types::analyze(program);
    let mut doc = Document::new();
    doc.push(clj::comment("Generated from .rama v2 — edit the .rama source."));
    let ns_args = vec![
        clj::sym(program.namespace),
        clj::list(
            vec![clj::kw("use"), clj::vector(vec![clj::sym("com.rpl.rama")]), clj::vector(vec![clj::sym("com.rpl.rama.path")])],
        ),
    ];
    let ghost ns_args_view = ns_args@;
    let ns_form = clj::call("ns", ns_args);
    proof {
        let xs = ns_form->List_0;
        assert(xs@.skip(1)[0] == ns_args_view[0]);
        assert(xs@[1] == ns_args_view[0]);
    }
    doc.push(ns_form);
    let ghost head0 = doc.forms@[0];
    let ghost head1 = doc.forms@[1];
    let ghost helper_models: Seq<FormModel> = if typing.functions@.len() > 0 || typing.externs@.len() > 0 {
        seq![runtime::tape_atom_spec(), runtime::record_spec(), runtime::contract_fn_spec()]
    } else {
        Seq::empty()
    };
    if has_runtime_contracts(&typing) {
        let helpers = contract_helper_forms();
        let mut h: usize = 0;
        proof {
            clj::lemma_models_index(helpers@);
            assert(clj::models(doc.forms@.subrange(2, 2)) =~= helper_models.take(0));
        }
        while h < helpers.len()
            invariant
                h <= helpers.len(),
                helpers@.len() == 3,
                clj::models(helpers@) == helper_models,
                doc.forms@.len() == 2 + h,
                doc.forms@[0] == head0,
                doc.forms@[1] == head1,
                clj::models(doc.forms@.subrange(2, 2 + h as int)) == helper_models.take(h as int),
            decreases helpers.len() - h,
        {
            let ghost before = doc.forms@;
            let copy = helpers[h].clone();
            doc.push(copy);
            proof {
                clj::lemma_models_index(helpers@);
                assert(doc.forms@.subrange(2, 2 + h + 1) =~= before.subrange(2, 2 + h as int).push(copy));
                clj::lemma_models_push(before.subrange(2, 2 + h as int), copy);
                assert(helper_models.take(h + 1) =~= helper_models.take(h as int).push(helper_models[h as int]));
            }
            h += 1;
        }
        proof {
            assert(helper_models.take(3) =~= helper_models);
        }
    } else {
        proof {
            assert(clj::models(doc.forms@.subrange(2, 2)) =~= helper_models);
        }
    }
    let ghost after_helpers = doc.forms@;
    let mut wrappers: Vec<(String, String)> = Vec::new();
    let mut e: usize = 0;
    proof {
        assert(wrapper_views(wrappers@) =~= extern_wrapper_views(typing.externs@.take(0)));
    }
    while e < typing.externs.len()
        invariant
            e <= typing.externs.len(),
            wrappers_named(wrappers@),
            wrapper_views(wrappers@) == extern_wrapper_views(typing.externs@.take(e as int)),
            doc.forms@.len() >= 2,
            doc.forms@[0] == head0,
            doc.forms@[1] == head1,
        decreases typing.externs.len() - e,
    {
        let name = typing.externs[e].0.as_str();
        let ghost prev = wrappers@;
        wrappers.push((owned(name), extern_wrapper_name(name)));
        proof {
            lemma_wrapper_views_push(prev, wrappers@, typing.externs@, e as int);
            assert forall|k: int| 0 <= k < wrappers@.len() implies wrapper_named(#[trigger] wrappers@[k]) by {
                if k < prev.len() {
                    assert(wrappers@[k] == prev[k]);
                }
            }
        }
        e += 1;
    }
    proof {
        assert(typing.externs@.take(typing.externs@.len() as int) =~= typing.externs@);
    }
    let ghost dispatch_models = preamble_spec(typing).skip(helper_models.len() as int);
    proof {
        assert(preamble_spec(typing).take(helper_models.len() as int) =~= helper_models);
        assert(dispatch_models.len() == typing.externs@.len());
        assert(clj::models(doc.forms@.subrange(2, doc.forms@.len() as int)) =~= helper_models + dispatch_models.take(0));
    }
    let mut d: usize = 0;
    while d < typing.externs.len()
        invariant
            d <= typing.externs.len(),
            doc.forms@.len() == after_helpers.len() + d,
            after_helpers.len() == 2 + helper_models.len(),
            doc.forms@[0] == head0,
            doc.forms@[1] == head1,
            clj::models(doc.forms@.subrange(2, doc.forms@.len() as int)) == helper_models + dispatch_models.take(d as int),
        decreases typing.externs.len() - d,
    {
        let name = typing.externs[d].0.as_str();
        let wrapper = extern_wrapper_name(name);
        let ghost before = doc.forms@;
        let form = extern_dispatcher_form(name, wrapper.as_str(), &typing.externs[d].1, &typing.table);
        doc.push(form);
        proof {
            assert(doc.forms@.subrange(2, doc.forms@.len() as int) =~= before.subrange(2, before.len() as int).push(form));
            clj::lemma_models_push(before.subrange(2, before.len() as int), form);
            assert(dispatch_models[d as int] == preamble_spec(typing)[helper_models.len() + d]);
            assert(model(form) == dispatch_models[d as int]);
            assert(dispatch_models.take(d + 1) =~= dispatch_models.take(d as int).push(dispatch_models[d as int]));
            assert(helper_models + dispatch_models.take(d + 1) =~= (helper_models + dispatch_models.take(d as int)).push(model(form)));
        }
        d += 1;
    }
    let ghost pre = doc.forms@;
    proof {
        assert(dispatch_models.take(dispatch_models.len() as int) =~= dispatch_models);
        assert(helper_models + dispatch_models =~= preamble_spec(typing));
    }
    let mut i: usize = 0;
    while i < file.items.len()
        invariant
            i <= file.items.len(),
            file == program.source,
            doc.forms@.len() >= 2,
            doc.forms@[0] == head0,
            doc.forms@[1] == head1,
            forall|j: int| 0 <= j < i ==> match #[trigger] file.items@[j] {
                Item::Fn(f) => defines(doc.forms@, f.name.node@, f.params@) && defines_fn(doc.forms@, f, typing),
                _ => true,
            },
            wrapper_views(wrappers@) == extern_wrapper_views(typing.externs@),
            doc.forms@.len() >= pre.len(),
            doc.forms@.take(pre.len() as int) == pre,
        decreases file.items.len() - i,
    {
        let ghost before = doc.forms@;
        match &file.items[i] {
            Item::Struct(s) => {
                doc.push(struct_comment(s, program));
            }
            Item::Fn(func) => {
                let mut params: Vec<Form> = Vec::new();
                let mut p: usize = 0;
                while p < func.params.len()
                    invariant
                        p <= func.params.len(),
                        params@.len() == p,
                        forall|q: int| 0 <= q < p ==> model(#[trigger] params@[q]) == param_symbols(func.params@)[q],
                    decreases func.params.len() - p,
                {
                    params.push(clj::sym(func.params[p].name.node.as_str()));
                    p += 1;
                }
                proof {
                    clj::lemma_models_from_elements(params@, param_symbols(func.params@));
                }
                let lowered = lower::lower_fn_body(&func.body);
                let ghost lowered_copy = lowered;
                let body = match typing.function(func.name.node.as_str()) {
                    Some(typed) => {
                        let b = contracted_body(func, typed, lowered, &wrappers, &typing);
                        proof {
                            assert(crate::types::model::function_lookup(typing.functions@, func.name.node@) == Some(*typed));
                            assert(wrapper_views(wrappers@) == extern_wrapper_views(typing.externs@));
                            let ghost ws = wrappers@;
                            assert(contracted_shape(model(b), lowered_copy, *typed, typing.table@, ws, *func) && wrapper_views(ws)
                                == extern_wrapper_views(typing.externs@));
                            let ghost tf = crate::types::model::function_lookup(typing.functions@, func.name.node@)->Some_0;
                            assert(tf == *typed);
                            assert(exists|lw: Form, w: Seq<(String, String)>|
                                #[trigger] contracted_shape(model(b), lw, tf, typing.table@, w, *func) && wrapper_views(w) == extern_wrapper_views(
                                    typing.externs@,
                                ));
                            assert(fn_body_ok(model(b), *func, typing));
                        }
                        b
                    }
                    None => {
                        proof {
                            assert(!typed_function_spec(*func)) by {
                                if typed_function_spec(*func) {
                                    assert(program.source.items@[i as int] == Item::Fn(*func));
                                }
                            }
                        }
                        lowered
                    },
                };
                let ghost body_model = model(body);
                let defn = clj::call("defn", vec![clj::sym(func.name.node.as_str()), clj::vector(params), body]);
                proof {
                    let xs = defn->List_0;
                    assert(xs@.skip(1)[0] == xs@[1]);
                    assert(defn_form(defn, func.name.node@, func.params@));
                    assert(xs@[3] == xs@.skip(1)[2]);
                    assert(fn_defn(defn, *func, typing));
                }
                doc.push(defn);
                proof {
                    assert(defn_form(doc.forms@[before.len() as int], func.name.node@, func.params@));
                    assert(fn_defn(doc.forms@[before.len() as int], *func, typing));
                }
            }
            _ => {},
        }
        proof {
            assert(doc.forms@.take(before.len() as int) =~= before);
            assert(doc.forms@.take(pre.len() as int) =~= before.take(pre.len() as int));
            assert forall|j: int| 0 <= j < i + 1 implies match #[trigger] file.items@[j] {
                Item::Fn(f) => defines(doc.forms@, f.name.node@, f.params@) && defines_fn(doc.forms@, f, typing),
                _ => true,
            } by {
                if j < i {
                    if let Item::Fn(f) = file.items@[j] {
                        lemma_defines_grow(before, doc.forms@, f.name.node@, f.params@);
                        lemma_defines_fn_grow(before, doc.forms@, f, typing);
                    }
                }
            }
        }
        i += 1;
    }
    let ghost snapshot = doc.forms@;
    let mut k: usize = 0;
    while k < program.depots.len()
        invariant
            k <= program.depots.len(),
            doc.forms@.len() >= 2,
            doc.forms@[0] == head0,
            doc.forms@[1] == head1,
            doc.forms@.len() >= snapshot.len(),
            doc.forms@.take(snapshot.len() as int) == snapshot,
        decreases program.depots.len() - k,
    {
        if !depot_shadowed(&program.depots, k) {
            let depot = program.depots[k];
            doc.push(
                clj::call(
                    "defn",
                    vec![
                        clj::sym(partitioner_name(depot).as_str()),
                        clj::vector(vec![clj::sym("event")]),
                        depot_key_form(depot),
                    ],
                ),
            );
            proof {
                assert(doc.forms@.take(snapshot.len() as int) =~= snapshot);
            }
        }
        k += 1;
    }
    let mut any_long_event_fields = false;
    let mut a: usize = 0;
    while a < file.items.len()
        invariant
            a <= file.items.len(),
        decreases file.items.len() - a,
    {
        if let Item::Op(op) = &file.items[a] {
            if let Some(event) = event_spec(op, program) {
                let mut f: usize = 0;
                while f < event.fields.len()
                    invariant
                        f <= event.fields.len(),
                    decreases event.fields.len() - f,
                {
                    if event.fields[f].1 == FieldCheck::Long {
                        any_long_event_fields = true;
                    }
                    f += 1;
                }
            }
        }
        a += 1;
    }
    if any_long_event_fields {
        doc.push(ops::coerce_longs_helper_form());
        proof {
            assert(doc.forms@.take(snapshot.len() as int) =~= snapshot);
        }
    }
    let mut op_bodies: Vec<(String, Vec<Form>)> = Vec::new();
    let mut depots: Vec<&DepotDecl> = Vec::new();
    let mut pstates: Vec<&PStateDecl> = Vec::new();
    let mut op_defs: Vec<&OpDef> = Vec::new();
    let mut o: usize = 0;
    proof {
        assert(file.items@.take(0) =~= Seq::<Item>::empty());
        assert(crate::rama_ir::deref_depots(depots@) =~= Seq::<DepotDecl>::empty());
        assert(crate::rama_ir::deref_pstates(pstates@) =~= Seq::<PStateDecl>::empty());
        assert(crate::rama_ir::deref_operations(op_defs@) =~= Seq::<OpDef>::empty());
    }
    while o < file.items.len()
        invariant
            o <= file.items.len(),
            file == program.source,
            crate::rama_ir::deref_depots(depots@) == crate::rama_ir::depots_in(file.items@.take(o as int)),
            crate::rama_ir::deref_pstates(pstates@) == crate::rama_ir::pstates_in(file.items@.take(o as int)),
            crate::rama_ir::deref_operations(op_defs@) == crate::rama_ir::operations_in(file.items@.take(o as int)),
            forall|j: int| 0 <= j < o ==> op_emitted(#[trigger] file.items@[j], doc.forms@, op_bodies@),
            forall|k: int| 0 <= k < op_bodies@.len() ==> hop_op_named(file.items@, #[trigger] op_bodies@[k].0@),
            doc.forms@.len() >= 2,
            doc.forms@[0] == head0,
            doc.forms@[1] == head1,
            doc.forms@.len() >= snapshot.len(),
            doc.forms@.take(snapshot.len() as int) == snapshot,
        decreases file.items.len() - o,
    {
        proof {
            assert(file.items@.take(o + 1).drop_last() =~= file.items@.take(o as int));
            assert(file.items@.take(o + 1).last() == file.items@[o as int]);
        }
        let ghost d0 = depots@;
        let ghost p0 = pstates@;
        let ghost op0 = op_defs@;
        let ghost forms0 = doc.forms@;
        let ghost bodies0 = op_bodies@;
        match &file.items[o] {
            Item::Op(op) => {
                op_defs.push(op);
                let (helpers, body) = compile_op_body(op, program);
                let mut h: usize = 0;
                while h < helpers.len()
                    invariant
                        h <= helpers.len(),
                        doc.forms@.len() >= forms0.len(),
                        doc.forms@.take(forms0.len() as int) == forms0,
                        doc.forms@.len() >= 2,
                        doc.forms@[0] == head0,
                        doc.forms@[1] == head1,
                        doc.forms@.len() >= snapshot.len(),
                        doc.forms@.take(snapshot.len() as int) == snapshot,
                    decreases helpers.len() - h,
                {
                    let ghost pre = doc.forms@;
                    doc.push(helpers[h].clone());
                    proof {
                        assert(doc.forms@.take(snapshot.len() as int) =~= snapshot);
                        assert(doc.forms@.take(forms0.len() as int) =~= pre.take(forms0.len() as int));
                    }
                    h += 1;
                }
                let ghost before_op = doc.forms@;
                let ghost bodies_before = op_bodies@;
                if op_has_partitioner(&op.body) {
                    let name = op.name.node.clone();
                    assert(name@ == op.name.node@);
                    op_bodies.push((name, body));
                    proof {
                        assert(op_bodies@.drop_last() =~= bodies_before);
                        assert(last_body(op_bodies@, op.name.node@) is Some);
                        assert(hop_op_named(file.items@, op_bodies@.last().0@)) by {
                            assert(file.items@[o as int] == Item::Op(*op));
                        }
                        assert forall|t: Seq<char>| #[trigger] last_body(bodies_before, t) is Some implies last_body(op_bodies@, t) is Some by {
                            if op_bodies@.last().0@ != t {
                                assert(last_body(op_bodies@, t) == last_body(bodies_before, t));
                            }
                        }
                    }
                } else {
                    let mut params: Vec<Form> = vec![clj::sym("*event")];
                    let mut args = pstate_arg_forms(op);
                    let ghost pa = args@;
                    params.append(&mut args);
                    proof {
                        clj::lemma_models_index(params@);
                        clj::lemma_models_index(pa);
                        assert(clj::models(params@) =~= seq![sym_m("*event"@)] + pstate_args(*op));
                    }
                    let mut head_name = owned(op.name.node.as_str());
                    head_name.push_str(">");
                    let mut form: Vec<Form> = vec![clj::sym("deframaop"), clj::sym(head_name.as_str()), clj::vector(params)];
                    let mut body = body;
                    form.append(&mut body);
                    let f = Form::List(form);
                    proof {
                        clj::lemma_models_index(f->List_0@);
                        assert(deframaop_form(f, *op));
                    }
                    doc.push(f);
                    proof {
                        assert(doc.forms@.take(snapshot.len() as int) =~= snapshot);
                        assert(deframaop_form(doc.forms@[before_op.len() as int], *op));
                        assert(doc.forms@.take(forms0.len() as int) =~= before_op.take(forms0.len() as int));
                    }
                }

            }
            Item::Depot(dd) => {
                depots.push(dd);
            }
            Item::PState(pp) => {
                pstates.push(pp);
            }
            _ => {},
        }
        proof {
            assert(op_bodies@.len() >= bodies0.len() && op_bodies@.take(bodies0.len() as int) =~= bodies0) by {
                if op_bodies@.len() > bodies0.len() {
                    assert(op_bodies@.drop_last() == bodies0);
                }
            }
            assert forall|t: Seq<char>| #[trigger] last_body(bodies0, t) is Some implies last_body(op_bodies@, t) is Some by {
                if op_bodies@.len() > bodies0.len() && op_bodies@.last().0@ != t {
                    assert(op_bodies@.drop_last() == bodies0);
                }
            }
            assert(doc.forms@.len() >= forms0.len() && doc.forms@.take(forms0.len() as int) =~= forms0);
            assert forall|j: int| 0 <= j < o + 1 implies op_emitted(#[trigger] file.items@[j], doc.forms@, op_bodies@) by {
                if j < o {
                    lemma_op_emitted_grow(file.items@[j], forms0, doc.forms@, bodies0, op_bodies@);
                }
            }
            assert forall|k: int| 0 <= k < op_bodies@.len() implies hop_op_named(file.items@, #[trigger] op_bodies@[k].0@) by {
                if k < bodies0.len() {
                    assert(op_bodies@[k] == bodies0[k]);
                }
            }
            assert(crate::rama_ir::deref_depots(depots@) =~= crate::rama_ir::deref_depots(d0) + match file.items@[o as int] {
                Item::Depot(d) => seq![d],
                _ => Seq::empty(),
            });
            assert(crate::rama_ir::deref_pstates(pstates@) =~= crate::rama_ir::deref_pstates(p0) + match file.items@[o as int] {
                Item::PState(d) => seq![d],
                _ => Seq::empty(),
            });
            assert(crate::rama_ir::deref_operations(op_defs@) =~= crate::rama_ir::deref_operations(op0) + match file.items@[o as int] {
                Item::Op(d) => seq![d],
                _ => Seq::empty(),
            });
        }
        o += 1;
    }
    proof {
        assert(file.items@.take(file.items@.len() as int) =~= file.items@);
    }
    if depots.len() > 0 || pstates.len() > 0 {
        let m = defmodule_form(program.module_name, program.topology, &depots, &pstates, &op_defs, &op_bodies, program);
        let ghost before_module = doc.forms@;
        doc.push(m);
        proof {
            assert(doc.forms@.take(snapshot.len() as int) =~= snapshot);
            assert(doc.forms@.take(before_module.len() as int) =~= before_module);
            assert forall|j: int| 0 <= j < program.source.items@.len() implies op_emitted(#[trigger] program.source.items@[j], doc.forms@, op_bodies@) by {
                lemma_op_emitted_grow(program.source.items@[j], before_module, doc.forms@, op_bodies@, op_bodies@);
            }
            let ds = depots@;
            let ps = pstates@;
            let os = op_defs@;
            let bs = op_bodies@;
            assert(model(doc.forms@.last()) == defmodule_spec(program.module_name@, program.topology@, ds, ps, os, bs, *program));
            assert(module_closes(*program, doc.forms@));
        }
    } else {
        proof {
            assert(crate::rama_ir::depots_in(program.source.items@).len() == 0);
        }
    }
    proof {
        assert forall|j: int| 0 <= j < program.source.items@.len() implies match #[trigger] program.source.items@[j] {
            Item::Fn(f) => defines(doc.forms@, f.name.node@, f.params@) && defines_fn(doc.forms@, f, typing),
            _ => true,
        } by {
            if let Item::Fn(f) = program.source.items@[j] {
                lemma_defines_grow(snapshot, doc.forms@, f.name.node@, f.params@);
                lemma_defines_fn_grow(snapshot, doc.forms@, f, typing);
            }
        }
        assert(fns_defined(doc.forms@, program.source.items@, typing));
        assert(doc.forms@.take(pre.len() as int) =~= snapshot.take(pre.len() as int));
        assert(doc.forms@.subrange(2, pre.len() as int) =~= pre.subrange(2, pre.len() as int));
        assert(compiled_with(doc.forms@, program.source.items@, typing));
        assert(analyzed_items(program.source.items@, typing));
    }
    doc
}

/// Surface AST → Clojure IR document.
/// What compiling `file` guarantees of the document: the header comment,
/// the `ns` form of the file's namespace, and a `defn` with its parameters
/// for every `fn` of the file.
pub open spec fn compiled(file: SourceFile, doc: Document) -> bool {
    &&& doc.forms@.len() >= 2
    &&& doc.forms@[0] matches Form::Comment(c) && c@ == "Generated from .rama v2 — edit the .rama source."@
    &&& doc.forms@[1] matches Form::List(xs) && xs@.len() == 3 && (xs@[0] matches Form::Symbol(h) && h@ == "ns"@)
        && (xs@[1] matches Form::Symbol(n) && n@ == crate::rama_ir::namespace_in(file.items@))
    &&& exists|typing: types::Typing| #[trigger] analyzed_items(file.items@, typing) && compiled_with(doc.forms@, file.items@, typing)
}

pub fn compile(file: &SourceFile) -> (out: Document)
    ensures
        out.forms@.len() >= 2,
        out.forms@[0] matches Form::Comment(c) && c@ == "Generated from .rama v2 — edit the .rama source."@,
        out.forms@[1] matches Form::List(xs) && xs@.len() == 3 && (xs@[0] matches Form::Symbol(h) && h@ == "ns"@),
        compiled(*file, out),
{
    compile_program(&Program::from_ast(file))
}

/// The rendered Clojure of a file, or the invariants its IR breaks when
/// the compiler produced invalid Clojure IR.
pub fn emit_clojure(file: &SourceFile) -> (out: Result<String, Vec<Issue>>)
    ensures
        out matches Err(issues) ==> issues@.len() > 0,
        exists|doc: Document| #[trigger] compiled(*file, doc) && match out {
            Ok(text) => clj_verify::forms_issues(doc.forms@, false).len() == 0 && text@ == clj::document_text(doc.forms@),
            Err(issues) => clj_verify::issue_views(issues@) == clj_verify::forms_issues(doc.forms@, false),
        },
{
    let doc = compile(file);
    let out = emit_document(&doc);
    assert(compiled(*file, doc));
    out
}

/// A document's source text when its IR passes every check, else the
/// invariants it breaks: source text is only ever the rendering of
/// verified Clojure IR.
pub fn emit_document(doc: &Document) -> (out: Result<String, Vec<Issue>>)
    ensures
        match out {
            Ok(text) => clj_verify::forms_issues(doc.forms@, false).len() == 0 && text@ == clj::document_text(doc.forms@),
            Err(issues) => issues@.len() > 0 && clj_verify::issue_views(issues@) == clj_verify::forms_issues(doc.forms@, false),
        },
{
    let issues = clj_verify::verify(doc);
    if issues.len() > 0 {
        return Err(issues);
    }
    assert(clj_verify::issue_views(issues@).len() == 0);
    Ok(doc.render())
}

} // verus!
