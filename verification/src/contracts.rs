//! Clojure runtime contracts generated directly from value-type annotations.

use vstd::prelude::*;
use crate::ast::ValueTypeExpr;
use crate::clj::{self, model, Form, FormModel};
use crate::text::{decimal_digits, join_seq, owned, str_eq, usize_to_string};

verus! {

/// The JVM class a source type name stands for.
pub open spec fn class_of(path: Seq<char>) -> Seq<char> {
    if path == "String"@ {
        "java.lang.String"@
    } else if path == "Long"@ {
        "java.lang.Long"@
    } else if path == "Int"@ || path == "Integer"@ {
        "java.lang.Integer"@
    } else if path == "Boolean"@ {
        "java.lang.Boolean"@
    } else if path == "Object"@ {
        "java.lang.Object"@
    } else if path == "Number"@ {
        "java.lang.Number"@
    } else if path == "List"@ {
        "java.util.List"@
    } else if path == "Set"@ {
        "java.util.Set"@
    } else if path == "Map"@ {
        "java.util.Map"@
    } else {
        path
    }
}

pub fn resolve_class(path: &str) -> (out: String)
    ensures
        out@ == class_of(path@),
{
    if str_eq(path, "String") {
        owned("java.lang.String")
    } else if str_eq(path, "Long") {
        owned("java.lang.Long")
    } else if str_eq(path, "Int") || str_eq(path, "Integer") {
        owned("java.lang.Integer")
    } else if str_eq(path, "Boolean") {
        owned("java.lang.Boolean")
    } else if str_eq(path, "Object") {
        owned("java.lang.Object")
    } else if str_eq(path, "Number") {
        owned("java.lang.Number")
    } else if str_eq(path, "List") {
        owned("java.util.List")
    } else if str_eq(path, "Set") {
        owned("java.util.Set")
    } else if str_eq(path, "Map") {
        owned("java.util.Map")
    } else {
        owned(path)
    }
}

/// How a value type is written in messages and contract labels.
pub open spec fn vt_display(ty: ValueTypeExpr) -> Seq<char>
    decreases ty,
{
    match ty {
        ValueTypeExpr::Named { path, args } => if args.len() == 0 {
            class_of(path@)
        } else {
            class_of(path@) + seq!['<'] + join_seq(vt_displays(args@), ", "@) + seq!['>']
        },
        ValueTypeExpr::Union(members) => join_seq(vt_displays(members@), " | "@),
        ValueTypeExpr::Function { params, ret } => "Fn<("@ + join_seq(vt_displays(params@), ", "@)
            + ") -> "@ + vt_display(*ret) + seq!['>'],
        ValueTypeExpr::Capability { name, args } => if args.len() == 0 {
            name@
        } else {
            name@ + seq!['<'] + join_seq(vt_displays(args@), ", "@) + seq!['>']
        },
        ValueTypeExpr::Nil => "Nil"@,
        ValueTypeExpr::Unknown => "Unknown"@,
        ValueTypeExpr::Dynamic => "Dynamic"@,
        ValueTypeExpr::Any => "Any"@,
        ValueTypeExpr::Never => "Never"@,
    }
}

pub open spec fn vt_displays(tys: Seq<ValueTypeExpr>) -> Seq<Seq<char>>
    decreases tys,
{
    Seq::new(tys.len(), |i: int| if 0 <= i < tys.len() { vt_display(tys[i]) } else { Seq::empty() })
}

/// Displays of `tys` joined with `sep`.
#[verifier::loop_isolation(false)]
fn display_join(tys: &Vec<ValueTypeExpr>, sep: &str) -> (out: String)
    ensures
        out@ == join_seq(vt_displays(tys@), sep@),
    decreases tys, 0nat,
{
    let mut out = String::new();
    let mut i: usize = 0;
    while i < tys.len()
        invariant
            i <= tys.len(),
            out@ == join_seq(vt_displays(tys@).take(i as int), sep@),
        decreases tys.len() - i,
    {
        proof {
            assert(vt_displays(tys@).take(i + 1).drop_last() =~= vt_displays(tys@).take(i as int));
        }
        if i > 0 {
            out.push_str(sep);
        }
        let d = display(&tys[i]);
        out.push_str(d.as_str());
        i += 1;
    }
    assert(vt_displays(tys@).take(tys.len() as int) =~= vt_displays(tys@));
    out
}

/// `Fn<(A, B) -> R>`, `java.util.List<java.lang.Long>`, `A | B`, …
pub fn display(ty: &ValueTypeExpr) -> (out: String)
    ensures
        out@ == vt_display(*ty),
    decreases ty, 1nat,
{
    match ty {
        ValueTypeExpr::Named { path, args } => {
            let mut out = resolve_class(path.as_str());
            if args.len() > 0 {
                out.push('<');
                out.push_str(display_join(args, ", ").as_str());
                out.push('>');
            }
            out
        }
        ValueTypeExpr::Union(members) => display_join(members, " | "),
        ValueTypeExpr::Function { params, ret } => {
            let mut out = owned("Fn<(");
            out.push_str(display_join(params, ", ").as_str());
            out.push_str(") -> ");
            out.push_str(display(ret).as_str());
            out.push('>');
            out
        }
        ValueTypeExpr::Capability { name, args } => {
            let mut out = name.clone();
            if args.len() > 0 {
                out.push('<');
                out.push_str(display_join(args, ", ").as_str());
                out.push('>');
            }
            out
        }
        ValueTypeExpr::Nil => owned("Nil"),
        ValueTypeExpr::Unknown => owned("Unknown"),
        ValueTypeExpr::Dynamic => owned("Dynamic"),
        ValueTypeExpr::Any => owned("Any"),
        ValueTypeExpr::Never => owned("Never"),
    }
}

/// `(head v)` as a model.
pub open spec fn app1(head: Seq<char>, v: FormModel) -> FormModel {
    FormModel::List(seq![FormModel::Symbol(head), v])
}

/// `(head a b)` as a model.
pub open spec fn app2(head: Seq<char>, a: FormModel, b: FormModel) -> FormModel {
    FormModel::List(seq![FormModel::Symbol(head), a, b])
}

/// `(fn [param] body)` as a model.
pub open spec fn fn1(param: Seq<char>, body: FormModel) -> FormModel {
    FormModel::List(seq![FormModel::Symbol("fn"@), FormModel::Vector(seq![FormModel::Symbol(param)]), body])
}

/// `(__rama_contract! (fn [param] check) "shown" "path" v)` as a model.
pub open spec fn contract_model(check: FormModel, param: Seq<char>, shown: Seq<char>, path: Seq<char>, v: FormModel) -> FormModel {
    FormModel::List(
        seq![
            FormModel::Symbol("__rama_contract!"@),
            fn1(param, check),
            FormModel::String(shown),
            FormModel::String(path),
            v,
        ],
    )
}

/// Classes checked element by element.
pub open spec fn element_class(c: Seq<char>) -> bool {
    c == "java.util.List"@ || c == "java.util.Set"@ || c == "java.util.Collection"@ || c == "java.lang.Iterable"@
}

/// The runtime predicate over `v` for the written type `ty`: `nil?`,
/// `false`, `true` for the gradual types, `or` over union members, `ifn?`,
/// the capability checks, and `instance?` of the resolved class with
/// element, entry and `Long`/`Integer` refinements.
pub open spec fn vt_predicate(ty: ValueTypeExpr, v: FormModel) -> FormModel
    decreases ty,
{
    match ty {
        ValueTypeExpr::Nil => app1("nil?"@, v),
        ValueTypeExpr::Never => FormModel::Bool(false),
        ValueTypeExpr::Any | ValueTypeExpr::Unknown | ValueTypeExpr::Dynamic => FormModel::Bool(true),
        ValueTypeExpr::Union(members) => FormModel::List(seq![FormModel::Symbol("or"@)] + vt_predicates(members@, v)),
        ValueTypeExpr::Function { .. } => app1("ifn?"@, v),
        ValueTypeExpr::Capability { name, args } => if name@ == "Seqable"@ && args@.len() == 1 {
            app1("seqable?"@, v)
        } else if name@ == "Reducible"@ && args@.len() == 1 {
            app2("or"@, app1("seqable?"@, v), app2("instance?"@, FormModel::Symbol("clojure.lang.IReduceInit"@), v))
        } else if name@ == "Countable"@ && args@.len() == 0 {
            FormModel::List(
                seq![FormModel::Symbol("or"@), app1("nil?"@, v), app1("string?"@, v), app1("counted?"@, v)],
            )
        } else if name@ == "Transducer"@ && args@.len() == 2 {
            app1("ifn?"@, v)
        } else {
            FormModel::Bool(false)
        },
        ValueTypeExpr::Named { path, args } => {
            let class = class_of(path@);
            let base = app2("instance?"@, FormModel::Symbol(class), v);
            if element_class(class) && args@.len() == 1 {
                app2(
                    "and"@,
                    base,
                    app2(
                        "every?"@,
                        fn1("__rama_cast_element"@, vt_predicate(args@[0], FormModel::Symbol("__rama_cast_element"@))),
                        v,
                    ),
                )
            } else if class == "java.util.Map"@ && args@.len() == 2 {
                app2(
                    "and"@,
                    base,
                    app2(
                        "every?"@,
                        fn1(
                            "__rama_cast_entry"@,
                            app2(
                                "and"@,
                                vt_predicate(args@[0], app1("key"@, FormModel::Symbol("__rama_cast_entry"@))),
                                vt_predicate(args@[1], app1("val"@, FormModel::Symbol("__rama_cast_entry"@))),
                            ),
                        ),
                        v,
                    ),
                )
            } else if class == "java.lang.Long"@ && args@.len() == 0 {
                app2(
                    "or"@,
                    app2("instance?"@, FormModel::Symbol("java.lang.Long"@), v),
                    app2("instance?"@, FormModel::Symbol("java.lang.Integer"@), v),
                )
            } else {
                base
            }
        },
    }
}

/// The predicates of union members, in order.
pub open spec fn vt_predicates(ms: Seq<ValueTypeExpr>, v: FormModel) -> Seq<FormModel>
    decreases ms,
{
    if ms.len() == 0 {
        Seq::empty()
    } else {
        seq![vt_predicate(ms[0], v)] + vt_predicates(ms.subrange(1, ms.len() as int), v)
    }
}

proof fn lemma_vt_predicates_index(ms: Seq<ValueTypeExpr>, v: FormModel)
    ensures
        vt_predicates(ms, v).len() == ms.len(),
        forall|i: int| 0 <= i < ms.len() ==> (#[trigger] vt_predicates(ms, v)[i]) == vt_predicate(ms[i], v),
    decreases ms.len(),
{
    if ms.len() > 0 {
        let rest = ms.subrange(1, ms.len() as int);
        lemma_vt_predicates_index(rest, v);
        assert forall|i: int| 0 <= i < ms.len() implies (#[trigger] vt_predicates(ms, v)[i]) == vt_predicate(ms[i], v) by {
            if i > 0 {
                assert(vt_predicates(ms, v)[i] == vt_predicates(rest, v)[i - 1]);
                assert(rest[i - 1] == ms[i]);
            }
        }
    }
}

/// The checked arguments of a wrapped function, the first numbered
/// `start`.
pub open spec fn cast_args(params: Seq<ValueTypeExpr>, path: Seq<char>, start: nat) -> Seq<FormModel>
    decreases params,
{
    if params.len() == 0 {
        Seq::empty()
    } else {
        seq![
            checked_at_spec(
                params[0],
                path + " argument "@ + decimal_digits(start),
                FormModel::Symbol("__rama_cast_arg"@ + decimal_digits(start)),
            ),
        ] + cast_args(params.subrange(1, params.len() as int), path, start + 1)
    }
}

proof fn lemma_cast_args_index(params: Seq<ValueTypeExpr>, path: Seq<char>, start: nat)
    ensures
        cast_args(params, path, start).len() == params.len(),
        forall|i: int| 0 <= i < params.len() ==> (#[trigger] cast_args(params, path, start)[i]) == checked_at_spec(
            params[i],
            path + " argument "@ + decimal_digits((start + i) as nat),
            FormModel::Symbol("__rama_cast_arg"@ + decimal_digits((start + i) as nat)),
        ),
    decreases params.len(),
{
    if params.len() > 0 {
        let rest = params.subrange(1, params.len() as int);
        lemma_cast_args_index(rest, path, start + 1);
        assert forall|i: int| 0 <= i < params.len() implies (#[trigger] cast_args(params, path, start)[i]) == checked_at_spec(
            params[i],
            path + " argument "@ + decimal_digits((start + i) as nat),
            FormModel::Symbol("__rama_cast_arg"@ + decimal_digits((start + i) as nat)),
        ) by {
            if i > 0 {
                assert(cast_args(params, path, start)[i] == cast_args(rest, path, start + 1)[i - 1]);
                assert(rest[i - 1] == params[i]);
                assert((start + 1 + (i - 1)) as nat == (start + i) as nat);
            }
        }
    }
}

/// `v` checked against the written type `ty`, labelled `path`: a
/// `__rama_contract!` over the type's predicate, or for a function type a
/// wrapper checking the function and each call's arguments and result.
pub open spec fn checked_at_spec(ty: ValueTypeExpr, path: Seq<char>, v: FormModel) -> FormModel
    decreases ty,
{
    match ty {
        ValueTypeExpr::Function { params, ret } => {
            let checked = contract_model(
                app1("ifn?"@, FormModel::Symbol("__rama_cast_candidate"@)),
                "__rama_cast_candidate"@,
                vt_display(ty),
                path,
                v,
            );
            let args = cast_args(params@, path, 0);
            let invocation = FormModel::List(seq![FormModel::Symbol("__rama_cast_function"@)] + args);
            let result = checked_at_spec(*ret, path + " return"@, invocation);
            FormModel::List(
                seq![
                    FormModel::Symbol("let"@),
                    FormModel::Vector(seq![FormModel::Symbol("__rama_cast_function"@), checked]),
                    FormModel::List(
                        seq![
                            FormModel::Symbol("fn"@),
                            FormModel::Vector(
                                Seq::new(
                                    params@.len(),
                                    |i: int| FormModel::Symbol("__rama_cast_arg"@ + decimal_digits(i as nat)),
                                ),
                            ),
                            result,
                        ],
                    ),
                ],
            )
        },
        _ => contract_model(
            vt_predicate(ty, FormModel::Symbol("__rama_cast_value"@)),
            "__rama_cast_value"@,
            vt_display(ty),
            path,
            v,
        ),
    }
}

/// The label of an `as` cast's contract.
pub open spec fn cast_label(ty: ValueTypeExpr) -> Seq<char> {
    "explicit `as "@ + vt_display(ty) + seq!['`']
}

/// The value wrapped in a runtime check labelled `explicit `as T``.
pub fn checked_as(value: Form, ty: &ValueTypeExpr) -> (out: Form)
    ensures
        model(out) == checked_at_spec(*ty, cast_label(*ty), model(value)),
{
    let mut path = owned("explicit `as ");
    path.push_str(display(ty).as_str());
    path.push('`');
    assert(path@ =~= cast_label(*ty));
    checked_at(value, ty, path.as_str())
}

/// `__rama_contract!` over a check.
fn contract_of(check: Form, param: &str, shown: &str, path: &str, value: Form) -> (out: Form)
    ensures
        model(out) == contract_model(model(check), param@, shown@, path@, model(value)),
{
    let lambda = clj::lambda1(param, check);
    let shown_form = clj::string(shown);
    let path_form = clj::string(path);
    let mut args: Vec<Form> = Vec::new();
    args.push(lambda);
    args.push(shown_form);
    args.push(path_form);
    args.push(value);
    proof {
        assert(args@ =~= seq![lambda, shown_form, path_form, value]);
        clj::lemma_models_from_elements(
            args@,
            seq![model(lambda), FormModel::String(shown@), FormModel::String(path@), model(value)],
        );
        assert(seq![FormModel::Symbol("__rama_contract!"@)] + seq![
            model(lambda),
            FormModel::String(shown@),
            FormModel::String(path@),
            model(value),
        ] =~= seq![
            FormModel::Symbol("__rama_contract!"@),
            model(lambda),
            FormModel::String(shown@),
            FormModel::String(path@),
            model(value),
        ]);
    }
    clj::call("__rama_contract!", args)
}

#[verifier::loop_isolation(false)]
fn checked_at(value: Form, ty: &ValueTypeExpr, path: &str) -> (out: Form)
    ensures
        model(out) == checked_at_spec(*ty, path@, model(value)),
    decreases ty,
{
    match ty {
        ValueTypeExpr::Function { params, ret } => {
            let function_name = "__rama_cast_function";
            let ghost n = params@.len();
            let mut names: Vec<String> = Vec::new();
            let mut i: usize = 0;
            while i < params.len()
                invariant
                    i <= params.len(),
                    names@.len() == i,
                    forall|k: int| 0 <= k < i ==> (#[trigger] names@[k])@ == "__rama_cast_arg"@ + decimal_digits(k as nat),
                decreases params.len() - i,
            {
                let mut name = owned("__rama_cast_arg");
                name.push_str(usize_to_string(i).as_str());
                names.push(name);
                i += 1;
            }
            let shown = display(ty);
            let checked = contract_of(
                clj::call1("ifn?", clj::sym("__rama_cast_candidate")),
                "__rama_cast_candidate",
                shown.as_str(),
                path,
                value,
            );
            let ghost arg_models = cast_args(params@, path@, 0);
            proof {
                lemma_cast_args_index(params@, path@, 0);
            }
            let mut checks: Vec<Form> = Vec::new();
            let mut j: usize = 0;
            while j < params.len()
                invariant
                    j <= params.len(),
                    names@.len() == params@.len(),
                    forall|k: int| 0 <= k < params@.len() ==> (#[trigger] names@[k])@ == "__rama_cast_arg"@ + decimal_digits(k as nat),
                    checks@.len() == j,
                    forall|k: int| 0 <= k < j ==> model(#[trigger] checks@[k]) == arg_models[k],
                decreases params.len() - j,
            {
                let mut label = owned(path);
                label.push_str(" argument ");
                label.push_str(usize_to_string(j).as_str());
                let check = checked_at(clj::sym(names[j].as_str()), &params[j], label.as_str());
                checks.push(check);
                j += 1;
            }
            proof {
                clj::lemma_models_from_elements(checks@, arg_models);
            }
            let invocation = clj::call(function_name, checks);
            let mut ret_label = owned(path);
            ret_label.push_str(" return");
            let result = checked_at(invocation, ret, ret_label.as_str());
            let mut name_syms: Vec<Form> = Vec::new();
            let mut k: usize = 0;
            while k < names.len()
                invariant
                    k <= names.len(),
                    names@.len() == params@.len(),
                    forall|m: int| 0 <= m < params@.len() ==> (#[trigger] names@[m])@ == "__rama_cast_arg"@ + decimal_digits(m as nat),
                    name_syms@.len() == k,
                    forall|m: int| 0 <= m < k ==> model(#[trigger] name_syms@[m]) == FormModel::Symbol(
                        "__rama_cast_arg"@ + decimal_digits(m as nat),
                    ),
                decreases names.len() - k,
            {
                name_syms.push(clj::sym(names[k].as_str()));
                k += 1;
            }
            proof {
                clj::lemma_models_from_elements(
                    name_syms@,
                    Seq::new(params@.len(), |i: int| FormModel::Symbol("__rama_cast_arg"@ + decimal_digits(i as nat))),
                );
            }
            let ghost checked_model = model(checked);
            let head = clj::sym(function_name);
            let mut pair: Vec<Form> = Vec::new();
            pair.push(head);
            pair.push(checked);
            proof {
                assert(pair@ =~= seq![head, pair@[1]]);
                clj::lemma_models_from_elements(pair@, seq![FormModel::Symbol("__rama_cast_function"@), checked_model]);
            }
            let bound = clj::vector(pair);
            let lambda = clj::call2("fn", clj::vector(name_syms), result);
            clj::call2("let", bound, lambda)
        }
        _ => {
            let variable = "__rama_cast_value";
            let check = predicate(ty, clj::sym(variable));
            let shown = display(ty);
            contract_of(check, variable, shown.as_str(), path, value)
        }
    }
}

/// Runtime predicate for `ty` over the form `value`.
#[verifier::loop_isolation(false)]
fn predicate(ty: &ValueTypeExpr, value: Form) -> (out: Form)
    ensures
        model(out) == vt_predicate(*ty, model(value)),
    decreases ty,
{
    let ghost v = model(value);
    match ty {
        ValueTypeExpr::Nil => {
            let r = clj::call1("nil?", value);
            assert(model(r) == vt_predicate(*ty, v));
            r
        }
        ValueTypeExpr::Never => clj::bool(false),
        ValueTypeExpr::Any | ValueTypeExpr::Unknown | ValueTypeExpr::Dynamic => clj::bool(true),
        ValueTypeExpr::Union(members) => {
            let ghost wanted = vt_predicates(members@, v);
            proof {
                lemma_vt_predicates_index(members@, v);
            }
            let mut forms: Vec<Form> = Vec::new();
            let mut i: usize = 0;
            while i < members.len()
                invariant
                    i <= members.len(),
                    model(value) == v,
                    forms@.len() == i,
                    forall|k: int| 0 <= k < i ==> model(#[trigger] forms@[k]) == wanted[k],
                decreases members.len() - i,
            {
                forms.push(predicate(&members[i], value.clone()));
                i += 1;
            }
            proof {
                clj::lemma_models_from_elements(forms@, wanted);
            }
            let r = clj::call("or", forms);
            assert(model(r) == vt_predicate(*ty, v));
            r
        }
        ValueTypeExpr::Function { .. } => clj::call1("ifn?", value),
        ValueTypeExpr::Capability { name, args } => {
            if str_eq(name.as_str(), "Seqable") && args.len() == 1 {
                clj::call1("seqable?", value)
            } else if str_eq(name.as_str(), "Reducible") && args.len() == 1 {
                clj::call2(
                    "or",
                    clj::call1("seqable?", value.clone()),
                    clj::call2("instance?", clj::sym("clojure.lang.IReduceInit"), value),
                )
            } else if str_eq(name.as_str(), "Countable") && args.len() == 0 {
                clj::call3(
                    "or",
                    clj::call1("nil?", value.clone()),
                    clj::call1("string?", value.clone()),
                    clj::call1("counted?", value),
                )
            } else if str_eq(name.as_str(), "Transducer") && args.len() == 2 {
                clj::call1("ifn?", value)
            } else {
                clj::bool(false)
            }
        }
        ValueTypeExpr::Named { path, args } => {
            let class = resolve_class(path.as_str());
            let base = clj::call2("instance?", clj::sym(class.as_str()), value.clone());
            let c = class.as_str();
            if (str_eq(c, "java.util.List") || str_eq(c, "java.util.Set") || str_eq(c, "java.util.Collection")
                || str_eq(c, "java.lang.Iterable")) && args.len() == 1 {
                let item = "__rama_cast_element";
                let check = predicate(&args[0], clj::sym(item));
                clj::call2("and", base, clj::call2("every?", clj::lambda1(item, check), value))
            } else if str_eq(c, "java.util.Map") && args.len() == 2 {
                let entry = "__rama_cast_entry";
                let key_check = predicate(&args[0], clj::call1("key", clj::sym(entry)));
                let val_check = predicate(&args[1], clj::call1("val", clj::sym(entry)));
                clj::call2("and", base, clj::call2("every?", clj::lambda1(entry, clj::call2("and", key_check, val_check)), value))
            } else if str_eq(c, "java.lang.Long") && args.len() == 0 {
                clj::call2(
                    "or",
                    clj::call2("instance?", clj::sym("java.lang.Long"), value.clone()),
                    clj::call2("instance?", clj::sym("java.lang.Integer"), value),
                )
            } else {
                base
            }
        }
    }
}

} // verus!
