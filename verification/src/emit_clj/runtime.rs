//! Runtime contract forms for typed functions and extern dispatchers.

use vstd::prelude::*;
use crate::clj::{self, model, models, Form, FormModel};
use crate::text::{cat, str_eq, usize_to_string};
use crate::types::model::{ids_below, TypedExtern};
use crate::types::{children, type_at, Type, TypeId, TypeModel, TypeTable};

verus! {

pub open spec fn sy(s: Seq<char>) -> FormModel {
    FormModel::Symbol(s)
}

pub open spec fn st(s: Seq<char>) -> FormModel {
    FormModel::String(s)
}

/// `(def __rama_tape (atom (System/getenv "RAMA_CONTRACT_TAPE")))`.
pub open spec fn tape_atom_spec() -> FormModel {
    FormModel::List(
        seq![
            sy("def"@),
            sy("__rama_tape"@),
            FormModel::List(seq![sy("atom"@), FormModel::List(seq![sy("System/getenv"@), st("RAMA_CONTRACT_TAPE"@)])]),
        ],
    )
}

/// `(defn __rama_record! [path expected actual] (when-let [tape (deref
/// __rama_tape)] (locking __rama_tape (spit tape (str path "\t" expected
/// "\t" actual "\n") :append true))))`.
pub open spec fn record_spec() -> FormModel {
    let line = FormModel::List(
        seq![sy("str"@), sy("path"@), st("\t"@), sy("expected"@), st("\t"@), sy("actual"@), st("\n"@)],
    );
    FormModel::List(
        seq![
            sy("defn"@),
            sy("__rama_record!"@),
            FormModel::Vector(seq![sy("path"@), sy("expected"@), sy("actual"@)]),
            FormModel::List(
                seq![
                    sy("when-let"@),
                    FormModel::Vector(seq![sy("tape"@), FormModel::List(seq![sy("deref"@), sy("__rama_tape"@)])]),
                    FormModel::List(
                        seq![
                            sy("locking"@),
                            sy("__rama_tape"@),
                            FormModel::List(seq![sy("spit"@), sy("tape"@), line, FormModel::Keyword("append"@), FormModel::Bool(true)]),
                        ],
                    ),
                ],
            ),
        ],
    )
}

/// `(defn __rama_contract! [predicate expected path value] (if (predicate
/// value) value (do (__rama_record! path expected actual) (throw (ex-info
/// (str "Contract violation at " path ": expected " expected ", got "
/// actual) {:kind :contract-violation :path path :expected expected
/// :actual actual})))))`, `actual` being the value's class name.
pub open spec fn contract_fn_spec() -> FormModel {
    let actual = actual_class_spec(sy("value"@));
    let text = FormModel::List(
        seq![sy("str"@), st("Contract violation at "@), sy("path"@), st(": expected "@), sy("expected"@), st(", got "@), actual],
    );
    let data = FormModel::MapLit(
        seq![
            (FormModel::Keyword("kind"@), FormModel::Keyword("contract-violation"@)),
            (FormModel::Keyword("path"@), sy("path"@)),
            (FormModel::Keyword("expected"@), sy("expected"@)),
            (FormModel::Keyword("actual"@), actual),
        ],
    );
    FormModel::List(
        seq![
            sy("defn"@),
            sy("__rama_contract!"@),
            FormModel::Vector(seq![sy("predicate"@), sy("expected"@), sy("path"@), sy("value"@)]),
            FormModel::List(
                seq![
                    sy("if"@),
                    FormModel::List(seq![sy("predicate"@), sy("value"@)]),
                    sy("value"@),
                    FormModel::List(
                        seq![
                            sy("do"@),
                            FormModel::List(seq![sy("__rama_record!"@), sy("path"@), sy("expected"@), actual]),
                            FormModel::List(seq![sy("throw"@), FormModel::List(seq![sy("ex-info"@), text, data])]),
                        ],
                    ),
                ],
            ),
        ],
    )
}

/// `(head a b c d)`.
fn call4(head: &str, a: Form, b: Form, c: Form, d: Form) -> (out: Form)
    ensures
        model(out) == FormModel::List(seq![sy(head@), model(a), model(b), model(c), model(d)]),
{
    let ghost ms = seq![model(a), model(b), model(c), model(d)];
    let args = vec![a, b, c, d];
    proof {
        clj::lemma_models_from_elements(args@, ms);
        assert(seq![sy(head@)] + ms =~= seq![sy(head@), ms[0], ms[1], ms[2], ms[3]]);
    }
    clj::call(head, args)
}

/// `(head a b c d e f)`.
fn call6(head: &str, a: Form, b: Form, c: Form, d: Form, e: Form, f: Form) -> (out: Form)
    ensures
        model(out) == FormModel::List(seq![sy(head@), model(a), model(b), model(c), model(d), model(e), model(f)]),
{
    let ghost ms = seq![model(a), model(b), model(c), model(d), model(e), model(f)];
    let args = vec![a, b, c, d, e, f];
    proof {
        clj::lemma_models_from_elements(args@, ms);
        assert(seq![sy(head@)] + ms =~= seq![sy(head@), ms[0], ms[1], ms[2], ms[3], ms[4], ms[5]]);
    }
    clj::call(head, args)
}

/// `[a b c]` of symbols.
fn symbols3(a: &str, b: &str, c: &str) -> (out: Form)
    ensures
        model(out) == FormModel::Vector(seq![sy(a@), sy(b@), sy(c@)]),
{
    let xs = vec![clj::sym(a), clj::sym(b), clj::sym(c)];
    proof {
        clj::lemma_models_from_elements(xs@, seq![sy(a@), sy(b@), sy(c@)]);
    }
    clj::vector(xs)
}

/// `[a b c d]` of symbols.
fn symbols4(a: &str, b: &str, c: &str, d: &str) -> (out: Form)
    ensures
        model(out) == FormModel::Vector(seq![sy(a@), sy(b@), sy(c@), sy(d@)]),
{
    let xs = vec![clj::sym(a), clj::sym(b), clj::sym(c), clj::sym(d)];
    proof {
        clj::lemma_models_from_elements(xs@, seq![sy(a@), sy(b@), sy(c@), sy(d@)]);
    }
    clj::vector(xs)
}

/// The tape atom, the violation recorder and the contract checker that
/// every contract call relies on.
pub fn contract_helper_forms() -> (out: Vec<Form>)
    ensures
        out@.len() == 3,
        clj::models(out@) == seq![tape_atom_spec(), record_spec(), contract_fn_spec()],
{
    let tape_atom = clj::call2(
        "def",
        clj::sym("__rama_tape"),
        clj::call1("atom", clj::call1("System/getenv", clj::string("RAMA_CONTRACT_TAPE"))),
    );
    let line = call6(
        "str",
        clj::sym("path"),
        clj::string("\t"),
        clj::sym("expected"),
        clj::string("\t"),
        clj::sym("actual"),
        clj::string("\n"),
    );
    let spit = call4("spit", clj::sym("tape"), line, clj::kw("append"), clj::bool(true));
    let deref_pair = clj::vector(vec![clj::sym("tape"), clj::call1("deref", clj::sym("__rama_tape"))]);
    proof {
        let v = deref_pair->Vector_0@;
        clj::lemma_models_from_elements(v, seq![sy("tape"@), FormModel::List(seq![sy("deref"@), sy("__rama_tape"@)])]);
    }
    let record = clj::call3(
        "defn",
        clj::sym("__rama_record!"),
        symbols3("path", "expected", "actual"),
        clj::call2("when-let", deref_pair, clj::call2("locking", clj::sym("__rama_tape"), spit)),
    );
    let text = call6(
        "str",
        clj::string("Contract violation at "),
        clj::sym("path"),
        clj::string(": expected "),
        clj::sym("expected"),
        clj::string(", got "),
        actual_class_form(clj::sym("value")),
    );
    let entries = vec![
        (clj::kw("kind"), clj::kw("contract-violation")),
        (clj::kw("path"), clj::sym("path")),
        (clj::kw("expected"), clj::sym("expected")),
        (clj::kw("actual"), actual_class_form(clj::sym("value"))),
    ];
    proof {
        clj::lemma_pair_models_index(entries@);
        assert(clj::pair_models(entries@) =~= seq![
            (FormModel::Keyword("kind"@), FormModel::Keyword("contract-violation"@)),
            (FormModel::Keyword("path"@), sy("path"@)),
            (FormModel::Keyword("expected"@), sy("expected"@)),
            (FormModel::Keyword("actual"@), actual_class_spec(sy("value"@))),
        ]);
    }
    let data = clj::map(entries);
    let throw = clj::call1("throw", clj::call2("ex-info", text, data));
    let recorded = clj::call3("__rama_record!", clj::sym("path"), clj::sym("expected"), actual_class_form(clj::sym("value")));
    let test = clj::call3("if", clj::call1("predicate", clj::sym("value")), clj::sym("value"), clj::call2("do", recorded, throw));
    let contract = clj::call3(
        "defn",
        clj::sym("__rama_contract!"),
        symbols4("predicate", "expected", "path", "value"),
        test,
    );
    let out = vec![tape_atom, record, contract];
    proof {
        clj::lemma_models_from_elements(out@, seq![tape_atom_spec(), record_spec(), contract_fn_spec()]);
    }
    out
}

/// `(if (nil? v) "nil" (.getName (class v)))`.
pub open spec fn actual_class_spec(v: FormModel) -> FormModel {
    FormModel::List(
        seq![
            FormModel::Symbol("if"@),
            FormModel::List(seq![FormModel::Symbol("nil?"@), v]),
            FormModel::String("nil"@),
            FormModel::List(seq![FormModel::Symbol(".getName"@), FormModel::List(seq![FormModel::Symbol("class"@), v])]),
        ],
    )
}

/// `"nil"` for nil, else the name of the value's class.
pub fn actual_class_form(value: Form) -> (out: Form)
    ensures
        model(out) == actual_class_spec(model(value)),
{
    let copy = value.clone();
    clj::call3(
        "if",
        clj::call1("nil?", copy),
        clj::string("nil"),
        clj::call1(".getName", clj::call1("class", value)),
    )
}

/// `(__rama_contract! (fn [x] check) "Type" "path" v)` as a model.
pub open spec fn contract_form(check: FormModel, param: Seq<char>, shown: Seq<char>, path: Seq<char>, v: FormModel) -> FormModel {
    FormModel::List(
        seq![
            FormModel::Symbol("__rama_contract!"@),
            fn1(param, check),
            FormModel::String(shown),
            FormModel::String(path),
            v,
        ],
    )
}

/// The name of a wrapped function's `i`th parameter.
pub open spec fn arg_name(i: nat) -> Seq<char> {
    "__rama_fn_arg"@ + crate::text::decimal_digits(i)
}

/// `v` checked against `ty` at run time: a `__rama_contract!` call over
/// the type's predicate, or, for a function type, a wrapper that checks
/// the function itself and every call's arguments and result.
pub open spec fn contract_spec(t: Seq<TypeModel>, ty: TypeId, path: Seq<char>, v: FormModel) -> FormModel
    decreases ty.0, 1nat, 0nat,
{
    match type_at(t, ty) {
        TypeModel::Function { params, ret } => function_contract_spec(t, ty, params, ret, path, v),
        _ => contract_form(
            predicate_spec(t, ty, FormModel::Symbol("__rama_value"@)),
            "__rama_value"@,
            crate::types::display_spec(t, ty),
            path,
            v,
        ),
    }
}

/// The contracts on the arguments `__rama_fn_arg0 …` of a wrapped
/// function, for its first `params.len()` parameters.
pub open spec fn argument_checks(t: Seq<TypeModel>, params: Seq<TypeId>, path: Seq<char>, parent: TypeId) -> Seq<FormModel>
    decreases parent.0, 0nat, params.len(),
{
    if params.len() == 0 {
        Seq::empty()
    } else {
        let i = (params.len() - 1) as nat;
        argument_checks(t, params.drop_last(), path, parent).push(
            if params.last().0 < parent.0 {
                contract_spec(
                    t,
                    params.last(),
                    path + " argument "@ + crate::text::decimal_digits(i),
                    FormModel::Symbol(arg_name(i)),
                )
            } else {
                FormModel::Nil
            },
        )
    }
}

/// The parameter symbols of a wrapped function.
pub open spec fn arg_symbols(n: nat) -> Seq<FormModel> {
    Seq::new(n, |i: int| FormModel::Symbol(arg_name(i as nat)))
}

/// `(let [__rama_function (checked v)] (fn [args…] (checked-return
/// (__rama_function checked-args…))))` as a model.
pub open spec fn function_contract_spec(
    t: Seq<TypeModel>,
    fty: TypeId,
    params: Seq<TypeId>,
    ret: TypeId,
    path: Seq<char>,
    v: FormModel,
) -> FormModel
    decreases fty.0, 0nat, params.len() + 1,
{
    let checked_function = contract_form(
        app1("ifn?"@, FormModel::Symbol("__rama_candidate"@)),
        "__rama_candidate"@,
        crate::types::display_spec(t, fty),
        path,
        v,
    );
    let invocation = FormModel::List(
        seq![FormModel::Symbol("__rama_function"@)] + argument_checks(t, params, path, fty),
    );
    let checked_return = if ret.0 < fty.0 {
        contract_spec(t, ret, path + " return"@, invocation)
    } else {
        FormModel::Nil
    };
    FormModel::List(
        seq![
            FormModel::Symbol("let"@),
            FormModel::Vector(seq![FormModel::Symbol("__rama_function"@), checked_function]),
            FormModel::List(seq![FormModel::Symbol("fn"@), FormModel::Vector(arg_symbols(params.len())), checked_return]),
        ],
    )
}

/// `__rama_contract!` over a check, as a form.
fn contract_call_form(check: Form, param: &str, shown: &str, path: &str, value: Form) -> (out: Form)
    ensures
        model(out) == contract_form(model(check), param@, shown@, path@, model(value)),
{
    let lambda = clj::lambda1(param, check);
    let shown_form = clj::string(shown);
    let path_form = clj::string(path);
    let mut args: Vec<Form> = Vec::new();
    args.push(lambda);
    args.push(shown_form);
    args.push(path_form);
    args.push(value);
    proof {
        assert(args@ =~= seq![lambda, shown_form, path_form, value]);
        clj::lemma_models_from_elements(
            args@,
            seq![model(lambda), FormModel::String(shown@), FormModel::String(path@), model(value)],
        );
        assert(seq![FormModel::Symbol("__rama_contract!"@)] + seq![
            model(lambda),
            FormModel::String(shown@),
            FormModel::String(path@),
            model(value),
        ] =~= seq![
            FormModel::Symbol("__rama_contract!"@),
            model(lambda),
            FormModel::String(shown@),
            FormModel::String(path@),
            model(value),
        ]);
    }
    clj::call("__rama_contract!", args)
}

/// `value` checked against the type `ty` at run time, reporting `path`
/// on a violation; function values are wrapped so that their arguments
/// and results are checked at each call.
pub fn contract_call(ty: TypeId, path: &str, value: Form, table: &TypeTable) -> (out: Form)
    ensures
        model(out) == contract_spec(table@, ty, path@, model(value)),
    decreases ty.0, 1nat, 0nat,
{
    let t = table.ty(ty);
    let ghost tv = t@;
    if let Type::Function { params, ret } = t {
        assert(children(tv) == params@.push(ret));
        assert(children(tv)[params@.len() as int] == ret);
        assert forall|k: int| 0 <= k < params@.len() implies (#[trigger] params@[k]).0 < ty.0 by {
            assert(children(tv)[k] == params@[k]);
        }
        return function_contract(ty, &params, ret, path, value, table);
    }
    let variable = "__rama_value";
    let check = predicate_form(ty, clj::sym(variable), table);
    let shown = table.display(ty);
    contract_call_form(check, variable, shown.as_str(), path, value)
}

/// A function value wrapped so that each call checks its arguments and
/// its result.
#[verifier::loop_isolation(false)]
pub fn function_contract(
    function_type: TypeId,
    params: &Vec<TypeId>,
    ret: TypeId,
    path: &str,
    value: Form,
    table: &TypeTable,
) -> (out: Form)
    requires
        ids_below(params@, function_type.0 as int),
        ret.0 < function_type.0,
    ensures
        model(out) == function_contract_spec(table@, function_type, params@, ret, path@, model(value)),
    decreases function_type.0, 0nat, params@.len() + 1,
{
    let function_name = "__rama_function";
    let mut parameter_names: Vec<String> = Vec::new();
    let mut i: usize = 0;
    while i < params.len()
        invariant
            i <= params.len(),
            parameter_names@.len() == i,
            forall|k: int| 0 <= k < i ==> (#[trigger] parameter_names@[k])@ == arg_name(k as nat),
        decreases params.len() - i,
    {
        let index = usize_to_string(i);
        let mut name = crate::text::owned("__rama_fn_arg");
        name.push_str(index.as_str());
        parameter_names.push(name);
        i += 1;
    }
    let shown = table.display(function_type);
    let checked_function = contract_call_form(
        clj::call1("ifn?", clj::sym("__rama_candidate")),
        "__rama_candidate",
        shown.as_str(),
        path,
        value,
    );
    let mut checks: Vec<Form> = Vec::new();
    let mut j: usize = 0;
    while j < params.len()
        invariant
            j <= params.len(),
            parameter_names@.len() == params@.len(),
            forall|k: int| 0 <= k < params@.len() ==> (#[trigger] parameter_names@[k])@ == arg_name(k as nat),
            models(checks@) == argument_checks(table@, params@.take(j as int), path@, function_type),
        decreases params.len() - j,
    {
        let index = usize_to_string(j);
        let mut argument_path = crate::text::owned(path);
        argument_path.push_str(" argument ");
        argument_path.push_str(index.as_str());
        assert(params@[j as int].0 < function_type.0);
        let check = contract_call(params[j], argument_path.as_str(), clj::sym(parameter_names[j].as_str()), table);
        proof {
            let pre = params@.take(j + 1);
            assert(pre.drop_last() =~= params@.take(j as int));
            assert(pre.last() == params@[j as int]);
            clj::lemma_models_push(checks@, check);
        }
        checks.push(check);
        j += 1;
    }
    assert(params@.take(params@.len() as int) =~= params@);
    let invocation = clj::call(function_name, checks);
    let mut return_path = crate::text::owned(path);
    return_path.push_str(" return");
    let checked_return = contract_call(ret, return_path.as_str(), invocation, table);
    let mut names: Vec<Form> = Vec::new();
    let mut k: usize = 0;
    while k < parameter_names.len()
        invariant
            k <= parameter_names.len(),
            parameter_names@.len() == params@.len(),
            forall|m: int| 0 <= m < params@.len() ==> (#[trigger] parameter_names@[m])@ == arg_name(m as nat),
            models(names@) == arg_symbols(params@.len()).take(k as int),
        decreases parameter_names.len() - k,
    {
        let name = clj::sym(parameter_names[k].as_str());
        proof {
            clj::lemma_models_push(names@, name);
            assert(arg_symbols(params@.len()).take(k + 1) =~= arg_symbols(params@.len()).take(k as int).push(model(name)));
        }
        names.push(name);
        k += 1;
    }
    assert(arg_symbols(params@.len()).take(k as int) =~= arg_symbols(params@.len()));
    let binding = clj::vector(vec![clj::sym(function_name), checked_function]);
    let params_vector = clj::vector(names);
    let lambda = clj::call2("fn", params_vector, checked_return);
    proof {
        let bs = binding->Vector_0;
        clj::lemma_models_from_elements(
            bs@,
            seq![FormModel::Symbol("__rama_function"@), model(checked_function)],
        );
    }
    clj::call2("let", binding, lambda)
}

/// `(head v)` as a model.
pub open spec fn app1(head: Seq<char>, v: FormModel) -> FormModel {
    FormModel::List(seq![FormModel::Symbol(head), v])
}

/// `(head a b)` as a model.
pub open spec fn app2(head: Seq<char>, a: FormModel, b: FormModel) -> FormModel {
    FormModel::List(seq![FormModel::Symbol(head), a, b])
}

/// `(fn [param] body)` as a model.
pub open spec fn fn1(param: Seq<char>, body: FormModel) -> FormModel {
    FormModel::List(seq![FormModel::Symbol("fn"@), FormModel::Vector(seq![FormModel::Symbol(param)]), body])
}

/// Classes checked element by element.
pub open spec fn element_checked_class(c: Seq<char>) -> bool {
    c == "java.util.List"@ || c == "java.util.Set"@ || c == "java.util.Collection"@ || c == "java.lang.Iterable"@
}

/// The runtime predicate over `v` for the type `ty`: `nil?` for `Nil`,
/// `false` for `Never`, `true` for the gradual types and type variables,
/// `or` over union members, `ifn?` for functions, the capability checks,
/// and `instance?` for classes, with element, entry and `Long`/`Integer`
/// refinements.
pub open spec fn predicate_spec(t: Seq<TypeModel>, ty: TypeId, v: FormModel) -> FormModel
    decreases ty.0, 1nat,
{
    match type_at(t, ty) {
        TypeModel::Nil => app1("nil?"@, v),
        TypeModel::Never => FormModel::Bool(false),
        TypeModel::Any | TypeModel::Unknown | TypeModel::Dynamic | TypeModel::Var(_) => FormModel::Bool(true),
        TypeModel::Union(ms) => FormModel::List(seq![FormModel::Symbol("or"@)] + predicates_spec(t, ms, v, ty)),
        TypeModel::Function { .. } => app1("ifn?"@, v),
        TypeModel::Capability { name, args } => if name == "Seqable"@ && args.len() == 1 {
            app1("seqable?"@, v)
        } else if name == "Reducible"@ && args.len() == 1 {
            app2(
                "or"@,
                app1("seqable?"@, v),
                app2("instance?"@, FormModel::Symbol("clojure.lang.IReduceInit"@), v),
            )
        } else if name == "Countable"@ && args.len() == 0 {
            FormModel::List(
                seq![FormModel::Symbol("or"@), app1("nil?"@, v), app1("string?"@, v), app1("counted?"@, v)],
            )
        } else if name == "Transducer"@ && args.len() == 2 {
            app1("ifn?"@, v)
        } else {
            FormModel::Bool(false)
        },
        TypeModel::Jvm { class, args } => {
            let base = app2("instance?"@, FormModel::Symbol(class), v);
            if element_checked_class(class) && args.len() == 1 && args[0].0 < ty.0 {
                app2(
                    "and"@,
                    base,
                    app2(
                        "every?"@,
                        fn1(
                            "__rama_element"@,
                            predicate_spec(t, args[0], FormModel::Symbol("__rama_element"@)),
                        ),
                        v,
                    ),
                )
            } else if class == "java.util.Map"@ && args.len() == 2 && args[0].0 < ty.0 && args[1].0 < ty.0 {
                app2(
                    "and"@,
                    base,
                    app2(
                        "every?"@,
                        fn1(
                            "__rama_entry"@,
                            app2(
                                "and"@,
                                predicate_spec(t, args[0], app1("key"@, FormModel::Symbol("__rama_entry"@))),
                                predicate_spec(t, args[1], app1("val"@, FormModel::Symbol("__rama_entry"@))),
                            ),
                        ),
                        v,
                    ),
                )
            } else if class == "java.lang.Long"@ && args.len() == 0 {
                app2(
                    "or"@,
                    app2("instance?"@, FormModel::Symbol("java.lang.Long"@), v),
                    app2("instance?"@, FormModel::Symbol("java.lang.Integer"@), v),
                )
            } else {
                base
            }
        },
    }
}

/// The predicates of the union members `ms` (ids below `parent`).
pub open spec fn predicates_spec(t: Seq<TypeModel>, ms: Seq<TypeId>, v: FormModel, parent: TypeId) -> Seq<FormModel>
    decreases parent.0, 0nat, ms.len(),
{
    if ms.len() == 0 {
        Seq::empty()
    } else {
        predicates_spec(t, ms.drop_last(), v, parent).push(
            if ms.last().0 < parent.0 { predicate_spec(t, ms.last(), v) } else { FormModel::Nil },
        )
    }
}

/// A Clojure predicate over `value` that holds of the values of type `ty`.
#[verifier::loop_isolation(false)]
pub fn predicate_form(ty: TypeId, value: Form, table: &TypeTable) -> (out: Form)
    ensures
        model(out) == predicate_spec(table@, ty, model(value)),
    decreases ty.0,
{
    let t = table.ty(ty);
    let ghost tv = t@;
    let ghost v = model(value);
    match t {
        Type::Nil => clj::call1("nil?", value),
        Type::Never => clj::bool(false),
        Type::Any | Type::Unknown | Type::Dynamic | Type::Var(_) => clj::bool(true),
        Type::Union(members) => {
            assert(children(tv) == members@);
            let mut forms: Vec<Form> = Vec::new();
            let mut i: usize = 0;
            while i < members.len()
                invariant
                    i <= members.len(),
                    ids_below(members@, ty.0 as int),
                    model(value) == v,
                    models(forms@) == predicates_spec(table@, members@.take(i as int), v, ty),
                decreases members.len() - i,
            {
                let p = predicate_form(members[i], value.clone(), table);
                proof {
                    let pre = members@.take(i + 1);
                    assert(pre.drop_last() =~= members@.take(i as int));
                    assert(pre.last() == members@[i as int]);
                    clj::lemma_models_push(forms@, p);
                }
                forms.push(p);
                i += 1;
            }
            assert(members@.take(members@.len() as int) =~= members@);
            clj::call("or", forms)
        }
        Type::Function { .. } => clj::call1("ifn?", value),
        Type::Capability { name, args } => {
            if str_eq(name.as_str(), "Seqable") && args.len() == 1 {
                clj::call1("seqable?", value)
            } else if str_eq(name.as_str(), "Reducible") && args.len() == 1 {
                clj::call2(
                    "or",
                    clj::call1("seqable?", value.clone()),
                    clj::call2("instance?", clj::sym("clojure.lang.IReduceInit"), value),
                )
            } else if str_eq(name.as_str(), "Countable") && args.len() == 0 {
                clj::call3(
                    "or",
                    clj::call1("nil?", value.clone()),
                    clj::call1("string?", value.clone()),
                    clj::call1("counted?", value),
                )
            } else if str_eq(name.as_str(), "Transducer") && args.len() == 2 {
                clj::call1("ifn?", value)
            } else {
                clj::bool(false)
            }
        }
        Type::Jvm { class, args } => {
            assert(children(tv) == args@);
            let base = clj::call2("instance?", clj::sym(class.as_str()), value.clone());
            let c = class.as_str();
            if (str_eq(c, "java.util.List") || str_eq(c, "java.util.Set") || str_eq(c, "java.util.Collection")
                || str_eq(c, "java.lang.Iterable")) && args.len() == 1 {
                assert(args@[0].0 < ty.0);
                let element_name = "__rama_element";
                let check = predicate_form(args[0], clj::sym(element_name), table);
                clj::call2("and", base, clj::call2("every?", clj::lambda1(element_name, check), value))
            } else if str_eq(c, "java.util.Map") && args.len() == 2 {
                assert(args@[0].0 < ty.0);
                assert(args@[1].0 < ty.0);
                let entry = "__rama_entry";
                let key_check = predicate_form(args[0], clj::call1("key", clj::sym(entry)), table);
                let value_check = predicate_form(args[1], clj::call1("val", clj::sym(entry)), table);
                clj::call2(
                    "and",
                    base,
                    clj::call2("every?", clj::lambda1(entry, clj::call2("and", key_check, value_check)), value),
                )
            } else if str_eq(c, "java.lang.Long") && args.len() == 0 {
                clj::call2(
                    "or",
                    clj::call2("instance?", clj::sym("java.lang.Long"), value.clone()),
                    clj::call2("instance?", clj::sym("java.lang.Integer"), value),
                )
            } else {
                base
            }
        }
    }
}

/// How narrowly a runtime check on `ty` picks its values: wider checks
/// score lower, so more specific overloads are tried first. Sums saturate.
#[verifier::loop_isolation(false)]
/// How specific a runtime check of a type is: class checks count 2 plus
/// their arguments, unions their least specific member, and the open types
/// nothing; sums saturate.
pub open spec fn specificity(t: Seq<TypeModel>, ty: TypeId) -> usize
    decreases ty.0, 1nat, 0nat,
{
    match type_at(t, ty) {
        TypeModel::Jvm { args, .. } => args_specificity(t, ty, args, args.len() as nat),
        TypeModel::Union(ms) => if ms.len() == 0 { 0 } else { least_specificity(t, ty, ms, ms.len() as nat) },
        TypeModel::Nil => 2,
        TypeModel::Never => 3,
        TypeModel::Function { .. } => 2,
        TypeModel::Capability { .. } => 1,
        _ => 0,
    }
}

pub open spec fn sat_add(a: usize, b: usize) -> usize {
    if a + b > usize::MAX { usize::MAX } else { (a + b) as usize }
}

/// 2 plus the specificities of the first `n` arguments (those below `ty`).
pub open spec fn args_specificity(t: Seq<TypeModel>, ty: TypeId, args: Seq<TypeId>, n: nat) -> usize
    decreases ty.0, 0nat, n,
{
    if n == 0 || n > args.len() {
        2
    } else {
        sat_add(
            args_specificity(t, ty, args, (n - 1) as nat),
            if args[n - 1].0 < ty.0 { specificity(t, args[n - 1]) } else { 0 },
        )
    }
}

/// The least specificity among the first `n` members (those below `ty`).
pub open spec fn least_specificity(t: Seq<TypeModel>, ty: TypeId, ms: Seq<TypeId>, n: nat) -> usize
    decreases ty.0, 0nat, n,
{
    let s = if n >= 1 && n <= ms.len() && ms[n - 1].0 < ty.0 { specificity(t, ms[n - 1]) } else { 0 };
    if n <= 1 || n > ms.len() {
        s
    } else {
        let l = least_specificity(t, ty, ms, (n - 1) as nat);
        if s < l { s } else { l }
    }
}

pub fn runtime_specificity(ty: TypeId, table: &TypeTable) -> (out: usize)
    ensures
        out == specificity(table@, ty),
    decreases ty.0,
{
    let t = table.ty(ty);
    let ghost tv = t@;
    match t {
        Type::Jvm { args, .. } => {
            assert(children(tv) == args@);
            let mut total: usize = 2;
            let mut i: usize = 0;
            while i < args.len()
                invariant
                    i <= args.len(),
                    ids_below(args@, ty.0 as int),
                    total == args_specificity(table@, ty, args@, i as nat),
                decreases args.len() - i,
            {
                let s = runtime_specificity(args[i], table);
                total = total.saturating_add(s);
                i += 1;
            }
            total
        }
        Type::Union(members) => {
            assert(children(tv) == members@);
            if members.len() == 0 {
                return 0;
            }
            let mut least = runtime_specificity(members[0], table);
            let mut i: usize = 1;
            while i < members.len()
                invariant
                    1 <= i <= members.len(),
                    ids_below(members@, ty.0 as int),
                    least == least_specificity(table@, ty, members@, i as nat),
                decreases members.len() - i,
            {
                let s = runtime_specificity(members[i], table);
                if s < least {
                    least = s;
                }
                i += 1;
            }
            least
        }
        Type::Nil => 2,
        Type::Never => 3,
        Type::Function { .. } => 2,
        Type::Capability { .. } => 1,
        Type::Any | Type::Unknown | Type::Dynamic | Type::Var(_) => 0,
    }
}

/// The saturating sum of the specificities of the first `n` parameters.
pub open spec fn params_specificity(t: Seq<TypeModel>, params: Seq<TypeId>, n: nat) -> usize
    decreases n,
{
    if n == 0 || n > params.len() {
        0
    } else {
        sat_add(params_specificity(t, params, (n - 1) as nat), specificity(t, params[n - 1]))
    }
}

/// The summed specificity of an overload's parameters.
fn overload_specificity(overload: &TypedExtern, table: &TypeTable) -> (out: usize)
    ensures
        out == params_specificity(table@, overload.signature.params@, overload.signature.params@.len() as nat),
{
    let mut total: usize = 0;
    let mut i: usize = 0;
    while i < overload.signature.params.len()
        invariant
            i <= overload.signature.params.len(),
            total == params_specificity(table@, overload.signature.params@, i as nat),
        decreases overload.signature.params.len() - i,
    {
        total = total.saturating_add(runtime_specificity(overload.signature.params[i], table));
        i += 1;
    }
    total
}

/// An overload's specificity: the saturating sum over its parameters.
pub open spec fn overload_key(t: Seq<TypeModel>, o: TypedExtern) -> usize {
    params_specificity(t, o.signature.params@, o.signature.params@.len() as nat)
}

/// How many leading overloads have a key at least `key`.
pub open spec fn leading_at_least(t: Seq<TypeModel>, os: Seq<TypedExtern>, key: usize) -> nat
    decreases os.len(),
{
    if os.len() > 0 && overload_key(t, os[0]) >= key {
        1 + leading_at_least(t, os.drop_first(), key)
    } else {
        0
    }
}

/// The overloads by descending specificity; equal ones keep declaration
/// order.
pub open spec fn by_specificity(t: Seq<TypeModel>, os: Seq<TypedExtern>) -> Seq<TypedExtern>
    decreases os.len(),
{
    if os.len() == 0 {
        Seq::empty()
    } else {
        let sorted = by_specificity(t, os.drop_last());
        sorted.insert(leading_at_least(t, sorted, overload_key(t, os.last())) as int, os.last())
    }
}

proof fn lemma_leading_at_least(t: Seq<TypeModel>, os: Seq<TypedExtern>, key: usize, at: int)
    requires
        0 <= at <= os.len(),
        forall|j: int| 0 <= j < at ==> overload_key(t, #[trigger] os[j]) >= key,
        at == os.len() || overload_key(t, os[at]) < key,
    ensures
        leading_at_least(t, os, key) == at,
    decreases at,
{
    if at > 0 {
        lemma_leading_at_least(t, os.drop_first(), key, at - 1);
    }
}

pub open spec fn deref_overloads(os: Seq<&TypedExtern>) -> Seq<TypedExtern> {
    os.map_values(|o: &TypedExtern| *o)
}

/// The overloads, most specific first; ties keep declaration order.
pub fn order_overloads<'b>(overloads: &'b Vec<TypedExtern>, table: &TypeTable) -> (out: Vec<&'b TypedExtern>)
    ensures
        out@.len() == overloads@.len(),
        deref_overloads(out@) == by_specificity(table@, overloads@),
{
    let mut ordered: Vec<&'b TypedExtern> = Vec::new();
    let mut keys: Vec<usize> = Vec::new();
    let mut i: usize = 0;
    assert(deref_overloads(ordered@) =~= by_specificity(table@, overloads@.take(0)));
    while i < overloads.len()
        invariant
            i <= overloads.len(),
            ordered@.len() == i,
            keys@.len() == i,
            deref_overloads(ordered@) == by_specificity(table@, overloads@.take(i as int)),
            forall|k: int| 0 <= k < i ==> keys@[k] == overload_key(table@, *(#[trigger] ordered@[k])),
        decreases overloads.len() - i,
    {
        proof {
            assert(overloads@.take(i + 1).drop_last() =~= overloads@.take(i as int));
            assert(overloads@.take(i + 1).last() == overloads@[i as int]);
        }
        let key = overload_specificity(&overloads[i], table);
        let mut at: usize = 0;
        while at < keys.len() && keys[at] >= key
            invariant
                at <= keys.len(),
                keys@.len() == ordered@.len(),
                forall|k: int| 0 <= k < keys@.len() ==> keys@[k] == overload_key(table@, *(#[trigger] ordered@[k])),
                forall|j: int| 0 <= j < at ==> overload_key(table@, #[trigger] deref_overloads(ordered@)[j]) >= key,
            decreases keys.len() - at,
        {
            assert(deref_overloads(ordered@)[at as int] == *ordered@[at as int]);
            at += 1;
        }
        let ghost before = ordered@;
        let ghost before_keys = keys@;
        proof {
            if at < keys.len() {
                assert(deref_overloads(ordered@)[at as int] == *ordered@[at as int]);
            }
            lemma_leading_at_least(table@, deref_overloads(before), key, at as int);
        }
        ordered.insert(at, &overloads[i]);
        keys.insert(at, key);
        proof {
            assert(deref_overloads(ordered@) =~= deref_overloads(before).insert(at as int, overloads@[i as int]));
            assert forall|k: int| 0 <= k < i + 1 implies keys@[k] == overload_key(table@, *(#[trigger] ordered@[k])) by {
                if k < at {
                    assert(keys@[k] == before_keys[k] && ordered@[k] == before[k]);
                } else if k > at {
                    assert(keys@[k] == before_keys[k - 1] && ordered@[k] == before[k - 1]);
                }
            }
        }
        i += 1;
    }
    assert(overloads@.take(overloads@.len() as int) =~= overloads@);
    ordered
}

/// A count or index as the integer literal `usize_as_i64` writes.
pub open spec fn index_literal(n: int) -> int {
    if n <= i64::MAX { n } else { i64::MAX as int }
}

/// `(nth __rama_args i)`.
pub open spec fn nth_arg(i: int) -> FormModel {
    FormModel::List(seq![sy("nth"@), sy("__rama_args"@), FormModel::Int(index_literal(i))])
}

/// The runtime test that an overload applies: the argument count, then
/// each argument's predicate.
pub open spec fn overload_condition_spec(t: Seq<TypeModel>, o: TypedExtern) -> FormModel {
    let ps = o.signature.params@;
    let count = FormModel::List(
        seq![sy("="@), FormModel::List(seq![sy("count"@), sy("__rama_args"@)]), FormModel::Int(index_literal(ps.len() as int))],
    );
    if ps.len() == 0 {
        count
    } else {
        FormModel::List(seq![sy("and"@), count] + Seq::new(ps.len(), |i: int| predicate_spec(t, ps[i], nth_arg(i))))
    }
}

/// The overload applied to its checked arguments, its result checked.
pub open spec fn overload_call_spec(t: Seq<TypeModel>, name: Seq<char>, o: TypedExtern) -> FormModel {
    let ps = o.signature.params@;
    contract_spec(
        t,
        o.signature.ret,
        "extern `"@ + name + "` return"@,
        FormModel::List(
            seq![
                sy("apply"@),
                sy(o.target@),
                FormModel::Vector(
                    Seq::new(
                        ps.len(),
                        |j: int| contract_spec(t, ps[j], "extern `"@ + name + "` argument "@ + crate::text::decimal_digits(j as nat), nth_arg(j)),
                    ),
                ),
            ],
        ),
    )
}

/// The `cond` arms for the overloads, in order.
pub open spec fn dispatch_arms(t: Seq<TypeModel>, name: Seq<char>, os: Seq<TypedExtern>) -> Seq<FormModel>
    decreases os.len(),
{
    if os.len() == 0 {
        Seq::empty()
    } else {
        dispatch_arms(t, name, os.drop_last()) + seq![overload_condition_spec(t, os.last()), overload_call_spec(t, name, os.last())]
    }
}

/// `(throw (ex-info "No runtime contract …" {:kind :contract-violation
/// :path "extern `name` arguments"}))`.
pub open spec fn dispatch_failure_spec(name: Seq<char>) -> FormModel {
    FormModel::List(
        seq![
            sy("throw"@),
            FormModel::List(
                seq![
                    sy("ex-info"@),
                    st("No runtime contract for extern `"@ + name + "` accepted the arguments"@),
                    FormModel::MapLit(
                        seq![
                            (FormModel::Keyword("kind"@), FormModel::Keyword("contract-violation"@)),
                            (FormModel::Keyword("path"@), st("extern `"@ + name + "` arguments"@)),
                        ],
                    ),
                ],
            ),
        ],
    )
}

/// `(defn wrapper [& __rama_args] (cond test call … :else failure))`, the
/// overloads most specific first.
pub open spec fn dispatcher_spec(t: Seq<TypeModel>, name: Seq<char>, wrapper: Seq<char>, overloads: Seq<TypedExtern>) -> FormModel {
    FormModel::List(
        seq![
            sy("defn"@),
            sy(wrapper),
            FormModel::Vector(seq![sy("&"@), sy("__rama_args"@)]),
            FormModel::List(
                seq![sy("cond"@)] + dispatch_arms(t, name, by_specificity(t, overloads)) + seq![
                    FormModel::Keyword("else"@),
                    dispatch_failure_spec(name),
                ],
            ),
        ],
    )
}

/// `(nth __rama_args i)`.
fn nth_arg_form(i: usize) -> (out: Form)
    ensures
        model(out) == nth_arg(i as int),
{
    let n = usize_as_i64(i);
    clj::call2("nth", clj::sym("__rama_args"), clj::integer(n))
}

fn overload_condition(o: &TypedExtern, table: &TypeTable) -> (out: Form)
    ensures
        model(out) == overload_condition_spec(table@, *o),
{
    let params = &o.signature.params;
    let n = usize_as_i64(params.len());
    let count = clj::call2("=", clj::call1("count", clj::sym("__rama_args")), clj::integer(n));
    if params.len() == 0 {
        return count;
    }
    let ghost preds = Seq::new(params@.len(), |i: int| predicate_spec(table@, params@[i], nth_arg(i)));
    let mut checks: Vec<Form> = Vec::new();
    checks.push(count);
    let mut i: usize = 0;
    while i < params.len()
        invariant
            i <= params.len(),
            checks@.len() == i + 1,
            model(checks@[0]) == model(count),
            preds == Seq::new(params@.len(), |i: int| predicate_spec(table@, params@[i], nth_arg(i))),
            forall|k: int| 0 <= k < i ==> model(#[trigger] checks@[k + 1]) == preds[k],
        decreases params.len() - i,
    {
        checks.push(predicate_form(params[i], nth_arg_form(i), table));
        i += 1;
    }
    let ghost want = seq![model(count)] + preds;
    proof {
        assert forall|k: int| 0 <= k < checks@.len() implies model(#[trigger] checks@[k]) == want[k] by {
            if k > 0 {
                assert(model(checks@[(k - 1) + 1]) == preds[k - 1]);
            }
        }
        clj::lemma_models_from_elements(checks@, want);
        assert(seq![sy("and"@)] + want =~= seq![sy("and"@), model(count)] + preds);
    }
    clj::call("and", checks)
}

fn overload_call(name: &str, o: &TypedExtern, table: &TypeTable) -> (out: Form)
    ensures
        model(out) == overload_call_spec(table@, name@, *o),
{
    let params = &o.signature.params;
    let ghost args = Seq::new(
        params@.len(),
        |j: int| contract_spec(table@, params@[j], "extern `"@ + name@ + "` argument "@ + crate::text::decimal_digits(j as nat), nth_arg(j)),
    );
    let mut checked: Vec<Form> = Vec::new();
    let mut j: usize = 0;
    while j < params.len()
        invariant
            j <= params.len(),
            checked@.len() == j,
            args == Seq::new(
                params@.len(),
                |j: int| contract_spec(table@, params@[j], "extern `"@ + name@ + "` argument "@ + crate::text::decimal_digits(j as nat), nth_arg(j)),
            ),
            forall|k: int| 0 <= k < j ==> model(#[trigger] checked@[k]) == args[k],
        decreases params.len() - j,
    {
        let index = usize_to_string(j);
        let mut argument_path = crate::text::owned("extern `");
        argument_path.push_str(name);
        argument_path.push_str("` argument ");
        argument_path.push_str(index.as_str());
        checked.push(contract_call(params[j], argument_path.as_str(), nth_arg_form(j), table));
        j += 1;
    }
    proof {
        clj::lemma_models_from_elements(checked@, args);
    }
    let mut return_path = crate::text::owned("extern `");
    return_path.push_str(name);
    return_path.push_str("` return");
    let call = clj::call2("apply", clj::sym(o.target.as_str()), clj::vector(checked));
    contract_call(o.signature.ret, return_path.as_str(), call, table)
}

/// `(defn wrapper [& args] (cond …))`: the first overload whose runtime
/// checks accept the arguments is applied with checked arguments and
/// result; otherwise a contract violation is thrown.
#[verifier::loop_isolation(false)]
pub fn extern_dispatcher_form(name: &str, wrapper_name: &str, overloads: &Vec<TypedExtern>, table: &TypeTable) -> (out: Form)
    ensures
        model(out) == dispatcher_spec(table@, name@, wrapper_name@, overloads@),
{
    let ordered = order_overloads(overloads, table);
    let ghost os = deref_overloads(ordered@);
    let mut clauses: Vec<Form> = Vec::new();
    let mut o: usize = 0;
    assert(clj::models(clauses@) =~= dispatch_arms(table@, name@, os.take(0)));
    while o < ordered.len()
        invariant
            o <= ordered.len(),
            os == deref_overloads(ordered@),
            clj::models(clauses@) == dispatch_arms(table@, name@, os.take(o as int)),
        decreases ordered.len() - o,
    {
        proof {
            assert(os.take(o + 1).drop_last() =~= os.take(o as int));
            assert(os.take(o + 1).last() == *ordered@[o as int]);
        }
        let overload = ordered[o];
        let c = overload_condition(overload, table);
        let r = overload_call(name, overload, table);
        let ghost before = clauses@;
        clauses.push(c);
        clauses.push(r);
        proof {
            clj::lemma_models_push(before, c);
            clj::lemma_models_push(before.push(c), r);
            assert(clj::models(clauses@) =~= clj::models(before) + seq![model(c), model(r)]);
        }
        o += 1;
    }
    assert(os.take(os.len() as int) =~= os);
    let mut message = crate::text::owned("No runtime contract for extern `");
    message.push_str(name);
    message.push_str("` accepted the arguments");
    let mut arguments_path = crate::text::owned("extern `");
    arguments_path.push_str(name);
    arguments_path.push_str("` arguments");
    let entries = vec![
        (clj::kw("kind"), clj::kw("contract-violation")),
        (clj::kw("path"), clj::string(arguments_path.as_str())),
    ];
    proof {
        clj::lemma_pair_models_index(entries@);
        assert(clj::pair_models(entries@) =~= seq![
            (FormModel::Keyword("kind"@), FormModel::Keyword("contract-violation"@)),
            (FormModel::Keyword("path"@), st("extern `"@ + name@ + "` arguments"@)),
        ]);
    }
    let failure = clj::call1("throw", clj::call2("ex-info", clj::string(message.as_str()), clj::map(entries)));
    let e = clj::kw("else");
    let ghost before = clauses@;
    clauses.push(e);
    clauses.push(failure);
    proof {
        clj::lemma_models_push(before, e);
        clj::lemma_models_push(before.push(e), failure);
        assert(model(failure) == dispatch_failure_spec(name@));
        assert(clj::models(clauses@) =~= dispatch_arms(table@, name@, by_specificity(table@, overloads@)) + seq![
            FormModel::Keyword("else"@),
            dispatch_failure_spec(name@),
        ]);
    }
    let params = vec![clj::sym("&"), clj::sym("__rama_args")];
    proof {
        clj::lemma_models_from_elements(params@, seq![sy("&"@), sy("__rama_args"@)]);
    }
    let ghost cm = clj::models(clauses@);
    let body = clj::call("cond", clauses);
    proof {
        assert(seq![sy("cond"@)] + cm =~= seq![sy("cond"@)] + dispatch_arms(table@, name@, by_specificity(table@, overloads@)) + seq![
            FormModel::Keyword("else"@),
            dispatch_failure_spec(name@),
        ]);
    }
    clj::call3("defn", clj::sym(wrapper_name), clj::vector(params), body)
}

/// A count or index as a Clojure integer literal.
pub fn usize_as_i64(n: usize) -> (out: i64)
    ensures
        n <= i64::MAX ==> out == n,
        n > i64::MAX ==> out == i64::MAX,
{
    let m: u64 = n as u64;
    if m <= 9223372036854775807u64 {
        m as i64
    } else {
        i64::MAX
    }
}

} // verus!
