//! Op bodies as Rama dataflow fragments, with lifted Clojure helpers.

use vstd::prelude::*;
use crate::ast::{BinaryOp, BindingTarget, Block, Expr, LetPattern, MapEntry, OpDef, Param, Stmt, StructField, TypeExpr, ValueTypeExpr};
use crate::clj::{self, lemma_models_from_elements, lemma_pair_models_index, model, models, pair_models, Form, FormModel};
use crate::lower::{lemma_size_first, lemma_size_tail, lower_fn_expr, stmt_size, stmts_size};
use crate::rama_ir::{last_struct, Program};
use crate::text::{cat, chars_of, insert_sorted, owned, is_prefix, lemma_sorted_unique_determined, is_lowercase, is_lowercase_spec, sorted_unique, starts_with, str_eq, usize_to_string, views};

verus! {

/// The dataflow context expressions are lowered for.
#[derive(Clone, Copy)]
pub enum ExprCtx {
    Dataflow,
}

/// Names that stay bare symbols although they start lower-case.
pub open spec fn reserved_name(name: Seq<char>) -> bool {
    name == "nil"@ || name == "true"@ || name == "false"@ || name == "inc"@ || name == "identity"@
        || name == "long"@ || name == "set"@ || name == "disj"@ || name == "contains?"@ || name == "even?"@
        || name == "nil?"@ || name == "not"@ || name == "and"@ || name == "or"@ || name == "some?"@
        || name == "keypath"@ || name == "termval"@ || name == "term"@ || name == "multi-path"@
        || name == "nil->val"@ || name == "AFTER-ELEM"@ || name == "NONE>"@
}

/// A dataflow variable `*name` for a local name, the name itself otherwise.
pub open spec fn ident_name_spec(name: Seq<char>) -> Seq<char> {
    if name.len() > 0 && (is_lowercase_spec(name[0]) || name[0] == '_') && !reserved_name(name) {
        seq!['*'] + name
    } else {
        name
    }
}

fn is_reserved(name: &str) -> (r: bool)
    ensures
        r == reserved_name(name@),
{
    str_eq(name, "nil") || str_eq(name, "true") || str_eq(name, "false") || str_eq(name, "inc")
        || str_eq(name, "identity") || str_eq(name, "long") || str_eq(name, "set") || str_eq(name, "disj")
        || str_eq(name, "contains?") || str_eq(name, "even?") || str_eq(name, "nil?") || str_eq(name, "not")
        || str_eq(name, "and") || str_eq(name, "or") || str_eq(name, "some?") || str_eq(name, "keypath")
        || str_eq(name, "termval") || str_eq(name, "term") || str_eq(name, "multi-path")
        || str_eq(name, "nil->val") || str_eq(name, "AFTER-ELEM") || str_eq(name, "NONE>")
}

pub fn ident_name(name: &str) -> (out: String)
    ensures
        out@ == ident_name_spec(name@),
{
    let cs = chars_of(name);
    if cs.len() > 0 && (is_lowercase(cs[0]) || cs[0] == '_') && !is_reserved(name) {
        let mut out = String::new();
        out.push('*');
        out.push_str(name);
        out
    } else {
        crate::text::owned(name)
    }
}

/// `*` followed by `name`.
pub fn starred(name: &str) -> (out: String)
    ensures
        out@ == seq!['*'] + name@,
{
    let mut out = String::new();
    out.push('*');
    out.push_str(name);
    assert(out@ =~= seq!['*'] + name@);
    out
}

/// Whether the expression needs ordinary Clojure control flow (`if`,
/// `cond`, `let`, ternaries), which dataflow cannot express inline.
pub open spec fn has_control(e: Expr) -> bool
    decreases e,
{
    match e {
        Expr::Ternary { .. } => true,
        Expr::As { value, .. } => has_control(*value),
        Expr::Call(c) => c.callee.node@ == "if"@ || c.callee.node@ == "cond"@ || c.callee.node@ == "let"@
            || any_control(c.args@),
        Expr::List { elems, .. } => any_control(elems@),
        Expr::MapLit { entries, .. } => entries_control(entries@),
        Expr::Binary { left, right, .. } => has_control(*left) || has_control(*right),
        _ => false,
    }
}

pub open spec fn any_control(es: Seq<Expr>) -> bool
    decreases es,
{
    if es.len() == 0 {
        false
    } else {
        has_control(es[0]) || any_control(es.subrange(1, es.len() as int))
    }
}

pub open spec fn entries_control(es: Seq<crate::ast::MapEntry>) -> bool
    decreases es,
{
    if es.len() == 0 {
        false
    } else {
        has_control(es[0].key) || (match es[0].value {
            Some(v) => has_control(v),
            None => false,
        }) || entries_control(es.subrange(1, es.len() as int))
    }
}

#[verifier::loop_isolation(false)]
pub fn contains_clojure_control(expr: &Expr) -> (r: bool)
    ensures
        r == has_control(*expr),
    decreases expr,
{
    match expr {
        Expr::Ternary { .. } => true,
        Expr::As { value, .. } => contains_clojure_control(value),
        Expr::Call(call) => {
            let callee = call.callee.node.as_str();
            if str_eq(callee, "if") || str_eq(callee, "cond") || str_eq(callee, "let") {
                return true;
            }
            let mut i: usize = 0;
            assert(call.args@.subrange(0, call.args@.len() as int) =~= call.args@);
            while i < call.args.len()
                invariant
                    i <= call.args.len(),
                    any_control(call.args@) == any_control(call.args@.subrange(i as int, call.args@.len() as int)),
                decreases call.args.len() - i,
            {
                let ghost rest = call.args@.subrange(i as int, call.args@.len() as int);
                assert(rest.subrange(1, rest.len() as int) =~= call.args@.subrange(i + 1, call.args@.len() as int));
                assert(rest[0] == call.args@[i as int]);
                if contains_clojure_control(&call.args[i]) {
                    return true;
                }
                i += 1;
            }
            false
        }
        Expr::List { elems, .. } => {
            let mut i: usize = 0;
            assert(elems@.subrange(0, elems@.len() as int) =~= elems@);
            while i < elems.len()
                invariant
                    i <= elems.len(),
                    any_control(elems@) == any_control(elems@.subrange(i as int, elems@.len() as int)),
                decreases elems.len() - i,
            {
                let ghost rest = elems@.subrange(i as int, elems@.len() as int);
                assert(rest.subrange(1, rest.len() as int) =~= elems@.subrange(i + 1, elems@.len() as int));
                assert(rest[0] == elems@[i as int]);
                if contains_clojure_control(&elems[i]) {
                    return true;
                }
                i += 1;
            }
            false
        }
        Expr::MapLit { entries, .. } => {
            let mut i: usize = 0;
            assert(entries@.subrange(0, entries@.len() as int) =~= entries@);
            while i < entries.len()
                invariant
                    i <= entries.len(),
                    entries_control(entries@) == entries_control(entries@.subrange(i as int, entries@.len() as int)),
                decreases entries.len() - i,
            {
                let ghost rest = entries@.subrange(i as int, entries@.len() as int);
                assert(rest.subrange(1, rest.len() as int) =~= entries@.subrange(i + 1, entries@.len() as int));
                assert(rest[0] == entries@[i as int]);
                let found = contains_clojure_control(&entries[i].key) || match &entries[i].value {
                    Some(v) => contains_clojure_control(v),
                    None => false,
                };
                if found {
                    return true;
                }
                i += 1;
            }
            false
        }
        Expr::Binary { left, right, .. } => contains_clojure_control(left) || contains_clojure_control(right),
        _ => false,
    }
}

/// The dataflow locals an expression reads: identifiers that lower to a
/// `*`-prefixed symbol.
pub open spec fn locals_of(e: Expr) -> Set<Seq<char>>
    decreases e,
{
    match e {
        Expr::Ident(i) => if is_prefix("*"@, ident_name_spec(i.node@)) { set![i.node@] } else { Set::empty() },
        Expr::Call(c) => locals_all(c.args@),
        Expr::List { elems, .. } => locals_all(elems@),
        Expr::MapLit { entries, .. } => locals_entries(entries@),
        Expr::Binary { left, right, .. } => locals_of(*left).union(locals_of(*right)),
        Expr::Ternary { cond, then_branch, else_branch, .. } => locals_of(*cond).union(locals_of(*then_branch)).union(
            locals_of(*else_branch),
        ),
        Expr::As { value, .. } => locals_of(*value),
        _ => Set::empty(),
    }
}

pub open spec fn locals_all(es: Seq<Expr>) -> Set<Seq<char>>
    decreases es,
{
    if es.len() == 0 {
        Set::empty()
    } else {
        locals_all(es.subrange(0, es.len() - 1)).union(locals_of(es[es.len() - 1]))
    }
}

pub open spec fn locals_entries(es: Seq<MapEntry>) -> Set<Seq<char>>
    decreases es,
{
    if es.len() == 0 {
        Set::empty()
    } else {
        let last = es[es.len() - 1];
        locals_entries(es.subrange(0, es.len() - 1)).union(locals_of(last.key)).union(
            match last.value {
                Some(v) => locals_of(v),
                None => Set::empty(),
            },
        )
    }
}

/// Adds the names of the dataflow locals the expression reads to `out`.
#[verifier::loop_isolation(false)]
pub fn collect_locals(expr: &Expr, out: &mut Vec<String>)
    requires
        sorted_unique(views(old(out)@)),
    ensures
        sorted_unique(views(final(out)@)),
        forall|x: Seq<char>| views(old(out)@).contains(x) ==> views(final(out)@).contains(x),
        forall|x: Seq<char>|
            #![trigger views(final(out)@).contains(x)]
            #![trigger views(old(out)@).contains(x)]
            #![trigger locals_of(*expr).contains(x)]
            views(final(out)@).contains(x) <==> (views(old(out)@).contains(x) || locals_of(*expr).contains(x)),
    decreases expr,
{
    let ghost start = views(out@);
    match expr {
        Expr::Ident(ident) => {
            let shown = ident_name(ident.node.as_str());
            if starts_with(shown.as_str(), "*") {
                let name = ident.node.clone();
                assert(name@ == ident.node@);
                insert_sorted(out, name);
                assert forall|x: Seq<char>| views(out@).contains(x) <==> (start.contains(x) || locals_of(*expr).contains(x)) by {
                    if x == ident.node@ {
                        assert(views(out@).contains(x));
                    }
                }
            } else {
                assert(locals_of(*expr) =~= Set::<Seq<char>>::empty());
            }
        }
        Expr::Call(call) => {
            collect_all(&call.args, out);
        }
        Expr::List { elems, .. } => {
            collect_all(elems, out);
        }
        Expr::MapLit { entries, .. } => {
            let mut i: usize = 0;
            assert(entries@.subrange(0, 0) =~= Seq::<MapEntry>::empty());
            while i < entries.len()
                invariant
                    i <= entries.len(),
                    sorted_unique(views(out@)),
                    forall|x: Seq<char>|
                        #![trigger views(out@).contains(x)]
                        #![trigger locals_entries(entries@.subrange(0, i as int)).contains(x)]
                        views(out@).contains(x) <==> (start.contains(x) || locals_entries(entries@.subrange(0, i as int)).contains(x)),
                decreases entries.len() - i,
            {
                let ghost prev = views(out@);
                collect_locals(&entries[i].key, out);
                let ghost mid = views(out@);
                if let Some(value) = &entries[i].value {
                    collect_locals(value, out);
                }
                proof {
                    let more = entries@.subrange(0, i + 1);
                    assert(more.subrange(0, i as int) =~= entries@.subrange(0, i as int));
                    assert(more[i as int] == entries@[i as int]);
                    assert forall|x: Seq<char>|
                        #![trigger views(out@).contains(x)]
                        #![trigger locals_entries(more).contains(x)]
                        views(out@).contains(x) <==> (start.contains(x) || locals_entries(more).contains(x)) by {
                        assert(prev.contains(x) <==> (start.contains(x) || locals_entries(entries@.subrange(0, i as int)).contains(x)));
                        assert(mid.contains(x) <==> (prev.contains(x) || locals_of(entries@[i as int].key).contains(x)));
                    }
                }
                i += 1;
            }
            assert(entries@.subrange(0, entries.len() as int) =~= entries@);
        }
        Expr::Binary { left, right, .. } => {
            collect_locals(left, out);
            collect_locals(right, out);
        }
        Expr::Ternary { cond, then_branch, else_branch, .. } => {
            collect_locals(cond, out);
            collect_locals(then_branch, out);
            collect_locals(else_branch, out);
        }
        Expr::As { value, .. } => collect_locals(value, out),
        Expr::String(_) | Expr::Keyword(_) | Expr::Int(_) | Expr::Bool(_) => {
            assert(locals_of(*expr) =~= Set::<Seq<char>>::empty());
        },
    }
}

/// Adds the locals each expression reads to `out`.
#[verifier::loop_isolation(false)]
fn collect_all(es: &Vec<Expr>, out: &mut Vec<String>)
    requires
        sorted_unique(views(old(out)@)),
    ensures
        sorted_unique(views(final(out)@)),
        forall|x: Seq<char>| views(old(out)@).contains(x) ==> views(final(out)@).contains(x),
        forall|x: Seq<char>|
            #![trigger views(final(out)@).contains(x)]
            #![trigger views(old(out)@).contains(x)]
            #![trigger locals_all(es@).contains(x)]
            views(final(out)@).contains(x) <==> (views(old(out)@).contains(x) || locals_all(es@).contains(x)),
    decreases es, 0nat,
{
    let ghost start = views(out@);
    let mut i: usize = 0;
    assert(es@.subrange(0, 0) =~= Seq::<Expr>::empty());
    while i < es.len()
        invariant
            i <= es.len(),
            sorted_unique(views(out@)),
            forall|x: Seq<char>|
                #![trigger views(out@).contains(x)]
                #![trigger locals_all(es@.subrange(0, i as int)).contains(x)]
                views(out@).contains(x) <==> (start.contains(x) || locals_all(es@.subrange(0, i as int)).contains(x)),
        decreases es.len() - i,
    {
        let ghost prev = views(out@);
        collect_locals(&es[i], out);
        proof {
            let more = es@.subrange(0, i + 1);
            assert(more.subrange(0, i as int) =~= es@.subrange(0, i as int));
            assert(more[i as int] == es@[i as int]);
            assert forall|x: Seq<char>|
                #![trigger views(out@).contains(x)]
                #![trigger locals_all(more).contains(x)]
                views(out@).contains(x) <==> (start.contains(x) || locals_all(more).contains(x)) by {
                assert(prev.contains(x) <==> (start.contains(x) || locals_all(es@.subrange(0, i as int)).contains(x)));
            }
        }
        i += 1;
    }
    assert(es@.subrange(0, es.len() as int) =~= es@);
}

/// The head a call lowers to in dataflow.
pub open spec fn dataflow_callee(name: Seq<char>) -> Seq<char> {
    if name == "and"@ {
        "and>"@
    } else if name == "or"@ {
        "or>"@
    } else {
        name
    }
}

/// The dataflow form of a cast-free expression: calls keep their head
/// (`and`/`or` become `and>`/`or>`), lists become vectors, keywords and
/// strings become strings, identifiers become `ident_name_spec` symbols,
/// `==`/`!=` become `=`/`not=`, and ternaries become `if`.
pub open spec fn dataflow_spec(e: Expr) -> FormModel
    decreases e,
{
    match e {
        Expr::Call(c) => FormModel::List(seq![FormModel::Symbol(dataflow_callee(c.callee.node@))] + dataflow_all(c.args@)),
        Expr::List { elems, .. } => FormModel::Vector(dataflow_all(elems@)),
        Expr::MapLit { entries, .. } => FormModel::MapLit(dataflow_entries(entries@)),
        Expr::String(s) => FormModel::String(s.node@),
        Expr::Keyword(k) => FormModel::String(k.node@),
        Expr::Ident(i) => FormModel::Symbol(ident_name_spec(i.node@)),
        Expr::Int(n) => FormModel::Int(n.node as int),
        Expr::Bool(b) => FormModel::Bool(b.node),
        Expr::Binary { op, left, right, .. } => FormModel::List(
            seq![
                FormModel::Symbol(if op == BinaryOp::Eq { "="@ } else { "not="@ }),
                dataflow_spec(*left),
                dataflow_spec(*right),
            ],
        ),
        Expr::Ternary { cond, then_branch, else_branch, .. } => FormModel::List(
            seq![
                FormModel::Symbol("if"@),
                dataflow_spec(*cond),
                dataflow_spec(*then_branch),
                dataflow_spec(*else_branch),
            ],
        ),
        Expr::As { value, ty, .. } => crate::contracts::checked_at_spec(ty.node, crate::contracts::cast_label(ty.node), dataflow_spec(*value)),
    }
}

pub open spec fn dataflow_all(es: Seq<Expr>) -> Seq<FormModel>
    decreases es,
{
    if es.len() == 0 {
        Seq::empty()
    } else {
        seq![dataflow_spec(es[0])] + dataflow_all(es.subrange(1, es.len() as int))
    }
}

pub open spec fn dataflow_entries(es: Seq<crate::ast::MapEntry>) -> Seq<(FormModel, FormModel)>
    decreases es,
{
    if es.len() == 0 {
        Seq::empty()
    } else {
        seq![
            (dataflow_spec(es[0].key), match es[0].value {
                Some(v) => dataflow_spec(v),
                None => dataflow_spec(es[0].key),
            }),
        ] + dataflow_entries(es.subrange(1, es.len() as int))
    }
}

proof fn lemma_dataflow_all_index(es: Seq<Expr>)
    ensures
        dataflow_all(es).len() == es.len(),
        forall|i: int| 0 <= i < es.len() ==> (#[trigger] dataflow_all(es)[i]) == dataflow_spec(es[i]),
    decreases es.len(),
{
    if es.len() > 0 {
        let rest = es.subrange(1, es.len() as int);
        lemma_dataflow_all_index(rest);
        assert forall|i: int| 0 <= i < es.len() implies (#[trigger] dataflow_all(es)[i]) == dataflow_spec(es[i]) by {
            if i > 0 {
                assert(dataflow_all(es)[i] == dataflow_all(rest)[i - 1]);
                assert(rest[i - 1] == es[i]);
            }
        }
    }
}

proof fn lemma_dataflow_entries_index(es: Seq<crate::ast::MapEntry>)
    ensures
        dataflow_entries(es).len() == es.len(),
        forall|i: int| 0 <= i < es.len() ==> (#[trigger] dataflow_entries(es)[i]) == (dataflow_spec(es[i].key), match es[i].value {
            Some(v) => dataflow_spec(v),
            None => dataflow_spec(es[i].key),
        }),
    decreases es.len(),
{
    if es.len() > 0 {
        let rest = es.subrange(1, es.len() as int);
        lemma_dataflow_entries_index(rest);
        assert forall|i: int| 0 <= i < es.len() implies (#[trigger] dataflow_entries(es)[i]) == (dataflow_spec(es[i].key), match es[i].value {
            Some(v) => dataflow_spec(v),
            None => dataflow_spec(es[i].key),
        }) by {
            if i > 0 {
                assert(dataflow_entries(es)[i] == dataflow_entries(rest)[i - 1]);
                assert(rest[i - 1] == es[i]);
            }
        }
    }
}



/// An expression as a dataflow form: `and`/`or` become `and>`/`or>`,
/// keywords become REST string keys, locals become `*name`.
#[verifier::loop_isolation(false)]
pub fn expr(e: &Expr, ctx: ExprCtx) -> (out: Form)
    ensures
        model(out) == dataflow_spec(*e),
    decreases e,
{
    match e {
        Expr::Call(c) => {
            let name = c.callee.node.as_str();
            let callee = if str_eq(name, "and") {
                "and>"
            } else if str_eq(name, "or") {
                "or>"
            } else {
                name
            };
            assert(callee@ == dataflow_callee(c.callee.node@));
            let mut args: Vec<Form> = Vec::new();
            let mut i: usize = 0;
            while i < c.args.len()
                invariant
                    i <= c.args.len(),
                    args@.len() == i,
                    forall|k: int| 0 <= k < i ==> model(#[trigger] args@[k]) == dataflow_spec(c.args@[k]),
                decreases c.args.len() - i,
            {
                args.push(expr(&c.args[i], ctx));
                i += 1;
            }
            proof {
                lemma_dataflow_all_index(c.args@);
                lemma_models_from_elements(args@, dataflow_all(c.args@));
            }
            let r = clj::call(callee, args);
            assert(model(r) == dataflow_spec(*e));
            r
        }
        Expr::List { elems, .. } => {
            let mut xs: Vec<Form> = Vec::new();
            let mut i: usize = 0;
            while i < elems.len()
                invariant
                    i <= elems.len(),
                    xs@.len() == i,
                    forall|k: int| 0 <= k < i ==> model(#[trigger] xs@[k]) == dataflow_spec(elems@[k]),
                decreases elems.len() - i,
            {
                xs.push(expr(&elems[i], ctx));
                i += 1;
            }
            proof {
                lemma_dataflow_all_index(elems@);
                lemma_models_from_elements(xs@, dataflow_all(elems@));
            }
            let r = clj::vector(xs);
            assert(model(r) == dataflow_spec(*e));
            r
        }
        Expr::MapLit { entries, .. } => {
            let mut out: Vec<(Form, Form)> = Vec::new();
            let mut i: usize = 0;
            while i < entries.len()
                invariant
                    i <= entries.len(),
                    out@.len() == i,
                    forall|k: int| 0 <= k < i ==> (model((#[trigger] out@[k]).0), model(out@[k].1)) == (
                        dataflow_spec(entries@[k].key),
                        match entries@[k].value {
                            Some(v) => dataflow_spec(v),
                            None => dataflow_spec(entries@[k].key),
                        },
                    ),
                decreases entries.len() - i,
            {
                let k = expr(&entries[i].key, ctx);
                let v = match &entries[i].value {
                    Some(v) => expr(v, ctx),
                    None => k.clone(),
                };
                out.push((k, v));
                i += 1;
            }
            proof {
                lemma_dataflow_entries_index(entries@);
                lemma_pair_models_index(out@);
                assert(pair_models(out@) =~= dataflow_entries(entries@));
            }
            let r = clj::map(out);
            assert(model(r) == dataflow_spec(*e));
            r
        }
        Expr::String(s) => clj::string(s.node.as_str()),
        Expr::Keyword(k) => clj::string(k.node.as_str()),
        Expr::Ident(i) => {
            let name = ident_name(i.node.as_str());
            clj::sym(name.as_str())
        }
        Expr::Int(n) => {
            let r = clj::integer(n.node);
            assert(model(r) == dataflow_spec(*e));
            r
        }
        Expr::Bool(b) => {
            let r = clj::bool(b.node);
            assert(model(r) == dataflow_spec(*e));
            r
        }
        Expr::Binary { op, left, right, .. } => {
            let head = match op {
                BinaryOp::Eq => "=",
                BinaryOp::NotEq => "not=",
            };
            let l = expr(left, ctx);
            let r = expr(right, ctx);
            let mut args: Vec<Form> = Vec::new();
            args.push(l);
            args.push(r);
            assert(args@ =~= seq![l, r]);
            proof {
                lemma_models_from_elements(args@, seq![dataflow_spec(**left), dataflow_spec(**right)]);
                assert(seq![FormModel::Symbol(head@)] + seq![dataflow_spec(**left), dataflow_spec(**right)] =~= seq![
                    FormModel::Symbol(head@),
                    dataflow_spec(**left),
                    dataflow_spec(**right),
                ]);
            }
            let out = clj::call(head, args);
            assert(model(out) == dataflow_spec(*e));
            out
        }
        Expr::Ternary { cond, then_branch, else_branch, .. } => {
            let c = expr(cond, ctx);
            let t = expr(then_branch, ctx);
            let f = expr(else_branch, ctx);
            let mut args: Vec<Form> = Vec::new();
            args.push(c);
            args.push(t);
            args.push(f);
            assert(args@ =~= seq![c, t, f]);
            proof {
                lemma_models_from_elements(
                    args@,
                    seq![dataflow_spec(**cond), dataflow_spec(**then_branch), dataflow_spec(**else_branch)],
                );
                assert(seq![FormModel::Symbol("if"@)] + seq![
                    dataflow_spec(**cond),
                    dataflow_spec(**then_branch),
                    dataflow_spec(**else_branch),
                ] =~= seq![
                    FormModel::Symbol("if"@),
                    dataflow_spec(**cond),
                    dataflow_spec(**then_branch),
                    dataflow_spec(**else_branch),
                ]);
            }
            let r = clj::call("if", args);
            assert(model(r) == dataflow_spec(*e));
            r
        }
        Expr::As { value, ty, .. } => crate::contracts::checked_as(expr(value, ctx), &ty.node),
    }
}

/// `{*a "a" *b "b"}`: each destructured name bound to its key.
pub open spec fn names_target_spec(names: Seq<crate::span::Spanned<String>>) -> FormModel {
    FormModel::MapLit(
        names.map_values(|n: crate::span::Spanned<String>| (FormModel::Symbol(seq!['*'] + n.node@), FormModel::String(n.node@))),
    )
}

/// `{*a "a" *b "b"}` for destructured names, `*name` for one name.
fn names_target(names: &Vec<crate::span::Spanned<String>>) -> (out: Form)
    ensures
        model(out) == names_target_spec(names@),
{
    let mut entries: Vec<(Form, Form)> = Vec::new();
    let mut i: usize = 0;
    while i < names.len()
        invariant
            i <= names.len(),
            entries@.len() == i,
            forall|k: int| 0 <= k < i ==> (model((#[trigger] entries@[k]).0), model(entries@[k].1)) == (
                FormModel::Symbol(seq!['*'] + names@[k].node@),
                FormModel::String(names@[k].node@),
            ),
        decreases names.len() - i,
    {
        entries.push((clj::sym(starred(names[i].node.as_str()).as_str()), clj::string(names[i].node.as_str())));
        i += 1;
    }
    proof {
        clj::lemma_pair_models_index(entries@);
        assert(clj::pair_models(entries@) =~= names_target_spec(names@)->MapLit_0);
    }
    clj::map(entries)
}

pub fn let_pattern(pattern: &LetPattern) -> (out: Form)
    ensures
        model(out) == match *pattern {
            LetPattern::Name(n) => FormModel::Symbol(seq!['*'] + n.node@),
            LetPattern::Destructure(names) => names_target_spec(names@),
        },
{
    match pattern {
        LetPattern::Name(n) => clj::sym(starred(n.node.as_str()).as_str()),
        LetPattern::Destructure(names) => names_target(names),
    }
}

pub fn binding_target(target: &BindingTarget) -> (out: Form)
    ensures
        model(out) == match *target {
            BindingTarget::Name(n) => FormModel::Symbol(seq!['*'] + n.node@),
            BindingTarget::Destructure(names) => names_target_spec(names@),
        },
{
    match target {
        BindingTarget::Name(n) => clj::sym(starred(n.node.as_str()).as_str()),
        BindingTarget::Destructure(names) => names_target(names),
    }
}

/// A single navigator as itself, several as a vector.
pub fn path_form(path: &Vec<Expr>) -> (out: Form)
    ensures
        model(out) == if path@.len() == 1 {
            dataflow_spec(path@[0])
        } else {
            FormModel::Vector(path@.map_values(|e: Expr| dataflow_spec(e)))
        },
{
    if path.len() == 1 {
        return expr(&path[0], ExprCtx::Dataflow);
    }
    let mut xs: Vec<Form> = Vec::new();
    let mut i: usize = 0;
    while i < path.len()
        invariant
            i <= path.len(),
            xs@.len() == i,
            forall|k: int| 0 <= k < i ==> model(#[trigger] xs@[k]) == dataflow_spec(path@[k]),
        decreases path.len() - i,
    {
        xs.push(expr(&path[i], ExprCtx::Dataflow));
        i += 1;
    }
    proof {
        clj::lemma_models_from_elements(xs@, path@.map_values(|e: Expr| dataflow_spec(e)));
    }
    clj::vector(xs)
}

/// `$$name` for a pstate.
pub fn pstate_symbol(name: &str) -> (out: Form)
    ensures
        model(out) == FormModel::Symbol(seq!['$', '$'] + name@),
{
    let mut text = String::new();
    text.push('$');
    text.push('$');
    text.push_str(name);
    assert(text@ =~= seq!['$', '$'] + name@);
    clj::sym(text.as_str())
}

proof fn lemma_elem_le_suffix(ss: Seq<Stmt>, from: int, i: int)
    requires
        0 <= from <= i < ss.len(),
    ensures
        stmt_size(ss[i]) <= stmts_size(ss.subrange(from, ss.len() as int)),
    decreases i - from,
{
    let sub = ss.subrange(from, ss.len() as int);
    lemma_size_first(sub);
    if i > from {
        assert(sub.subrange(1, sub.len() as int) =~= ss.subrange(from + 1, ss.len() as int));
        lemma_elem_le_suffix(ss, from + 1, i);
    }
}

proof fn lemma_suffix_lt(ss: Seq<Stmt>, from: int, end: int)
    requires
        0 <= from < end <= ss.len(),
    ensures
        stmts_size(ss.subrange(end, ss.len() as int)) < stmts_size(ss.subrange(from, ss.len() as int)),
{
    let sub = ss.subrange(from, ss.len() as int);
    lemma_size_tail(sub, end - from);
    assert(sub.subrange(end - from, sub.len() as int) =~= ss.subrange(end, ss.len() as int));
}

/// Compiles one op's statements; helpers collect the ordinary Clojure
/// functions the dataflow calls.
pub struct OpCompiler {
    pub op_name: String,
    pub helpers: Vec<Form>,
    pub fail_gen: usize,
    pub expr_gen: usize,
}

impl OpCompiler {
    /// Dataflow forms for `stmts[from..]`: a run of `fail`s becomes one
    /// helper and one `<<if` whose else branch holds the rest.
    #[verifier::loop_isolation(false)]
    pub fn stmts(&mut self, stmts: &Vec<Stmt>, from: usize) -> (out: Vec<Form>)
        requires
            from <= stmts.len(),
        ensures
            from == stmts@.len() ==> clj::models(out@) == seq![FormModel::Nil],
            from < stmts@.len() && first_fail(stmts@, from as int) == stmts@.len() ==> out@.len() == stmts@.len() - from,
            from < stmts@.len() && first_fail(stmts@, from as int) < stmts@.len() ==> out@.len() == first_fail(stmts@, from as int) - from + 2
                && collapsed_guard(
                model(out@[out@.len() - 2]),
                model(out@[out@.len() - 1]),
                fail_run_end(stmts@, first_fail(stmts@, from as int)) < stmts@.len(),
            ),
            from < stmts@.len() && first_fail(stmts@, from as int) < stmts@.len() ==> exists|a: OpCompiler, b: OpCompiler, err: Seq<char>|
                #[trigger] guarded(
                a,
                b,
                fail_run_pairs(stmts@, first_fail(stmts@, from as int), fail_run_end(stmts@, first_fail(stmts@, from as int))),
                model(out@[out@.len() - 2]),
                err,
            ) && compiler_grows(*old(self), a) && compiler_grows(b, *final(self)),
            compiler_grows(*old(self), *final(self)),
        decreases stmts_size(stmts@.subrange(from as int, stmts@.len() as int)), 1nat,
    {
        if from >= stmts.len() {
            let out = vec![clj::nil()];
            proof {
                clj::lemma_models_from_elements(out@, seq![FormModel::Nil]);
            }
            return out;
        }
        let mut out: Vec<Form> = Vec::new();
        let mut i: usize = from;
        while i < stmts.len() && !matches!(&stmts[i], Stmt::Fail { .. })
            invariant
                from <= i <= stmts.len(),
                out@.len() == i - from,
                forall|k: int| from <= k < i ==> !(#[trigger] stmts@[k] is Fail),
                compiler_grows(*old(self), *self),
            decreases stmts.len() - i,
        {
            proof {
                lemma_elem_le_suffix(stmts@, from as int, i as int);
            }
            out.push(self.stmt(&stmts[i]));
            i += 1;
        }
        if i >= stmts.len() {
            proof {
                lemma_no_fail(stmts@, from as int);
            }
            return out;
        }
        let start = i;
        proof {
            lemma_first_fail_at(stmts@, from as int, i as int);
        }
        let mut pairs: Vec<(&Expr, &Expr)> = Vec::new();
        proof {
            assert(fail_pairs(pairs@) =~= fail_run_pairs(stmts@, start as int, start as int));
        }
        while i < stmts.len() && matches!(&stmts[i], Stmt::Fail { .. })
            invariant
                start <= i <= stmts.len(),
                start < stmts.len(),
                stmts@[start as int] is Fail,
                forall|k: int| start <= k < i ==> (#[trigger] stmts@[k]) is Fail,
                fail_pairs(pairs@) == fail_run_pairs(stmts@, start as int, i as int),
            decreases stmts.len() - i,
        {
            if let Stmt::Fail { value, condition, .. } = &stmts[i] {
                let ghost before = pairs@;
                pairs.push((value, condition));
                proof {
                    assert(fail_pairs(pairs@) =~= fail_pairs(before).push((*value, *condition)));
                }
            }
            i += 1;
        }
        let ghost at_guard = *self;
        proof {
            lemma_fail_run_end_at(stmts@, start as int, i as int);
        }
        let (bind_error, err) = self.fail_guard(&pairs);
        let ghost after_guard = *self;
        let ghost call_model = model(bind_error);
        proof {
            assert forall|k: int| 0 <= k < at_guard.helpers@.len() implies #[trigger] after_guard.helpers@[k] == at_guard.helpers@[k] by {
                assert(after_guard.helpers@.drop_last()[k] == after_guard.helpers@[k]);
            }
            assert(compiler_grows(at_guard, after_guard));
        }
        let test = clj::call1("some?", clj::sym(err.as_str()));
        let ack = ack_error(err.as_str());
        let mut if_form: Vec<Form> = vec![clj::sym("<<if"), test, ack];
        let ghost head3 = if_form@;
        if i < stmts.len() {
            let marker = clj::call("else>", Vec::new());
            if_form.push(marker);
            proof {
                lemma_suffix_lt(stmts@, from as int, i as int);
                assert(clj::models(Seq::<Form>::empty()) =~= Seq::<FormModel>::empty());
                assert(seq![FormModel::Symbol("else>"@)] + Seq::<FormModel>::empty() =~= seq![FormModel::Symbol("else>"@)]);
            }
            let mut rest = self.stmts(stmts, i);
            if_form.append(&mut rest);
        }
        let ghost ifs = if_form@;
        out.push(bind_error);
        out.push(Form::List(if_form));
        proof {
            clj::lemma_models_index(ifs);
            assert(ifs[0] == head3[0] && ifs[1] == head3[1] && ifs[2] == head3[2]);
            assert(collapsed_guard(model(out@[out@.len() - 2]), model(out@[out@.len() - 1]), i < stmts@.len()));
            assert(model(out@[out@.len() - 2]) == call_model);
            assert(guarded(at_guard, after_guard, fail_run_pairs(stmts@, start as int, i as int), call_model, err@));
        }
        out
    }

    /// The helper that evaluates a run of `fail` guards, and the dataflow
    /// call binding its error to `*__errN`.
    pub fn fail_guard(&mut self, fails: &Vec<(&Expr, &Expr)>) -> (out: (Form, String))
        ensures
            guarded(*old(self), *final(self), fail_pairs(fails@), model(out.0), out.1@),
    {
        self.fail_gen = self.fail_gen.saturating_add(1);
        let count = usize_to_string(self.fail_gen);
        let mut err = owned("*__err");
        err.push_str(count.as_str());
        let mut helper_name = owned("__");
        helper_name.push_str(self.op_name.as_str());
        helper_name.push_str("-fail-");
        helper_name.push_str(count.as_str());
        let ghost fs = fail_pairs(fails@);
        let mut variables: Vec<String> = Vec::new();
        assert(views(variables@) =~= Seq::<Seq<char>>::empty());
        let mut cond_args: Vec<Form> = Vec::new();
        let mut i: usize = 0;
        proof {
            assert(fs.take(0) =~= Seq::<(Expr, Expr)>::empty());
            assert(clj::models(cond_args@) =~= fail_arms(fs.take(0)));
        }
        while i < fails.len()
            invariant
                i <= fails.len(),
                fs == fail_pairs(fails@),
                sorted_unique(views(variables@)),
                forall|x: Seq<char>| #![trigger views(variables@).contains(x)] views(variables@).contains(x) <==> fails_locals(fs.take(i as int)).contains(x),
                clj::models(cond_args@) == fail_arms(fs.take(i as int)),
            decreases fails.len() - i,
        {
            proof {
                assert(fs.take(i + 1).drop_last() =~= fs.take(i as int));
                assert(fs.take(i + 1).last() == fs[i as int]);
                assert(fs[i as int] == (*fails@[i as int].0, *fails@[i as int].1));
            }
            let (value, condition) = fails[i];
            let ghost v0 = views(variables@);
            collect_locals(condition, &mut variables);
            let ghost v1 = views(variables@);
            collect_locals(value, &mut variables);
            proof {
                assert forall|x: Seq<char>| #![trigger views(variables@).contains(x)] views(variables@).contains(x) <==> fails_locals(fs.take(i + 1)).contains(x) by {
                    assert(v1.contains(x) <==> (v0.contains(x) || locals_of(*condition).contains(x)));
                    assert(v0.contains(x) <==> fails_locals(fs.take(i as int)).contains(x));
                }
            }
            let c = lower_fn_expr(condition);
            let v = lower_fn_expr(value);
            let ghost before = cond_args@;
            cond_args.push(c);
            cond_args.push(v);
            proof {
                clj::lemma_models_push(before, c);
                clj::lemma_models_push(before.push(c), v);
                assert(clj::models(cond_args@) =~= fail_arms(fs.take(i + 1)));
            }
            i += 1;
        }
        assert(fs.take(fails@.len() as int) =~= fs);
        proof {
            let asc = crate::clj_verify::ascending(fails_locals(fs));
            assert(sorted_unique(asc) && forall|x: Seq<char>| asc.contains(x) <==> fails_locals(fs).contains(x));
            lemma_sorted_unique_determined(asc, views(variables@));
        }
        let e = clj::kw("else");
        let ghost before = cond_args@;
        cond_args.push(e);
        cond_args.push(clj::nil());
        proof {
            clj::lemma_models_push(before, e);
            clj::lemma_models_push(before.push(e), Form::Nil);
            assert(clj::models(cond_args@) =~= fail_arms(fs) + seq![FormModel::Keyword("else"@), FormModel::Nil]);
            assert(seq![FormModel::Symbol("cond"@)] + clj::models(cond_args@) =~= seq![FormModel::Symbol("cond"@)] + fail_arms(fs) + seq![
                FormModel::Keyword("else"@),
                FormModel::Nil,
            ]);
            assert(helper_name@ =~= "__"@ + old(self).op_name@ + "-fail-"@ + crate::text::decimal_digits(self.fail_gen as nat));
            assert(err@ =~= "*__err"@ + crate::text::decimal_digits(self.fail_gen as nat));
        }
        let names = symbols(&variables, false);
        let helper = clj::call3("defn", clj::sym(helper_name.as_str()), names, clj::call("cond", cond_args));
        let ghost hs = self.helpers@;
        self.helpers.push(helper);
        proof {
            assert(self.helpers@.drop_last() =~= hs);
            assert(name_symbols(variables@, false) =~= ascending_names(fails_locals(fs), false));
        }
        let mut helper_args = starred_symbols(&variables);
        proof {
            assert(name_symbols(variables@, true) =~= ascending_names(fails_locals(fs), true));
        }
        let ghost a0 = helper_args@;
        let arrow = clj::sym(":>");
        let target = clj::sym(err.as_str());
        helper_args.push(arrow);
        helper_args.push(target);
        proof {
            clj::lemma_models_push(a0, arrow);
            clj::lemma_models_push(a0.push(arrow), target);
            assert(seq![FormModel::Symbol(helper_name@)] + clj::models(helper_args@) =~= seq![FormModel::Symbol(helper_name@)]
                + ascending_names(fails_locals(fs), true) + seq![FormModel::Symbol(":>"@), FormModel::Symbol(err@)]);
        }
        (clj::call(helper_name.as_str(), helper_args), err)
    }

    /// One statement as one dataflow form.
    #[verifier::loop_isolation(false)]
    pub fn stmt(&mut self, stmt: &Stmt) -> (out: Form)
        ensures
            compiler_grows(*old(self), *final(self)),
        decreases stmt_size(*stmt), 0nat,
    {
        match stmt {
            Stmt::Let { pattern, value, .. } => self.bind(value, &let_pattern(pattern)),
            Stmt::Select { pstate, path, target, .. } => clj::call(
                "local-select>",
                vec![path_form(path), pstate_symbol(pstate.node.as_str()), clj::sym(":>"), binding_target(target)],
            ),
            Stmt::Transform { pstate, path, .. } => {
                let mut navs: Vec<Form> = Vec::new();
                let mut i: usize = 0;
                while i < path.len()
                    invariant
                        i <= path.len(),
                    decreases path.len() - i,
                {
                    navs.push(expr(&path[i], ExprCtx::Dataflow));
                    i += 1;
                }
                clj::call("local-transform>", vec![clj::vector(navs), pstate_symbol(pstate.node.as_str())])
            }
            Stmt::Fail { value, condition, .. } => {
                let pairs: Vec<(&Expr, &Expr)> = vec![(value, condition)];
                let (bind_error, err) = self.fail_guard(&pairs);
                let if_form = Form::List(
                    vec![
                        clj::sym("<<if"),
                        clj::call("some?", vec![clj::sym(err.as_str())]),
                        ack_error(err.as_str()),
                    ],
                );
                Form::List(vec![clj::sym("do"), bind_error, if_form])
            }
            Stmt::Return { value, .. } => clj::call("ack-return>", vec![expr(value, ExprCtx::Dataflow)]),
            Stmt::Hash { key, .. } => clj::call("|hash", vec![expr(key, ExprCtx::Dataflow)]),
            Stmt::Effect { value, .. } => expr(value, ExprCtx::Dataflow),
            Stmt::If { condition, consequence, alternative, .. } => {
                let mut xs: Vec<Form> = vec![clj::sym("<<if"), expr(condition, ExprCtx::Dataflow)];
                proof {
                    assert(consequence.stmts@.subrange(0, consequence.stmts@.len() as int) =~= consequence.stmts@);
                }
                let mut then_forms = self.stmts(&consequence.stmts, 0);
                xs.append(&mut then_forms);
                match alternative {
                    Some(alt) => {
                        proof {
                            assert(alt.stmts@.subrange(0, alt.stmts@.len() as int) =~= alt.stmts@);
                        }
                        xs.push(clj::call("else>", Vec::new()));
                        let mut else_forms = self.stmts(&alt.stmts, 0);
                        xs.append(&mut else_forms);
                    }
                    None => {},
                }
                Form::List(xs)
            }
        }
    }

    /// Binds `value` to `target` in dataflow.
    pub fn bind(&mut self, value: &Expr, target: &Form) -> (out: Form)
        ensures
            has_control(*value) ==> lifted(*old(self), *final(self), *value, model(*target), model(out)),
            !has_control(*value) ==> *final(self) == *old(self) && model(out) == bound_spec(*value, model(*target)),
    {
        if contains_clojure_control(value) {
            return self.lift_expr(value, target);
        }
        let t = target.clone();
        match value {
            Expr::Call(_) => {
                let e = expr(value, ExprCtx::Dataflow);
                assert(dataflow_spec(*value) is List);
                match e {
                    Form::List(call) => {
                        let mut call = call;
                        let ghost c0 = call@;
                        let arrow = clj::sym(":>");
                        call.push(arrow);
                        call.push(t);
                        proof {
                            clj::lemma_models_push(c0, arrow);
                            clj::lemma_models_push(c0.push(arrow), t);
                            assert(clj::models(call@) =~= dataflow_spec(*value)->List_0 + seq![FormModel::Symbol(":>"@), model(*target)]);
                        }
                        Form::List(call)
                    }
                    other => other,
                }
            },
            Expr::Ident(i) => {
                if str_eq(i.node.as_str(), "event") || !starts_with(i.node.as_str(), "*") {
                    clj::call3("identity", clj::sym(starred(i.node.as_str()).as_str()), clj::sym(":>"), t)
                } else {
                    clj::call3("identity", expr(value, ExprCtx::Dataflow), clj::sym(":>"), t)
                }
            }
            _ => clj::call3("identity", expr(value, ExprCtx::Dataflow), clj::sym(":>"), t),
        }
    }

    /// Lifts an expression with Clojure control flow into a helper `defn`
    /// over the locals it reads, and calls it from dataflow.
    pub fn lift_expr(&mut self, value: &Expr, target: &Form) -> (out: Form)
        ensures
            lifted(*old(self), *final(self), *value, model(*target), model(out)),
    {
        self.expr_gen = self.expr_gen.saturating_add(1);
        let count = usize_to_string(self.expr_gen);
        let mut helper_name = owned("__");
        helper_name.push_str(self.op_name.as_str());
        helper_name.push_str("-expr-");
        helper_name.push_str(count.as_str());
        let mut variables: Vec<String> = Vec::new();
        assert(views(variables@) =~= Seq::<Seq<char>>::empty());
        collect_locals(value, &mut variables);
        proof {
            let asc = crate::clj_verify::ascending(locals_of(*value));
            assert(sorted_unique(asc) && forall|x: Seq<char>| asc.contains(x) <==> locals_of(*value).contains(x));
            lemma_sorted_unique_determined(asc, views(variables@));
            assert(name_symbols(variables@, false) =~= ascending_locals(*value, false));
        }
        let helper = clj::call3("defn", clj::sym(helper_name.as_str()), symbols(&variables, false), lower_fn_expr(value));
        let ghost hs = self.helpers@;
        self.helpers.push(helper);
        proof {
            assert(self.helpers@.drop_last() =~= hs);
            assert(helper_name@ == lifted_name(old(self).op_name@, self.expr_gen));
        }
        let mut args = starred_symbols(&variables);
        proof {
            assert(name_symbols(variables@, true) =~= ascending_locals(*value, true));
        }
        let ghost a0 = args@;
        let arrow = clj::sym(":>");
        let t = target.clone();
        args.push(arrow);
        args.push(t);
        proof {
            clj::lemma_models_push(a0, arrow);
            clj::lemma_models_push(a0.push(arrow), t);
            assert(clj::models(args@) =~= ascending_locals(*value, true) + seq![FormModel::Symbol(":>"@), model(*target)]);
            assert(seq![FormModel::Symbol(helper_name@)] + clj::models(args@) =~= seq![FormModel::Symbol(helper_name@)] + ascending_locals(*value, true)
                + seq![FormModel::Symbol(":>"@), model(*target)]);
        }
        clj::call(helper_name.as_str(), args)
    }
}

pub open spec fn fail_pairs(fails: Seq<(&Expr, &Expr)>) -> Seq<(Expr, Expr)> {
    fails.map_values(|f: (&Expr, &Expr)| (*f.0, *f.1))
}

/// The locals a run of `(value, condition)` guards reads.
pub open spec fn fails_locals(fs: Seq<(Expr, Expr)>) -> Set<Seq<char>>
    decreases fs.len(),
{
    if fs.len() == 0 {
        Set::empty()
    } else {
        fails_locals(fs.drop_last()).union(locals_of(fs.last().1)).union(locals_of(fs.last().0))
    }
}

/// The `cond` arms of a fail helper: each condition, then its value.
pub open spec fn fail_arms(fs: Seq<(Expr, Expr)>) -> Seq<FormModel>
    decreases fs.len(),
{
    if fs.len() == 0 {
        Seq::empty()
    } else {
        fail_arms(fs.drop_last()) + seq![crate::lower::fn_expr_spec(fs.last().1), crate::lower::fn_expr_spec(fs.last().0)]
    }
}

pub open spec fn ascending_names(names: Set<Seq<char>>, star: bool) -> Seq<FormModel> {
    crate::clj_verify::ascending(names).map_values(|n: Seq<char>| FormModel::Symbol(if star { seq!['*'] + n } else { n }))
}

/// A run of fail guards collapsed: the counter steps on (saturating), a
/// helper `(defn __op-fail-N [locals…] (cond c1 v1 … :else nil))` is
/// appended, and the call `(__op-fail-N *locals… :> *__errN)` binds the
/// first failing value to `*__errN`.
pub open spec fn guarded(before: OpCompiler, after: OpCompiler, fs: Seq<(Expr, Expr)>, call: FormModel, err: Seq<char>) -> bool {
    let n = if before.fail_gen < usize::MAX { (before.fail_gen + 1) as usize } else { before.fail_gen };
    let name = "__"@ + before.op_name@ + "-fail-"@ + crate::text::decimal_digits(n as nat);
    &&& after.op_name == before.op_name
    &&& after.expr_gen == before.expr_gen
    &&& after.fail_gen == n
    &&& err == "*__err"@ + crate::text::decimal_digits(n as nat)
    &&& after.helpers@.len() == before.helpers@.len() + 1
    &&& after.helpers@.drop_last() == before.helpers@
    &&& model(after.helpers@.last()) == FormModel::List(
        seq![
            FormModel::Symbol("defn"@),
            FormModel::Symbol(name),
            FormModel::Vector(ascending_names(fails_locals(fs), false)),
            FormModel::List(seq![FormModel::Symbol("cond"@)] + fail_arms(fs) + seq![FormModel::Keyword("else"@), FormModel::Nil]),
        ],
    )
    &&& call == FormModel::List(
        seq![FormModel::Symbol(name)] + ascending_names(fails_locals(fs), true) + seq![FormModel::Symbol(":>"@), FormModel::Symbol(err)],
    )
}

/// Where the first `fail` at or after `from` stands; the length when there
/// is none.
pub open spec fn first_fail(ss: Seq<Stmt>, from: int) -> int
    decreases ss.len() - from,
{
    if from >= ss.len() || from < 0 {
        ss.len() as int
    } else if ss[from] is Fail {
        from
    } else {
        first_fail(ss, from + 1)
    }
}

/// Where the run of `fail`s starting at `start` ends.
pub open spec fn fail_run_end(ss: Seq<Stmt>, start: int) -> int
    decreases ss.len() - start,
{
    if start >= ss.len() || start < 0 {
        ss.len() as int
    } else if ss[start] is Fail {
        fail_run_end(ss, start + 1)
    } else {
        start
    }
}

proof fn lemma_first_fail_at(ss: Seq<Stmt>, from: int, i: int)
    requires
        0 <= from <= i < ss.len(),
        ss[i] is Fail,
        forall|k: int| from <= k < i ==> !(#[trigger] ss[k] is Fail),
    ensures
        first_fail(ss, from) == i,
    decreases i - from,
{
    if from < i {
        lemma_first_fail_at(ss, from + 1, i);
    }
}

proof fn lemma_no_fail(ss: Seq<Stmt>, from: int)
    requires
        0 <= from <= ss.len(),
        forall|k: int| from <= k < ss.len() ==> !(#[trigger] ss[k] is Fail),
    ensures
        first_fail(ss, from) == ss.len(),
    decreases ss.len() - from,
{
    if from < ss.len() {
        lemma_no_fail(ss, from + 1);
    }
}

proof fn lemma_fail_run_end_at(ss: Seq<Stmt>, start: int, i: int)
    requires
        0 <= start <= i <= ss.len(),
        forall|k: int| start <= k < i ==> (#[trigger] ss[k]) is Fail,
        i == ss.len() || !(ss[i] is Fail),
    ensures
        fail_run_end(ss, start) == i,
    decreases i - start,
{
    if start < i {
        lemma_fail_run_end_at(ss, start + 1, i);
    }
}

/// The compiler's op name stays, and its helpers only grow at the end.
pub open spec fn compiler_grows(before: OpCompiler, after: OpCompiler) -> bool {
    &&& after.op_name == before.op_name
    &&& before.helpers@.len() <= after.helpers@.len()
    &&& forall|k: int| 0 <= k < before.helpers@.len() ==> #[trigger] after.helpers@[k] == before.helpers@[k]
}

/// The `(value, condition)` pairs of the `fail` statements in `[start, end)`.
pub open spec fn fail_run_pairs(ss: Seq<Stmt>, start: int, end: int) -> Seq<(Expr, Expr)>
    decreases end - start,
{
    if end <= start {
        Seq::empty()
    } else {
        fail_run_pairs(ss, start, end - 1).push(
            match ss[end - 1] {
                Stmt::Fail { value, condition, .. } => (value, condition),
                _ => (value_of_fail_default(), value_of_fail_default()),
            },
        )
    }
}

/// A placeholder expression for a position that is not a `fail`.
pub open spec fn value_of_fail_default() -> Expr {
    Expr::Bool(crate::span::Spanned { node: false, span: crate::span::Span { start: 0, end: 0 } })
}

/// A collapsed run of fails: the guard call binding `*__errN`, then
/// `(<<if (some? *__errN) (ack-return> {"ok" false "error" *__errN}) …)`
/// with `(else>)` and the remaining statements exactly when statements
/// follow the run.
pub open spec fn collapsed_guard(call: FormModel, guard: FormModel, more: bool) -> bool {
    call matches FormModel::List(cs) && (cs.len() >= 2 && cs[cs.len() - 2] == FormModel::Symbol(":>"@)
        && cs[cs.len() - 1] is Symbol && (guard matches FormModel::List(gs) && (gs.len() >= 3
        && gs[0] == FormModel::Symbol("<<if"@)
        && gs[1] == FormModel::List(seq![FormModel::Symbol("some?"@), cs[cs.len() - 1]])
        && gs[2] == FormModel::List(
        seq![
            FormModel::Symbol("ack-return>"@),
            FormModel::MapLit(
                seq![(FormModel::String("ok"@), FormModel::Bool(false)), (FormModel::String("error"@), cs[cs.len() - 1])],
            ),
        ],
    ) && (more <==> gs.len() > 3) && (more ==> gs[3] == FormModel::List(seq![FormModel::Symbol("else>"@)])))))
}

/// The locals an expression reads, ascending, as symbols (`*`-prefixed
/// when `star`).
pub open spec fn ascending_locals(value: Expr, star: bool) -> Seq<FormModel> {
    crate::clj_verify::ascending(locals_of(value)).map_values(|n: Seq<char>| FormModel::Symbol(if star { seq!['*'] + n } else { n }))
}

/// The name of the `n`th lifted helper of `op`.
pub open spec fn lifted_name(op: Seq<char>, n: usize) -> Seq<char> {
    "__"@ + op + "-expr-"@ + crate::text::decimal_digits(n as nat)
}

/// A lifted expression: the counter steps on (saturating), a helper
/// `(defn __op-expr-N [locals…] expr)` is appended, and the call
/// `(__op-expr-N *locals… :> target)` stands in its place.
pub open spec fn lifted(before: OpCompiler, after: OpCompiler, value: Expr, target: FormModel, call: FormModel) -> bool {
    let n = if before.expr_gen < usize::MAX { (before.expr_gen + 1) as usize } else { before.expr_gen };
    let name = lifted_name(before.op_name@, n);
    &&& after.op_name == before.op_name
    &&& after.fail_gen == before.fail_gen
    &&& after.expr_gen == n
    &&& after.helpers@.len() == before.helpers@.len() + 1
    &&& after.helpers@.drop_last() == before.helpers@
    &&& model(after.helpers@.last()) == FormModel::List(
        seq![
            FormModel::Symbol("defn"@),
            FormModel::Symbol(name),
            FormModel::Vector(ascending_locals(value, false)),
            crate::lower::fn_expr_spec(value),
        ],
    )
    &&& call == FormModel::List(seq![FormModel::Symbol(name)] + ascending_locals(value, true) + seq![FormModel::Symbol(":>"@), target])
}

/// The binding of a control-free value to `target`: a call gets `:> target`
/// appended, an event or plain local is passed through `identity` as its
/// `*` symbol, anything else through `identity` as its dataflow form.
pub open spec fn bound_spec(value: Expr, target: FormModel) -> FormModel {
    match value {
        Expr::Call(_) => FormModel::List(dataflow_spec(value)->List_0 + seq![FormModel::Symbol(":>"@), target]),
        Expr::Ident(i) => if i.node@ == "event"@ || !is_prefix("*"@, i.node@) {
            FormModel::List(seq![FormModel::Symbol("identity"@), FormModel::Symbol(seq!['*'] + i.node@), FormModel::Symbol(":>"@), target])
        } else {
            FormModel::List(seq![FormModel::Symbol("identity"@), dataflow_spec(value), FormModel::Symbol(":>"@), target])
        },
        _ => FormModel::List(seq![FormModel::Symbol("identity"@), dataflow_spec(value), FormModel::Symbol(":>"@), target]),
    }
}

/// `(ack-return> {"ok" false "error" err})`.
fn ack_error(err: &str) -> (out: Form)
    ensures
        model(out) == FormModel::List(
            seq![
                FormModel::Symbol("ack-return>"@),
                FormModel::MapLit(
                    seq![(FormModel::String("ok"@), FormModel::Bool(false)), (FormModel::String("error"@), FormModel::Symbol(err@))],
                ),
            ],
        ),
{
    let entries = vec![(clj::string("ok"), clj::bool(false)), (clj::string("error"), clj::sym(err))];
    proof {
        lemma_pair_models_index(entries@);
        assert(pair_models(entries@) =~= seq![
            (FormModel::String("ok"@), FormModel::Bool(false)),
            (FormModel::String("error"@), FormModel::Symbol(err@)),
        ]);
    }
    clj::call1("ack-return>", clj::map(entries))
}

/// The names as symbols, each `*`-prefixed when `star`.
pub open spec fn name_symbols(names: Seq<String>, star: bool) -> Seq<FormModel> {
    names.map_values(|n: String| FormModel::Symbol(if star { seq!['*'] + n@ } else { n@ }))
}

fn symbols(names: &Vec<String>, star: bool) -> (out: Form)
    ensures
        model(out) == FormModel::Vector(name_symbols(names@, star)),
{
    let mut xs: Vec<Form> = Vec::new();
    let mut i: usize = 0;
    while i < names.len()
        invariant
            i <= names.len(),
            xs@.len() == i,
            forall|k: int| 0 <= k < i ==> model(#[trigger] xs@[k]) == name_symbols(names@, star)[k],
        decreases names.len() - i,
    {
        if star {
            xs.push(clj::sym(starred(names[i].as_str()).as_str()));
        } else {
            xs.push(clj::sym(names[i].as_str()));
        }
        i += 1;
    }
    proof {
        clj::lemma_models_from_elements(xs@, name_symbols(names@, star));
    }
    clj::vector(xs)
}

/// `*a *b *c` for the names.
fn starred_symbols(names: &Vec<String>) -> (out: Vec<Form>)
    ensures
        models(out@) == name_symbols(names@, true),
{
    let mut xs: Vec<Form> = Vec::new();
    let mut i: usize = 0;
    while i < names.len()
        invariant
            i <= names.len(),
            xs@.len() == i,
            forall|k: int| 0 <= k < i ==> model(#[trigger] xs@[k]) == name_symbols(names@, true)[k],
        decreases names.len() - i,
    {
        xs.push(clj::sym(starred(names[i].as_str()).as_str()));
        i += 1;
    }
    proof {
        clj::lemma_models_from_elements(xs@, name_symbols(names@, true));
    }
    xs
}

/// A form with every symbol `from` replaced by `to`.
pub open spec fn renamed(f: Form, from: Seq<char>, to: Seq<char>) -> FormModel
    decreases f,
{
    match f {
        Form::Symbol(x) => FormModel::Symbol(if x@ == from { to } else { x@ }),
        Form::List(xs) => FormModel::List(renamed_all(xs@, from, to)),
        Form::Vector(xs) => FormModel::Vector(renamed_all(xs@, from, to)),
        Form::MapLit(es) => FormModel::MapLit(renamed_entries(es@, from, to)),
        _ => model(f),
    }
}

pub open spec fn renamed_all(xs: Seq<Form>, from: Seq<char>, to: Seq<char>) -> Seq<FormModel>
    decreases xs,
{
    if xs.len() == 0 {
        Seq::empty()
    } else {
        renamed_all(xs.subrange(0, xs.len() - 1), from, to).push(renamed(xs[xs.len() - 1], from, to))
    }
}

pub open spec fn renamed_entries(es: Seq<(Form, Form)>, from: Seq<char>, to: Seq<char>) -> Seq<(FormModel, FormModel)>
    decreases es,
{
    if es.len() == 0 {
        Seq::empty()
    } else {
        renamed_entries(es.subrange(0, es.len() - 1), from, to).push(
            (renamed(es[es.len() - 1].0, from, to), renamed(es[es.len() - 1].1, from, to)),
        )
    }
}

proof fn lemma_renamed_all_index(xs: Seq<Form>, from: Seq<char>, to: Seq<char>)
    ensures
        renamed_all(xs, from, to).len() == xs.len(),
        forall|k: int| 0 <= k < xs.len() ==> (#[trigger] renamed_all(xs, from, to)[k]) == renamed(xs[k], from, to),
    decreases xs.len(),
{
    if xs.len() > 0 {
        let init = xs.subrange(0, xs.len() - 1);
        lemma_renamed_all_index(init, from, to);
        assert forall|k: int| 0 <= k < xs.len() implies (#[trigger] renamed_all(xs, from, to)[k]) == renamed(xs[k], from, to) by {
            if k < xs.len() - 1 {
                assert(init[k] == xs[k]);
            }
        }
    }
}

proof fn lemma_renamed_entries_index(es: Seq<(Form, Form)>, from: Seq<char>, to: Seq<char>)
    ensures
        renamed_entries(es, from, to).len() == es.len(),
        forall|k: int| 0 <= k < es.len() ==> (#[trigger] renamed_entries(es, from, to)[k]) == (renamed(es[k].0, from, to), renamed(es[k].1, from, to)),
    decreases es.len(),
{
    if es.len() > 0 {
        let init = es.subrange(0, es.len() - 1);
        lemma_renamed_entries_index(init, from, to);
        assert forall|k: int| 0 <= k < es.len() implies (#[trigger] renamed_entries(es, from, to)[k]) == (renamed(es[k].0, from, to), renamed(es[k].1, from, to)) by {
            if k < es.len() - 1 {
                assert(init[k] == es[k]);
            }
        }
    }
}

/// The form with every symbol `from` replaced by `to`.
#[verifier::loop_isolation(false)]
pub fn rename_symbol(form: &Form, from: &str, to: &str) -> (out: Form)
    ensures
        model(out) == renamed(*form, from@, to@),
    decreases form,
{
    match form {
        Form::Symbol(symbol) => {
            if str_eq(symbol.as_str(), from) {
                clj::sym(to)
            } else {
                let kept = symbol.clone();
                assert(kept@ == symbol@);
                Form::Symbol(kept)
            }
        }
        Form::List(forms) => {
            let xs = rename_all(forms, from, to);
            proof {
                lemma_renamed_all_index(forms@, from@, to@);
                clj::lemma_models_index(xs@);
                assert(models(xs@) =~= renamed_all(forms@, from@, to@));
            }
            Form::List(xs)
        }
        Form::Vector(forms) => {
            let xs = rename_all(forms, from, to);
            proof {
                lemma_renamed_all_index(forms@, from@, to@);
                clj::lemma_models_index(xs@);
                assert(models(xs@) =~= renamed_all(forms@, from@, to@));
            }
            Form::Vector(xs)
        }
        Form::MapLit(entries) => {
            proof {
                lemma_renamed_entries_index(entries@, from@, to@);
            }
            let mut xs: Vec<(Form, Form)> = Vec::new();
            let mut i: usize = 0;
            while i < entries.len()
                invariant
                    i <= entries.len(),
                    xs@.len() == i,
                    forall|k: int| 0 <= k < i ==> (model((#[trigger] xs@[k]).0), model(xs@[k].1)) == renamed_entries(entries@, from@, to@)[k],
                decreases entries.len() - i,
            {
                xs.push((rename_symbol(&entries[i].0, from, to), rename_symbol(&entries[i].1, from, to)));
                i += 1;
            }
            proof {
                clj::lemma_pair_models_index(xs@);
                assert(clj::pair_models(xs@) =~= renamed_entries(entries@, from@, to@));
            }
            Form::MapLit(xs)
        }
        other => other.clone(),
    }
}

fn rename_all(forms: &Vec<Form>, from: &str, to: &str) -> (out: Vec<Form>)
    ensures
        out@.len() == forms@.len(),
        forall|k: int| 0 <= k < forms@.len() ==> model(#[trigger] out@[k]) == renamed(forms@[k], from@, to@),
    decreases forms, 0nat,
{
    let mut xs: Vec<Form> = Vec::new();
    let mut i: usize = 0;
    while i < forms.len()
        invariant
            i <= forms.len(),
            xs@.len() == i,
            forall|k: int| 0 <= k < i ==> model(#[trigger] xs@[k]) == renamed(forms@[k], from@, to@),
        decreases forms.len() - i,
    {
        xs.push(rename_symbol(&forms[i], from, to));
        i += 1;
    }
    xs
}

/// What the event validator checks of a field.
#[derive(Clone, Copy, PartialEq, Eq, Structural)]
pub enum FieldCheck {
    String,
    Long,
    Boolean,
    Mapping,
    Any,
}

/// Typed depot event: which param carries it and what field checks apply.
pub struct EventSpec {
    pub param: String,
    /// `(field name, check)` in declaration order.
    pub fields: Vec<(String, FieldCheck)>,
}

/// The check a field schema calls for: the built-in scalar aliases, any
/// map, and nothing for the rest.
pub open spec fn field_check_spec(ty: TypeExpr) -> FieldCheck {
    match ty {
        TypeExpr::Named(n) => if n@ == "String"@ {
            FieldCheck::String
        } else if n@ == "Long"@ || n@ == "Int"@ || n@ == "Integer"@ {
            FieldCheck::Long
        } else if n@ == "Boolean"@ {
            FieldCheck::Boolean
        } else {
            FieldCheck::Any
        },
        TypeExpr::MapType { .. } => FieldCheck::Mapping,
        TypeExpr::Object => FieldCheck::Any,
    }
}

/// Whether the parameter is typed by a declared struct, by its bare name.
pub open spec fn event_param(param: Param, program: Program) -> bool {
    param.ty matches Some(ty) && ty.node matches ValueTypeExpr::Named { path, args } && args@.len() == 0
        && last_struct(program.structs@, path@) is Some
}

/// The field checks of the struct that types an event parameter.
pub open spec fn event_fields_spec(param: Param, program: Program) -> Seq<(Seq<char>, FieldCheck)> {
    let decl = last_struct(program.structs@, param.ty->0.node->Named_path@)->0;
    decl.fields@.map_values(|f: StructField| (f.name.node@, field_check_spec(f.ty.node)))
}

/// The check a field schema calls for.
pub fn field_check(ty: &TypeExpr) -> (out: FieldCheck)
    ensures
        out == field_check_spec(*ty),
{
    match ty {
        TypeExpr::Named(name) => {
            let n = name.as_str();
            if str_eq(n, "String") {
                FieldCheck::String
            } else if str_eq(n, "Long") || str_eq(n, "Int") || str_eq(n, "Integer") {
                FieldCheck::Long
            } else if str_eq(n, "Boolean") {
                FieldCheck::Boolean
            } else {
                FieldCheck::Any
            }
        }
        TypeExpr::MapType { .. } => FieldCheck::Mapping,
        TypeExpr::Object => FieldCheck::Any,
    }
}

/// The first parameter typed by a declared struct, with its field checks.
pub fn event_spec(op: &OpDef, program: &Program<'_>) -> (out: Option<EventSpec>)
    ensures
        match out {
            Some(e) => exists|p: int|
                0 <= p < op.params@.len() && event_param(#[trigger] op.params@[p], *program) && (forall|q: int|
                    0 <= q < p ==> !event_param(#[trigger] op.params@[q], *program)) && e.param@ == op.params@[p].name.node@
                    && e.fields@.map_values(|f: (String, FieldCheck)| (f.0@, f.1)) == event_fields_spec(op.params@[p], *program),
            None => forall|p: int| 0 <= p < op.params@.len() ==> !event_param(#[trigger] op.params@[p], *program),
        },
{
    let mut p: usize = 0;
    while p < op.params.len()
        invariant
            p <= op.params.len(),
            forall|q: int| 0 <= q < p ==> !event_param(#[trigger] op.params@[q], *program),
        decreases op.params.len() - p,
    {
        let param = &op.params[p];
        if let Some(ty) = &param.ty {
            if let ValueTypeExpr::Named { path, args } = &ty.node {
                if args.len() == 0 {
                    if let Some(declaration) = program.struct_decl(path.as_str()) {
                        let ghost want = event_fields_spec(op.params@[p as int], *program);
                        let mut fields: Vec<(String, FieldCheck)> = Vec::new();
                        let mut i: usize = 0;
                        while i < declaration.fields.len()
                            invariant
                                i <= declaration.fields.len(),
                                want == declaration.fields@.map_values(|f: StructField| (f.name.node@, field_check_spec(f.ty.node))),
                                fields@.len() == i,
                                forall|k: int| 0 <= k < i ==> ((#[trigger] fields@[k]).0@, fields@[k].1) == want[k],
                            decreases declaration.fields.len() - i,
                        {
                            let field = &declaration.fields[i];
                            let name = field.name.node.clone();
                            assert(name@ == field.name.node@);
                            fields.push((name, field_check(&field.ty.node)));
                            i += 1;
                        }
                        let label = param.name.node.clone();
                        assert(label@ == param.name.node@);
                        let out = EventSpec { param: label, fields };
                        assert(out.fields@.map_values(|f: (String, FieldCheck)| (f.0@, f.1)) =~= want);
                        assert(event_param(op.params@[p as int], *program));
                        return Some(out);
                    }
                }
            }
        }
        p += 1;
    }
    None
}

/// `(get event "field")`.
fn event_field(field: &str) -> (out: Form)
    ensures
        model(out) == FormModel::List(seq![FormModel::Symbol("get"@), FormModel::Symbol("event"@), FormModel::String(field@)]),
{
    let args = vec![clj::sym("event"), clj::string(field)];
    proof {
        lemma_models_from_elements(args@, seq![FormModel::Symbol("event"@), FormModel::String(field@)]);
        assert(seq![FormModel::Symbol("get"@)] + seq![FormModel::Symbol("event"@), FormModel::String(field@)] =~= seq![
            FormModel::Symbol("get"@),
            FormModel::Symbol("event"@),
            FormModel::String(field@),
        ]);
    }
    clj::call("get", args)
}

/// Plain-Clojure validator: nil for a well-formed event, else an error
/// string. Untyped fields are optional.
/// `(get event "field")` as a model.
pub open spec fn event_field_spec(field: Seq<char>) -> FormModel {
    FormModel::List(seq![FormModel::Symbol("get"@), FormModel::Symbol("event"@), FormModel::String(field)])
}

/// The runtime test that a present field passes its check, and how the
/// check is described.
pub open spec fn field_test(check: FieldCheck, field: Seq<char>) -> (FormModel, Seq<char>) {
    let ef = event_field_spec(field);
    match check {
        FieldCheck::String => (FormModel::List(seq![FormModel::Symbol("string?"@), ef]), "a String"@),
        FieldCheck::Long => (
            FormModel::List(
                seq![
                    FormModel::Symbol("or"@),
                    FormModel::List(seq![FormModel::Symbol("instance?"@), FormModel::Symbol("java.lang.Long"@), ef]),
                    FormModel::List(seq![FormModel::Symbol("instance?"@), FormModel::Symbol("java.lang.Integer"@), ef]),
                ],
            ),
            "a Long"@,
        ),
        FieldCheck::Boolean => (FormModel::List(seq![FormModel::Symbol("boolean?"@), ef]), "a Boolean"@),
        _ => (FormModel::List(seq![FormModel::Symbol("map?"@), ef]), "a map"@),
    }
}

/// The `cond` arms that check one field: missing, then of the wrong kind.
pub open spec fn field_arms(field: Seq<char>, check: FieldCheck) -> Seq<FormModel> {
    if check == FieldCheck::Any {
        Seq::empty()
    } else {
        seq![
            FormModel::List(seq![FormModel::Symbol("nil?"@), event_field_spec(field)]),
            FormModel::String("missing field `"@ + field + "`"@),
            FormModel::List(seq![FormModel::Symbol("not"@), field_test(check, field).0]),
            FormModel::String("field `"@ + field + "` must be "@ + field_test(check, field).1),
        ]
    }
}

pub open spec fn fields_arms(fields: Seq<(String, FieldCheck)>) -> Seq<FormModel>
    decreases fields.len(),
{
    if fields.len() == 0 {
        Seq::empty()
    } else {
        fields_arms(fields.drop_last()) + field_arms(fields.last().0@, fields.last().1)
    }
}

/// `(defn name [event] (cond (not (map? event)) "event must be a map" …
/// :else nil))`.
pub open spec fn validator_spec(name: Seq<char>, fields: Seq<(String, FieldCheck)>) -> FormModel {
    FormModel::List(
        seq![
            FormModel::Symbol("defn"@),
            FormModel::Symbol(name),
            FormModel::Vector(seq![FormModel::Symbol("event"@)]),
            FormModel::List(
                seq![
                    FormModel::Symbol("cond"@),
                    FormModel::List(seq![FormModel::Symbol("not"@), FormModel::List(seq![FormModel::Symbol("map?"@), FormModel::Symbol("event"@)])]),
                    FormModel::String("event must be a map"@),
                ] + fields_arms(fields) + seq![FormModel::Keyword("else"@), FormModel::Nil],
            ),
        ],
    )
}

/// The test and description for one field check.
fn field_predicate(check: FieldCheck, field: &str) -> (out: (Form, &'static str))
    ensures
        (model(out.0), out.1@) == field_test(check, field@),
{
    match check {
        FieldCheck::String => (clj::call1("string?", event_field(field)), "a String"),
        FieldCheck::Long => (
            clj::call2(
                "or",
                clj::call2("instance?", clj::sym("java.lang.Long"), event_field(field)),
                clj::call2("instance?", clj::sym("java.lang.Integer"), event_field(field)),
            ),
            "a Long",
        ),
        FieldCheck::Boolean => (clj::call1("boolean?", event_field(field)), "a Boolean"),
        _ => (clj::call1("map?", event_field(field)), "a map"),
    }
}

/// Plain-Clojure validator: nil for a well-formed event, else an error
/// string. Untyped fields are optional.
pub fn event_validator_form(name: &str, event: &EventSpec) -> (out: Form)
    ensures
        model(out) == validator_spec(name@, event.fields@),
{
    let mut arms: Vec<Form> = Vec::new();
    let first = clj::call1("not", clj::call1("map?", clj::sym("event")));
    let second = clj::string("event must be a map");
    arms.push(first);
    arms.push(second);
    let ghost head = models(arms@);
    proof {
        clj::lemma_models_push(Seq::<Form>::empty(), arms@[0]);
        assert(arms@ =~= Seq::<Form>::empty().push(arms@[0]).push(arms@[1]));
        clj::lemma_models_push(Seq::<Form>::empty().push(arms@[0]), arms@[1]);
        assert(models(Seq::<Form>::empty()) =~= Seq::<FormModel>::empty());
        assert(event.fields@.take(0) =~= Seq::<(String, FieldCheck)>::empty());
        assert(models(arms@) =~= head + fields_arms(event.fields@.take(0)));
        assert(head =~= seq![
            FormModel::List(seq![FormModel::Symbol("not"@), FormModel::List(seq![FormModel::Symbol("map?"@), FormModel::Symbol("event"@)])]),
            FormModel::String("event must be a map"@),
        ]);
    }
    let mut i: usize = 0;
    while i < event.fields.len()
        invariant
            i <= event.fields.len(),
            models(arms@) == head + fields_arms(event.fields@.take(i as int)),
        decreases event.fields.len() - i,
    {
        proof {
            assert(event.fields@.take(i + 1).drop_last() =~= event.fields@.take(i as int));
            assert(event.fields@.take(i + 1).last() == event.fields@[i as int]);
        }
        let field = event.fields[i].0.as_str();
        let check = event.fields[i].1;
        let ghost before = arms@;
        if check != FieldCheck::Any {
            let a1 = clj::call1("nil?", event_field(field));
            let mut missing = owned("missing field `");
            missing.push_str(field);
            missing.push_str("`");
            let a2 = clj::string(missing.as_str());
            let (predicate, description) = field_predicate(check, field);
            let a3 = clj::call1("not", predicate);
            let mut wrong = owned("field `");
            wrong.push_str(field);
            wrong.push_str("` must be ");
            wrong.push_str(description);
            let a4 = clj::string(wrong.as_str());
            arms.push(a1);
            arms.push(a2);
            arms.push(a3);
            arms.push(a4);
            proof {
                clj::lemma_models_push(before, a1);
                clj::lemma_models_push(before.push(a1), a2);
                clj::lemma_models_push(before.push(a1).push(a2), a3);
                clj::lemma_models_push(before.push(a1).push(a2).push(a3), a4);
                assert(arms@ =~= before.push(a1).push(a2).push(a3).push(a4));
                assert(models(arms@) =~= models(before) + field_arms(field@, check));
            }
        } else {
            assert(models(arms@) =~= models(before) + field_arms(field@, check));
        }
        i += 1;
    }
    assert(event.fields@.take(event.fields@.len() as int) =~= event.fields@);
    let ghost middle = arms@;
    let e = clj::kw("else");
    arms.push(e);
    arms.push(clj::nil());
    proof {
        clj::lemma_models_push(middle, e);
        clj::lemma_models_push(middle.push(e), Form::Nil);
        assert(arms@ =~= middle.push(e).push(Form::Nil));
    }
    let body = clj::call("cond", arms);
    let params = clj::vector(vec![clj::sym("event")]);
    proof {
        let ps = params->Vector_0@;
        clj::lemma_models_from_elements(ps, seq![FormModel::Symbol("event"@)]);
        assert(models(arms@) =~= head + fields_arms(event.fields@) + seq![FormModel::Keyword("else"@), FormModel::Nil]);
        assert(model(params) == FormModel::Vector(seq![FormModel::Symbol("event"@)]));
        assert(seq![FormModel::Symbol("cond"@)] + (head + fields_arms(event.fields@) + seq![FormModel::Keyword("else"@), FormModel::Nil])
            =~= seq![
            FormModel::Symbol("cond"@),
            FormModel::List(seq![FormModel::Symbol("not"@), FormModel::List(seq![FormModel::Symbol("map?"@), FormModel::Symbol("event"@)])]),
            FormModel::String("event must be a map"@),
        ] + fields_arms(event.fields@) + seq![FormModel::Keyword("else"@), FormModel::Nil]);
    }
    clj::call3("defn", clj::sym(name), params, body)
}

pub open spec fn sym_spec(s: Seq<char>) -> FormModel {
    FormModel::Symbol(s)
}

/// `(defn __rama_coerce_longs [event fields] (reduce (fn [m field] (if
/// (some? (get m field)) (assoc m field (long (get m field))) m)) event
/// fields))`.
pub open spec fn coerce_longs_spec() -> FormModel {
    let got = FormModel::List(seq![sym_spec("get"@), sym_spec("m"@), sym_spec("field"@)]);
    FormModel::List(
        seq![
            sym_spec("defn"@),
            sym_spec("__rama_coerce_longs"@),
            FormModel::Vector(seq![sym_spec("event"@), sym_spec("fields"@)]),
            FormModel::List(
                seq![
                    sym_spec("reduce"@),
                    FormModel::List(
                        seq![
                            sym_spec("fn"@),
                            FormModel::Vector(seq![sym_spec("m"@), sym_spec("field"@)]),
                            FormModel::List(
                                seq![
                                    sym_spec("if"@),
                                    FormModel::List(seq![sym_spec("some?"@), got]),
                                    FormModel::List(
                                        seq![sym_spec("assoc"@), sym_spec("m"@), sym_spec("field"@), FormModel::List(seq![sym_spec("long"@), got])],
                                    ),
                                    sym_spec("m"@),
                                ],
                            ),
                        ],
                    ),
                    sym_spec("event"@),
                    sym_spec("fields"@),
                ],
            ),
        ],
    )
}

/// `[a b]` of two symbols.
fn pair_vector(a: &str, b: &str) -> (out: Form)
    ensures
        model(out) == FormModel::Vector(seq![FormModel::Symbol(a@), FormModel::Symbol(b@)]),
{
    let xs = vec![clj::sym(a), clj::sym(b)];
    proof {
        lemma_models_from_elements(xs@, seq![FormModel::Symbol(a@), FormModel::Symbol(b@)]);
    }
    clj::vector(xs)
}

/// The helper that turns the named fields of an event into Longs.
pub fn coerce_longs_helper_form() -> (out: Form)
    ensures
        model(out) == coerce_longs_spec(),
{
    let field_value = clj::call2("get", clj::sym("m"), clj::sym("field"));
    let copy = field_value.clone();
    let assoc_args = vec![clj::sym("m"), clj::sym("field"), clj::call1("long", field_value)];
    let ghost want_assoc = seq![FormModel::Symbol("m"@), FormModel::Symbol("field"@), model(assoc_args@[2])];
    proof {
        lemma_models_from_elements(assoc_args@, want_assoc);
    }
    let assoc = clj::call("assoc", assoc_args);
    let test = clj::call3("if", clj::call1("some?", copy), assoc, clj::sym("m"));
    let step = clj::call2("fn", pair_vector("m", "field"), test);
    let reduce = clj::call3("reduce", step, clj::sym("event"), clj::sym("fields"));
    let out = clj::call3("defn", clj::sym("__rama_coerce_longs"), pair_vector("event", "fields"), reduce);
    proof {
        assert(seq![FormModel::Symbol("assoc"@)] + want_assoc =~= seq![
            FormModel::Symbol("assoc"@),
            FormModel::Symbol("m"@),
            FormModel::Symbol("field"@),
            model(assoc_args@[2]),
        ]);
    }
    out
}

/// Whether a `|hash` partition hop occurs in the statements.
pub open spec fn stmts_have_hop(ss: Seq<Stmt>) -> bool
    decreases ss,
{
    if ss.len() == 0 {
        false
    } else {
        (match ss[0] {
            Stmt::Hash { .. } => true,
            Stmt::If { consequence, alternative, .. } => stmts_have_hop(consequence.stmts@) || match alternative {
                Some(b) => stmts_have_hop(b.stmts@),
                None => false,
            },
            _ => false,
        }) || stmts_have_hop(ss.subrange(1, ss.len() as int))
    }
}

#[verifier::loop_isolation(false)]
pub fn op_has_partitioner(block: &Block) -> (r: bool)
    ensures
        r == stmts_have_hop(block.stmts@),
    decreases block,
{
    let mut i: usize = 0;
    assert(block.stmts@.subrange(0, block.stmts@.len() as int) =~= block.stmts@);
    while i < block.stmts.len()
        invariant
            i <= block.stmts.len(),
            stmts_have_hop(block.stmts@) == stmts_have_hop(block.stmts@.subrange(i as int, block.stmts@.len() as int)),
        decreases block.stmts.len() - i,
    {
        let ghost rest = block.stmts@.subrange(i as int, block.stmts@.len() as int);
        assert(rest.subrange(1, rest.len() as int) =~= block.stmts@.subrange(i + 1, block.stmts@.len() as int));
        assert(rest[0] == block.stmts@[i as int]);
        let found = match &block.stmts[i] {
            Stmt::Hash { .. } => true,
            Stmt::If { consequence, alternative, .. } => op_has_partitioner(consequence) || match alternative {
                Some(b) => op_has_partitioner(b),
                None => false,
            },
            _ => false,
        };
        if found {
            return true;
        }
        i += 1;
    }
    false
}

/// The pstates a statement reads or writes, nested blocks included.
pub open spec fn stmt_pstates(s: Stmt) -> Set<Seq<char>>
    decreases s,
{
    match s {
        Stmt::Select { pstate, .. } => set![pstate.node@],
        Stmt::Transform { pstate, .. } => set![pstate.node@],
        Stmt::If { consequence, alternative, .. } => stmts_pstates(consequence.stmts@).union(
            match alternative {
                Some(b) => stmts_pstates(b.stmts@),
                None => Set::empty(),
            },
        ),
        _ => Set::empty(),
    }
}

pub open spec fn stmts_pstates(ss: Seq<Stmt>) -> Set<Seq<char>>
    decreases ss,
{
    if ss.len() == 0 {
        Set::empty()
    } else {
        stmts_pstates(ss.subrange(0, ss.len() - 1)).union(stmt_pstates(ss[ss.len() - 1]))
    }
}

/// Adds the pstates the statements read or write to the sorted set `out`.
#[verifier::loop_isolation(false)]
fn visit_pstates(block: &Block, out: &mut Vec<String>)
    requires
        sorted_unique(views(old(out)@)),
    ensures
        sorted_unique(views(final(out)@)),
        forall|x: Seq<char>|
            #![trigger views(final(out)@).contains(x)]
            #![trigger views(old(out)@).contains(x)]
            #![trigger stmts_pstates(block.stmts@).contains(x)]
            views(final(out)@).contains(x) <==> (views(old(out)@).contains(x) || stmts_pstates(block.stmts@).contains(x)),
    decreases block,
{
    let ghost start = views(out@);
    let mut i: usize = 0;
    assert(block.stmts@.subrange(0, 0) =~= Seq::<Stmt>::empty());
    while i < block.stmts.len()
        invariant
            i <= block.stmts.len(),
            sorted_unique(views(out@)),
            forall|x: Seq<char>|
                #![trigger views(out@).contains(x)]
                #![trigger stmts_pstates(block.stmts@.subrange(0, i as int)).contains(x)]
                views(out@).contains(x) <==> (start.contains(x) || stmts_pstates(block.stmts@.subrange(0, i as int)).contains(x)),
        decreases block.stmts.len() - i,
    {
        let ghost prev = views(out@);
        match &block.stmts[i] {
            Stmt::Select { pstate, .. } | Stmt::Transform { pstate, .. } => {
                let name = pstate.node.clone();
                assert(name@ == pstate.node@);
                insert_sorted(out, name);
                assert(stmt_pstates(block.stmts@[i as int]) == set![pstate.node@]);
                assert forall|x: Seq<char>| views(out@).contains(x) <==> (prev.contains(x) || stmt_pstates(block.stmts@[i as int]).contains(x)) by {
                    if x == pstate.node@ {
                        assert(views(out@).contains(x));
                    }
                }
            }
            Stmt::If { consequence, alternative, .. } => {
                visit_pstates(consequence, out);
                let ghost mid = views(out@);
                if let Some(alt) = alternative {
                    visit_pstates(alt, out);
                }
                assert forall|x: Seq<char>| views(out@).contains(x) <==> (prev.contains(x) || stmt_pstates(block.stmts@[i as int]).contains(x)) by {
                    assert(mid.contains(x) <==> (prev.contains(x) || stmts_pstates(consequence.stmts@).contains(x)));
                    if let Some(alt) = alternative {
                        assert(views(out@).contains(x) <==> (mid.contains(x) || stmts_pstates(alt.stmts@).contains(x)));
                    }
                }
            }
            _ => {
                assert(stmt_pstates(block.stmts@[i as int]) =~= Set::<Seq<char>>::empty());
            },
        }
        proof {
            let more = block.stmts@.subrange(0, i + 1);
            assert(more.subrange(0, i as int) =~= block.stmts@.subrange(0, i as int));
            assert(more[i as int] == block.stmts@[i as int]);
            assert forall|x: Seq<char>|
                #![trigger views(out@).contains(x)]
                #![trigger stmts_pstates(more).contains(x)]
                views(out@).contains(x) <==> (start.contains(x) || stmts_pstates(more).contains(x)) by {
                assert(prev.contains(x) <==> (start.contains(x) || stmts_pstates(block.stmts@.subrange(0, i as int)).contains(x)));
            }
        }
        i += 1;
    }
    assert(block.stmts@.subrange(0, block.stmts.len() as int) =~= block.stmts@);
}

/// The pstates an op body touches, in sorted order without repeats.
pub fn op_pstates(block: &Block) -> (out: Vec<String>)
    ensures
        sorted_unique(views(out@)),
        forall|x: Seq<char>| views(out@).contains(x) <==> stmts_pstates(block.stmts@).contains(x),
{
    let mut out: Vec<String> = Vec::new();
    assert(views(out@) =~= Seq::<Seq<char>>::empty());
    visit_pstates(block, &mut out);
    out
}

/// Compiles an op to its top-level helper `defn`s and its dataflow body.
/// The body refers to the depot event as `*event` whatever the parameter
/// is called; a struct-typed event is validated, and its Long fields
/// coerced, before the body runs.
pub fn compile_op_body(op: &OpDef, program: &Program<'_>) -> (out: (Vec<Form>, Vec<Form>)) {
    let mut compiler = OpCompiler { op_name: op.name.node.clone(), helpers: Vec::new(), fail_gen: 0, expr_gen: 0 };
    proof {
        assert(op.body.stmts@.subrange(0, op.body.stmts@.len() as int) =~= op.body.stmts@);
    }
    let mut body = compiler.stmts(&op.body.stmts, 0);
    if let Some(event) = event_spec(op, program) {
        let validator_name = cat(vec!["__", op.name.node.as_str(), "-event-error"]);
        compiler.helpers.push(event_validator_form(validator_name.as_str(), &event));
        let mut long_fields: Vec<Form> = Vec::new();
        let mut i: usize = 0;
        while i < event.fields.len()
            invariant
                i <= event.fields.len(),
            decreases event.fields.len() - i,
        {
            if event.fields[i].1 == FieldCheck::Long {
                long_fields.push(clj::string(event.fields[i].0.as_str()));
            }
            i += 1;
        }
        let raw_event = starred(event.param.as_str());
        let mut guarded: Vec<Form> = Vec::new();
        if long_fields.len() == 0 {
            guarded.append(&mut body);
        } else {
            let coerced = "*__event";
            let mut renamed = rename_all(&body, raw_event.as_str(), coerced);
            guarded.push(
                clj::call(
                    "__rama_coerce_longs",
                    vec![clj::sym(raw_event.as_str()), clj::vector(long_fields), clj::sym(":>"), clj::sym(coerced)],
                ),
            );
            guarded.append(&mut renamed);
        }
        let mut if_form: Vec<Form> = vec![
            clj::sym("<<if"),
            clj::call("some?", vec![clj::sym("*__event-error")]),
            clj::call(
                "ack-return>",
                vec![
                    clj::map(
                        vec![
                            (clj::string("ok"), clj::bool(false)),
                            (clj::string("error"), clj::string("invalid-event")),
                            (clj::string("detail"), clj::sym("*__event-error")),
                        ],
                    ),
                ],
            ),
            clj::call("else>", Vec::new()),
        ];
        if_form.append(&mut guarded);
        body = vec![
            clj::call(
                validator_name.as_str(),
                vec![clj::sym(raw_event.as_str()), clj::sym(":>"), clj::sym("*__event-error")],
            ),
            Form::List(if_form),
        ];
    }
    if op.params.len() > 0 {
        let first = op.params[0].name.node.as_str();
        if !str_eq(first, "event") {
            let surface = starred(first);
            body = rename_all(&body, surface.as_str(), "*event");
        }
    }
    (compiler.helpers, body)
}

} // verus!
