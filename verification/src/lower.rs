//! Statement → expression lowering for `fn` bodies.
//!
//! Produces [`clj::Form`] (not source text). Clojure has no `return`; surface
//! `return` / `let` / `if` become nested `let` / `if` / `cond` forms.

use vstd::prelude::*;
use crate::ast::{BinaryOp, Block, Expr, LetPattern, MapEntry, Stmt};
use crate::span::Spanned;
use crate::clj::{self, lemma_models_from_elements, lemma_models_push, lemma_pair_models_index, model, models, pair_models, Form, FormModel};
use crate::contracts;
use crate::text::{chars_of, is_lowercase, is_lowercase_spec, owned, str_eq};

verus! {

#[derive(Clone, Copy)]
enum Mode {
    /// Dataflow / op: locals get `*`.
    Op,
    /// Plain Clojure fn: no `*`, `return` is erased into expression value.
    Fn,
}

/// The literal `nil`.
pub open spec fn is_nil_expr(e: Expr) -> bool {
    e matches Expr::Ident(i) && i.node@ == "nil"@
}

/// The ordinary Clojure form of an expression: calls keep their head,
/// lists become vectors, identifiers stay bare symbols, `x == nil` becomes
/// `(nil? x)`, other `==`/`!=` become `=`/`not=`, ternaries become `if`,
/// and casts become checked narrowings.
pub open spec fn fn_expr_spec(e: Expr) -> FormModel
    decreases e,
{
    match e {
        Expr::Call(c) => FormModel::List(seq![FormModel::Symbol(c.callee.node@)] + fn_exprs_spec(c.args@)),
        Expr::List { elems, .. } => FormModel::Vector(fn_exprs_spec(elems@)),
        Expr::MapLit { entries, .. } => FormModel::MapLit(fn_entries_spec(entries@)),
        Expr::String(s) => FormModel::String(s.node@),
        Expr::Keyword(k) => FormModel::Keyword(k.node@),
        Expr::Ident(i) => FormModel::Symbol(i.node@),
        Expr::Int(n) => FormModel::Int(n.node as int),
        Expr::Bool(b) => FormModel::Bool(b.node),
        Expr::Binary { op, left, right, .. } => if op == BinaryOp::Eq && is_nil_expr(*right) {
            FormModel::List(seq![FormModel::Symbol("nil?"@), fn_expr_spec(*left)])
        } else if op == BinaryOp::Eq && is_nil_expr(*left) {
            FormModel::List(seq![FormModel::Symbol("nil?"@), fn_expr_spec(*right)])
        } else {
            FormModel::List(
                seq![
                    FormModel::Symbol(if op == BinaryOp::Eq { "="@ } else { "not="@ }),
                    fn_expr_spec(*left),
                    fn_expr_spec(*right),
                ],
            )
        },
        Expr::Ternary { cond, then_branch, else_branch, .. } => FormModel::List(
            seq![
                FormModel::Symbol("if"@),
                fn_expr_spec(*cond),
                fn_expr_spec(*then_branch),
                fn_expr_spec(*else_branch),
            ],
        ),
        Expr::As { value, ty, .. } => crate::contracts::checked_at_spec(ty.node, crate::contracts::cast_label(ty.node), fn_expr_spec(*value)),
    }
}

pub open spec fn fn_exprs_spec(es: Seq<Expr>) -> Seq<FormModel>
    decreases es,
{
    if es.len() == 0 {
        Seq::empty()
    } else {
        seq![fn_expr_spec(es[0])] + fn_exprs_spec(es.subrange(1, es.len() as int))
    }
}

pub open spec fn fn_entries_spec(es: Seq<MapEntry>) -> Seq<(FormModel, FormModel)>
    decreases es,
{
    if es.len() == 0 {
        Seq::empty()
    } else {
        seq![
            (fn_expr_spec(es[0].key), match es[0].value {
                Some(v) => fn_expr_spec(v),
                None => fn_expr_spec(es[0].key),
            }),
        ] + fn_entries_spec(es.subrange(1, es.len() as int))
    }
}

proof fn lemma_fn_exprs_index(es: Seq<Expr>)
    ensures
        fn_exprs_spec(es).len() == es.len(),
        forall|i: int| 0 <= i < es.len() ==> (#[trigger] fn_exprs_spec(es)[i]) == fn_expr_spec(es[i]),
    decreases es.len(),
{
    if es.len() > 0 {
        let rest = es.subrange(1, es.len() as int);
        lemma_fn_exprs_index(rest);
        assert forall|i: int| 0 <= i < es.len() implies (#[trigger] fn_exprs_spec(es)[i]) == fn_expr_spec(es[i]) by {
            if i > 0 {
                assert(fn_exprs_spec(es)[i] == fn_exprs_spec(rest)[i - 1]);
                assert(rest[i - 1] == es[i]);
            }
        }
    }
}

proof fn lemma_fn_entries_index(es: Seq<MapEntry>)
    ensures
        fn_entries_spec(es).len() == es.len(),
        forall|i: int| 0 <= i < es.len() ==> (#[trigger] fn_entries_spec(es)[i]) == (fn_expr_spec(es[i].key), match es[i].value {
            Some(v) => fn_expr_spec(v),
            None => fn_expr_spec(es[i].key),
        }),
    decreases es.len(),
{
    if es.len() > 0 {
        let rest = es.subrange(1, es.len() as int);
        lemma_fn_entries_index(rest);
        assert forall|i: int| 0 <= i < es.len() implies (#[trigger] fn_entries_spec(es)[i]) == (fn_expr_spec(es[i].key), match es[i].value {
            Some(v) => fn_expr_spec(v),
            None => fn_expr_spec(es[i].key),
        }) by {
            if i > 0 {
                assert(fn_entries_spec(es)[i] == fn_entries_spec(rest)[i - 1]);
                assert(rest[i - 1] == es[i]);
            }
        }
    }
}



/// Statement count of a statement, nested blocks included.
pub open spec fn stmt_size(s: Stmt) -> nat
    decreases s,
{
    match s {
        Stmt::If { consequence, alternative, .. } => 1 + stmts_size(consequence.stmts@) + match alternative {
            Some(b) => stmts_size(b.stmts@),
            None => 0,
        },
        _ => 1,
    }
}

pub open spec fn stmts_size(ss: Seq<Stmt>) -> nat
    decreases ss,
{
    if ss.len() == 0 {
        0
    } else {
        stmt_size(ss[0]) + stmts_size(ss.subrange(1, ss.len() as int))
    }
}

pub open spec fn deref_all(ss: Seq<&Stmt>) -> Seq<Stmt> {
    ss.map_values(|s: &Stmt| *s)
}

pub proof fn lemma_size_concat(a: Seq<Stmt>, b: Seq<Stmt>)
    ensures
        stmts_size(a + b) == stmts_size(a) + stmts_size(b),
    decreases a.len(),
{
    if a.len() > 0 {
        assert((a + b).subrange(1, (a + b).len() as int) =~= a.subrange(1, a.len() as int) + b);
        lemma_size_concat(a.subrange(1, a.len() as int), b);
    } else {
        assert(a + b =~= b);
    }
}

pub proof fn lemma_size_first(ss: Seq<Stmt>)
    requires
        ss.len() > 0,
    ensures
        stmts_size(ss) == stmt_size(ss[0]) + stmts_size(ss.subrange(1, ss.len() as int)),
{
}

/// References to every statement of `v`, in order.
fn refs(v: &Vec<Stmt>) -> (out: Vec<&Stmt>)
    ensures
        deref_all(out@) == v@,
{
    let mut out: Vec<&Stmt> = Vec::new();
    let mut i: usize = 0;
    while i < v.len()
        invariant
            i <= v.len(),
            out@.len() == i,
            deref_all(out@) == v@.take(i as int),
        decreases v.len() - i,
    {
        let ghost before = out@;
        out.push(&v[i]);
        proof {
            assert forall|j: int| 0 <= j < i + 1 implies deref_all(out@)[j] == v@.take(i + 1)[j] by {
                if j < i {
                    assert(out@[j] == before[j]);
                    assert(deref_all(before)[j] == v@.take(i as int)[j]);
                }
            }
            assert(deref_all(out@) =~= v@.take(i + 1));
        }
        i += 1;
    }
    assert(v@.take(v.len() as int) =~= v@);
    out
}

/// `ss[from..]`.
fn tail<'a>(ss: &Vec<&'a Stmt>, from: usize) -> (out: Vec<&'a Stmt>)
    requires
        from <= ss.len(),
    ensures
        deref_all(out@) == deref_all(ss@).subrange(from as int, ss.len() as int),
{
    let mut out: Vec<&Stmt> = Vec::new();
    let mut i: usize = from;
    while i < ss.len()
        invariant
            from <= i <= ss.len(),
            out@.len() == i - from,
            deref_all(out@) == deref_all(ss@).subrange(from as int, i as int),
        decreases ss.len() - i,
    {
        let ghost before = out@;
        out.push(ss[i]);
        proof {
            assert forall|j: int| 0 <= j < i + 1 - from implies deref_all(out@)[j] == deref_all(ss@).subrange(from as int, i + 1)[j] by {
                if j < i - from {
                    assert(out@[j] == before[j]);
                    assert(deref_all(before)[j] == deref_all(ss@).subrange(from as int, i as int)[j]);
                }
            }
            assert(deref_all(out@) =~= deref_all(ss@).subrange(from as int, i + 1));
        }
        i += 1;
    }
    out
}

/// Lower a `fn` body to one Clojure expression form (no `return`).
pub fn lower_fn_body(block: &Block) -> (out: Form)
    ensures
        model(out) == fn_stmts_spec(block.stmts@),
{
    let ss = refs(&block.stmts);
    lower_stmts(&ss, Mode::Fn)
}

/// Lower one expression for ordinary Clojure (used by generated helper defns).
pub fn lower_fn_expr(e: &Expr) -> (out: Form)
    ensures
        model(out) == fn_expr_spec(*e),
{
    lower_expr(e, Mode::Fn)
}

fn call_of(head: &str, args: Vec<Form>) -> (out: Form)
    ensures
        model(out) == FormModel::List(seq![FormModel::Symbol(head@)] + models(args@)),
{
    clj::call(head, args)
}

fn lower_stmts(stmts: &Vec<&Stmt>, mode: Mode) -> (out: Form)
    ensures
        mode is Fn ==> model(out) == fn_stmts_spec(deref_all(stmts@)),
    decreases stmts_size(deref_all(stmts@)), 3nat,
{
    if stmts.len() == 0 {
        return clj::nil();
    }
    assert(deref_all(stmts@)[0] == *stmts@[0]);
    match stmts[0] {
        Stmt::Return { value, .. } => lower_expr(value, mode),
        Stmt::Let { .. } => lower_let(stmts, mode),
        Stmt::If { .. } => lower_if(stmts, mode),
        Stmt::Effect { .. } => lower_effect(stmts, mode),
        _ => lower_skipped(stmts, mode),
    }
}

/// `let p = v; rest` is `(let [p v] rest)`.
fn lower_let(stmts: &Vec<&Stmt>, mode: Mode) -> (out: Form)
    requires
        stmts.len() > 0,
        *stmts@[0] is Let,
    ensures
        mode is Fn ==> model(out) == fn_stmts_spec(deref_all(stmts@)),
    decreases stmts_size(deref_all(stmts@)), 1nat,
{
    let ghost ss = deref_all(stmts@);
    let rest = tail(stmts, 1);
    proof {
        lemma_size_first(ss);
        lemma_stmt_size_pos(ss[0]);
        assert(ss[0] == *stmts@[0]);
    }
    match stmts[0] {
        Stmt::Let { pattern, value, .. } => {
            let binding = let_binding(pattern, value, mode);
            let bound = clj::vector(binding);
            let body = lower_stmts(&rest, mode);
            let mut args = Vec::new();
            args.push(bound);
            args.push(body);
            proof {
                if mode is Fn {
                    let want = seq![model(bound), model(body)];
                    lemma_models_from_elements(args@, want);
                    assert(seq![FormModel::Symbol("let"@)] + want =~= seq![FormModel::Symbol("let"@), model(bound), model(body)]);
                }
            }
            call_of("let", args)
        }
        _ => clj::nil(),
    }
}

/// An `if` statement: the start of a `cond` chain, or an `if` whose
/// branches carry what follows it.
fn lower_if(stmts: &Vec<&Stmt>, mode: Mode) -> (out: Form)
    requires
        stmts.len() > 0,
        *stmts@[0] is If,
    ensures
        mode is Fn ==> model(out) == fn_stmts_spec(deref_all(stmts@)),
    decreases stmts_size(deref_all(stmts@)), 2nat,
{
    let ghost ss = deref_all(stmts@);
    let rest = tail(stmts, 1);
    proof {
        lemma_size_first(ss);
        lemma_stmt_size_pos(ss[0]);
        assert(ss[0] == *stmts@[0]);
    }
    match stmts[0] {
        Stmt::If { consequence, alternative, .. } => {
            let single_return = consequence.stmts.len() == 1 && matches!(consequence.stmts[0], Stmt::Return { .. });
            if alternative.is_none() && single_return && rest.len() > 0 {
                let out = cond_chain(stmts, mode);
                proof {
                    if mode is Fn {
                        let first = seq![
                            fn_expr_spec(ss[0]->If_condition),
                            fn_expr_spec(ss[0]->If_consequence.stmts@[0]->Return_value),
                        ];
                        assert(cond_arms_spec(ss) == first + cond_arms_spec(deref_all(rest@)));
                        assert(seq![FormModel::Symbol("cond"@)] + (first + cond_arms_spec(deref_all(rest@))) =~= seq![
                            FormModel::Symbol("cond"@),
                            first[0],
                            first[1],
                        ] + cond_arms_spec(deref_all(rest@)));
                    }
                }
                return out;
            }
            lower_plain_if(stmts, mode)
        }
        _ => clj::nil(),
    }
}

/// `if` with its branches followed by what comes after the statement.
fn lower_plain_if(stmts: &Vec<&Stmt>, mode: Mode) -> (out: Form)
    requires
        stmts.len() > 0,
        *stmts@[0] is If,
        !(is_early_return(*stmts@[0]) && stmts.len() > 1),
    ensures
        mode is Fn ==> model(out) == fn_stmts_spec(deref_all(stmts@)),
    decreases stmts_size(deref_all(stmts@)), 1nat,
{
    let ghost ss = deref_all(stmts@);
    let rest = tail(stmts, 1);
    proof {
        lemma_size_first(ss);
        lemma_stmt_size_pos(ss[0]);
        assert(ss[0] == *stmts@[0]);
    }
    match stmts[0] {
        Stmt::If { condition, consequence, alternative, .. } => {
            let then_stmts = append_if_falls_through(&consequence.stmts, &rest);
            let else_stmts = match alternative {
                Some(alt) => append_if_falls_through(&alt.stmts, &rest),
                None => tail(&rest, 0),
            };
            proof {
                lemma_size_concat(consequence.stmts@, deref_all(rest@));
                match alternative {
                    Some(alt) => { lemma_size_concat(alt.stmts@, deref_all(rest@)); }
                    None => {}
                }
                assert(deref_all(rest@).subrange(0, rest.len() as int) =~= deref_all(rest@));
            }
            let ghost r = ss.subrange(1, ss.len() as int);
            let ghost else_spec = match alternative {
                Some(alt) => falls_through_spec(alt.stmts@, r),
                None => r,
            };
            assert(deref_all(then_stmts@) == falls_through_spec(consequence.stmts@, r));
            assert(deref_all(else_stmts@) == else_spec);
            let c = lower_expr(condition, mode);
            let t = lower_stmts(&then_stmts, mode);
            let f = lower_stmts(&else_stmts, mode);
            let mut args = Vec::new();
            args.push(c);
            args.push(t);
            args.push(f);
            proof {
                if mode is Fn {
                    let want = seq![model(c), model(t), model(f)];
                    lemma_models_from_elements(args@, want);
                    assert(seq![FormModel::Symbol("if"@)] + want =~= seq![FormModel::Symbol("if"@), model(c), model(t), model(f)]);
                    lemma_plain_if_unfold(ss);
                    assert(model(c) == fn_expr_spec(ss[0]->If_condition));
                    assert(model(t) == fn_stmts_spec(falls_through_spec(ss[0]->If_consequence.stmts@, r)));
                    assert(model(f) == fn_stmts_spec(else_spec));
                    assert(seq![FormModel::Symbol("if"@), model(c), model(t), model(f)] =~= plain_if_spec(ss));
                }
            }
            call_of("if", args)
        }
        _ => clj::nil(),
    }
}

/// The `if` form of an `if` statement that opens no `cond` chain.
pub open spec fn plain_if_spec(ss: Seq<Stmt>) -> Seq<FormModel>
    recommends
        ss.len() > 0,
        ss[0] is If,
{
    let r = ss.subrange(1, ss.len() as int);
    seq![
        FormModel::Symbol("if"@),
        fn_expr_spec(ss[0]->If_condition),
        fn_stmts_spec(falls_through_spec(ss[0]->If_consequence.stmts@, r)),
        fn_stmts_spec(
            match ss[0]->If_alternative {
                Some(alt) => falls_through_spec(alt.stmts@, r),
                None => r,
            },
        ),
    ]
}

proof fn lemma_plain_if_unfold(ss: Seq<Stmt>)
    requires
        ss.len() > 0,
        ss[0] is If,
        !(is_early_return(ss[0]) && ss.len() > 1),
    ensures
        fn_stmts_spec(ss) == FormModel::List(plain_if_spec(ss)),
{
    assert(fn_stmts_spec(ss) is List);
    let got = fn_stmts_spec(ss)->List_0;
    let want = plain_if_spec(ss);
    assert(got.len() == 4);
    assert(got[0] == want[0]);
    assert(got[1] == want[1]);
    assert(got[2] == want[2]);
    assert(got[3] == want[3]);
    assert(got =~= want);
}

/// An effect is the body's value when it is last, else `(do effect rest)`.
fn lower_effect(stmts: &Vec<&Stmt>, mode: Mode) -> (out: Form)
    requires
        stmts.len() > 0,
        *stmts@[0] is Effect,
    ensures
        mode is Fn ==> model(out) == fn_stmts_spec(deref_all(stmts@)),
    decreases stmts_size(deref_all(stmts@)), 1nat,
{
    let ghost ss = deref_all(stmts@);
    let rest = tail(stmts, 1);
    proof {
        lemma_size_first(ss);
        lemma_stmt_size_pos(ss[0]);
        assert(ss[0] == *stmts@[0]);
    }
    match stmts[0] {
        Stmt::Effect { value, .. } => {
            if stmts.len() == 1 {
                lower_expr(value, mode)
            } else {
                let v = lower_expr(value, mode);
                let body = lower_stmts(&rest, mode);
                let mut args = Vec::new();
                args.push(v);
                args.push(body);
                proof {
                    if mode is Fn {
                        let want = seq![model(v), model(body)];
                        lemma_models_from_elements(args@, want);
                        assert(seq![FormModel::Symbol("do"@)] + want =~= seq![FormModel::Symbol("do"@), model(v), model(body)]);
                    }
                }
                call_of("do", args)
            }
        }
        _ => clj::nil(),
    }
}

/// A dataflow-only statement is skipped, or throws when nothing follows it.
fn lower_skipped(stmts: &Vec<&Stmt>, mode: Mode) -> (out: Form)
    requires
        stmts.len() > 0,
        !(*stmts@[0] is Return || *stmts@[0] is Let || *stmts@[0] is If || *stmts@[0] is Effect),
    ensures
        mode is Fn ==> model(out) == fn_stmts_spec(deref_all(stmts@)),
    decreases stmts_size(deref_all(stmts@)), 1nat,
{
    let ghost ss = deref_all(stmts@);
    let rest = tail(stmts, 1);
    proof {
        lemma_size_first(ss);
        lemma_stmt_size_pos(ss[0]);
        assert(ss[0] == *stmts@[0]);
    }
    if stmts.len() > 1 {
        return lower_stmts(&rest, mode);
    }
    let note = match stmts[0] {
        Stmt::Fail { .. } => "fail",
        Stmt::Select { .. } => "select",
        Stmt::Transform { .. } => "transform",
        Stmt::Hash { .. } => "|hash",
        _ => "stmt",
    };
    let mut message = owned(note);
    message.push_str(" not valid in fn");
    let text = clj::string(message.as_str());
    let empty = clj::map(Vec::new());
    let mut info = Vec::new();
    info.push(text);
    info.push(empty);
    let raised = call_of("ex-info", info);
    let mut thrown = Vec::new();
    thrown.push(raised);
    proof {
        let want = seq![model(text), model(empty)];
        lemma_models_from_elements(info@, want);
        assert(models(Seq::<Form>::empty()) =~= Seq::<FormModel>::empty());
        assert(seq![FormModel::Symbol("ex-info"@)] + want =~= seq![FormModel::Symbol("ex-info"@), model(text), model(empty)]);
        lemma_models_from_elements(thrown@, seq![model(raised)]);
        assert(seq![FormModel::Symbol("throw"@)] + seq![model(raised)] =~= seq![FormModel::Symbol("throw"@), model(raised)]);
    }
    call_of("throw", thrown)
}

/// `if (c) { return v }` runs followed by the rest become one `cond`.
fn cond_chain(stmts: &Vec<&Stmt>, mode: Mode) -> (out: Form)
    requires
        stmts.len() > 0,
        is_early_return(*stmts@[0]),
    ensures
        mode is Fn ==> model(out) == FormModel::List(seq![FormModel::Symbol("cond"@)] + cond_arms_spec(deref_all(stmts@))),
    decreases stmts_size(deref_all(stmts@)), 0nat,
{
    let ghost ss = deref_all(stmts@);
    let mut arms: Vec<Form> = Vec::new();
    let mut i: usize = 0;
    proof {
        assert(ss.subrange(0, ss.len() as int) =~= ss);
        assert(models(arms@) =~= Seq::<FormModel>::empty());
    }
    while i < stmts.len()
        invariant_except_break
            0 < stmts.len(),
            i <= stmts.len(),
            ss == deref_all(stmts@),
            is_early_return(ss[0]),
            mode is Fn ==> models(arms@) + cond_arms_spec(ss.subrange(i as int, ss.len() as int)) == cond_arms_spec(ss),
        ensures
            1 <= i <= stmts.len(),
            ss == deref_all(stmts@),
            mode is Fn ==> models(arms@) + cond_arms_spec(ss.subrange(i as int, ss.len() as int)) == cond_arms_spec(ss),
            i == stmts.len() || (!is_early_return(ss[i as int]) && !(ss[i as int] is Return)),
        decreases stmts.len() - i,
    {
        let ghost suffix = ss.subrange(i as int, ss.len() as int);
        assert(suffix[0] == *stmts@[i as int]);
        match stmts[i] {
            Stmt::If { condition, consequence, alternative: None, .. } => {
                if consequence.stmts.len() == 1 {
                    match &consequence.stmts[0] {
                        Stmt::Return { value, .. } => {
                            let c = lower_expr(condition, mode);
                            let v = lower_expr(value, mode);
                            let ghost before = arms@;
                            arms.push(c);
                            arms.push(v);
                            proof {
                                if mode is Fn {
                                    lemma_models_push(before, c);
                                    lemma_models_push(before.push(c), v);
                                    assert(suffix.subrange(1, suffix.len() as int) =~= ss.subrange(i + 1, ss.len() as int));
                                    assert(models(arms@) + cond_arms_spec(ss.subrange(i + 1, ss.len() as int)) =~= models(before)
                                        + cond_arms_spec(suffix));
                                }
                            }
                            i += 1;
                            continue;
                        }
                        _ => {}
                    }
                }
                break;
            }
            Stmt::Return { value, .. } => {
                let v = lower_expr(value, mode);
                let e = clj::kw("else");
                let ghost before = arms@;
                arms.push(e);
                arms.push(v);
                proof {
                    if mode is Fn {
                        lemma_models_push(before, e);
                        lemma_models_push(before.push(e), v);
                        assert(models(arms@) =~= models(before) + cond_arms_spec(suffix));
                    }
                }
                return call_of("cond", arms);
            }
            _ => {
                break;
            }
        }
    }
    let rest = tail(stmts, i);
    proof {
        lemma_size_tail(ss, i as int);
    }
    let body = lower_stmts(&rest, mode);
    let e = clj::kw("else");
    let ghost before = arms@;
    arms.push(e);
    arms.push(body);
    proof {
        if mode is Fn {
            lemma_models_push(before, e);
            lemma_models_push(before.push(e), body);
            assert(models(arms@) =~= models(before) + cond_arms_spec(ss.subrange(i as int, ss.len() as int)));
        }
    }
    call_of("cond", arms)
}

pub proof fn lemma_stmt_size_pos(s: Stmt)
    ensures
        stmt_size(s) >= 1,
{
}

pub proof fn lemma_size_tail(ss: Seq<Stmt>, k: int)
    requires
        1 <= k <= ss.len(),
    ensures
        stmts_size(ss.subrange(k, ss.len() as int)) < stmts_size(ss),
    decreases k,
{
    lemma_stmt_size_pos(ss[0]);
    lemma_size_first(ss);
    if k > 1 {
        lemma_size_tail(ss, k - 1);
        let prev = ss.subrange(k - 1, ss.len() as int);
        lemma_stmt_size_pos(prev[0]);
        lemma_size_first(prev);
        assert(prev.subrange(1, prev.len() as int) =~= ss.subrange(k, ss.len() as int));
    }
}

/// The branch followed by `rest`, unless the branch always returns.
fn append_if_falls_through<'a>(branch: &'a Vec<Stmt>, rest: &Vec<&'a Stmt>) -> (out: Vec<&'a Stmt>)
    ensures
        deref_all(out@) == falls_through_spec(branch@, deref_all(rest@)),
{
    let mut out = refs(branch);
    assert(out@.len() == deref_all(out@).len());
    if always_returns(branch) || rest.len() == 0 {
        return out;
    }
    let ghost before = out@;
    let mut i: usize = 0;
    while i < rest.len()
        invariant
            i <= rest.len(),
            out@.len() == branch@.len() + i,
            deref_all(out@) == branch@ + deref_all(rest@).take(i as int),
        decreases rest.len() - i,
    {
        let ghost prev = out@;
        out.push(rest[i]);
        proof {
            let target = branch@ + deref_all(rest@).take(i + 1);
            assert forall|j: int| 0 <= j < out@.len() implies deref_all(out@)[j] == target[j] by {
                if j < prev.len() {
                    assert(out@[j] == prev[j]);
                    assert(deref_all(prev)[j] == (branch@ + deref_all(rest@).take(i as int))[j]);
                }
            }
            assert(deref_all(out@) =~= target);
        }
        i += 1;
    }
    assert(deref_all(rest@).take(rest.len() as int) =~= deref_all(rest@));
    out
}

/// Whether every path through `stmts` ends in `return`.
pub open spec fn always_returns_spec(stmts: Seq<Stmt>) -> bool
    decreases stmts,
{
    if stmts.len() == 0 {
        false
    } else {
        match stmts.last() {
            Stmt::Return { .. } => true,
            Stmt::If { consequence, alternative, .. } => always_returns_spec(consequence.stmts@)
                && match alternative {
                    Some(a) => always_returns_spec(a.stmts@),
                    None => false,
                },
            _ => false,
        }
    }
}

/// The statements that run after a branch of an `if`: the branch, then
/// `rest` unless the branch always returns.
pub open spec fn falls_through_spec(branch: Seq<Stmt>, rest: Seq<Stmt>) -> Seq<Stmt> {
    if always_returns_spec(branch) || rest.len() == 0 {
        branch
    } else {
        branch + rest
    }
}

/// `if (c) { return v }` with no `else`.
pub open spec fn is_early_return(s: Stmt) -> bool {
    s matches Stmt::If { consequence, alternative, .. } && alternative is None
        && consequence.stmts@.len() == 1 && consequence.stmts@[0] is Return
}

/// The binding vector of a `let` in an ordinary Clojure `let`.
pub open spec fn let_binding_spec(pattern: LetPattern, value: Expr) -> Seq<FormModel> {
    match pattern {
        LetPattern::Name(n) => seq![FormModel::Symbol(n.node@), fn_expr_spec(value)],
        LetPattern::Destructure(names) => seq![
            FormModel::MapLit(
                seq![(FormModel::Keyword("keys"@), FormModel::Vector(names@.map_values(|n: Spanned<String>| FormModel::Symbol(n.node@))))],
            ),
            fn_expr_spec(value),
        ],
    }
}

/// The word naming a dataflow-only statement in the error a `fn` throws.
pub open spec fn stmt_note(s: Stmt) -> Seq<char> {
    match s {
        Stmt::Fail { .. } => "fail"@,
        Stmt::Select { .. } => "select"@,
        Stmt::Transform { .. } => "transform"@,
        Stmt::Hash { .. } => "|hash"@,
        _ => "stmt"@,
    }
}

/// `(throw (ex-info "<note> not valid in fn" {}))`.
pub open spec fn throw_spec(note: Seq<char>) -> FormModel {
    FormModel::List(
        seq![
            FormModel::Symbol("throw"@),
            FormModel::List(
                seq![
                    FormModel::Symbol("ex-info"@),
                    FormModel::String(note + " not valid in fn"@),
                    FormModel::MapLit(Seq::empty()),
                ],
            ),
        ],
    )
}

/// The Clojure expression a `fn` body lowers to: `return v` is the value
/// `v`, `let` nests a `let` around the statements after it, `if` becomes an
/// `if` whose branches carry the statements after it (unless the branch
/// always returns), a run of early returns becomes one `cond`, effects are
/// sequenced with `do`, and dataflow-only statements are skipped, or throw
/// when nothing follows them. An empty body is `nil`.
pub open spec fn fn_stmts_spec(ss: Seq<Stmt>) -> FormModel
    decreases stmts_size(ss), 0nat,
{
    if ss.len() == 0 {
        FormModel::Nil
    } else {
        let rest = ss.subrange(1, ss.len() as int);
        proof {
            lemma_size_first(ss);
            lemma_stmt_size_pos(ss[0]);
        }
        match ss[0] {
            Stmt::Return { value, .. } => fn_expr_spec(value),
            Stmt::Let { pattern, value, .. } => FormModel::List(
                seq![
                    FormModel::Symbol("let"@),
                    FormModel::Vector(let_binding_spec(pattern, value)),
                    fn_stmts_spec(rest),
                ],
            ),
            Stmt::If { condition, consequence, alternative, .. } => {
                if is_early_return(ss[0]) && rest.len() > 0 {
                    FormModel::List(
                        seq![
                            FormModel::Symbol("cond"@),
                            fn_expr_spec(condition),
                            fn_expr_spec(consequence.stmts@[0]->Return_value),
                        ] + cond_arms_spec(rest),
                    )
                } else {
                    proof {
                        lemma_size_concat(consequence.stmts@, rest);
                        match alternative {
                            Some(alt) => {
                                lemma_size_concat(alt.stmts@, rest);
                            },
                            None => {},
                        }
                    }
                    FormModel::List(
                        seq![
                            FormModel::Symbol("if"@),
                            fn_expr_spec(condition),
                            fn_stmts_spec(falls_through_spec(consequence.stmts@, rest)),
                            fn_stmts_spec(
                                match alternative {
                                    Some(alt) => falls_through_spec(alt.stmts@, rest),
                                    None => rest,
                                },
                            ),
                        ],
                    )
                }
            },
            Stmt::Effect { value, .. } => if ss.len() == 1 {
                fn_expr_spec(value)
            } else {
                FormModel::List(seq![FormModel::Symbol("do"@), fn_expr_spec(value), fn_stmts_spec(rest)])
            },
            other => if ss.len() == 1 {
                throw_spec(stmt_note(other))
            } else {
                fn_stmts_spec(rest)
            },
        }
    }
}

/// The arms of a `cond` after its first: each further early return is a
/// test and its value, a `return` ends the chain as the `:else` arm, and
/// anything else is lowered whole as the `:else` arm.
pub open spec fn cond_arms_spec(ss: Seq<Stmt>) -> Seq<FormModel>
    decreases stmts_size(ss), 1nat,
{
    if ss.len() == 0 {
        seq![FormModel::Keyword("else"@), FormModel::Nil]
    } else if is_early_return(ss[0]) {
        proof {
            lemma_size_tail(ss, 1);
        }
        seq![fn_expr_spec(ss[0]->If_condition), fn_expr_spec(ss[0]->If_consequence.stmts@[0]->Return_value)]
            + cond_arms_spec(ss.subrange(1, ss.len() as int))
    } else if ss[0] is Return {
        seq![FormModel::Keyword("else"@), fn_expr_spec(ss[0]->Return_value)]
    } else {
        seq![FormModel::Keyword("else"@), fn_stmts_spec(ss)]
    }
}

fn always_returns(stmts: &Vec<Stmt>) -> (r: bool)
    ensures
        r == always_returns_spec(stmts@),
    decreases stmts,
{
    if stmts.len() == 0 {
        return false;
    }
    match &stmts[stmts.len() - 1] {
        Stmt::Return { .. } => true,
        Stmt::If { consequence, alternative, .. } => {
            always_returns(&consequence.stmts) && match alternative {
                Some(a) => always_returns(&a.stmts),
                None => false,
            }
        }
        _ => false,
    }
}

fn let_binding(pattern: &LetPattern, value: &Expr, mode: Mode) -> (out: Vec<Form>)
    ensures
        mode is Fn ==> models(out@) == let_binding_spec(*pattern, *value),
{
    let rhs = lower_expr(value, mode);
    let mut out = Vec::new();
    match pattern {
        LetPattern::Name(n) => {
            out.push(local(n.node.as_str(), mode));
            out.push(rhs);
            proof {
                if mode is Fn {
                    lemma_models_from_elements(out@, let_binding_spec(*pattern, *value));
                }
            }
        }
        LetPattern::Destructure(names) => {
            let ghost key_model = names@.map_values(|n: Spanned<String>| FormModel::Symbol(n.node@));
            let mut keys: Vec<Form> = Vec::new();
            let mut i: usize = 0;
            while i < names.len()
                invariant
                    i <= names.len(),
                    keys@.len() == i,
                    key_model == names@.map_values(|n: Spanned<String>| FormModel::Symbol(n.node@)),
                    forall|k: int| 0 <= k < i ==> model(#[trigger] keys@[k]) == key_model[k],
                decreases names.len() - i,
            {
                assert(key_model[i as int] == FormModel::Symbol(names@[i as int].node@));
                keys.push(clj::sym(names[i].node.as_str()));
                i += 1;
            }
            proof {
                lemma_models_from_elements(keys@, key_model);
            }
            let mut entries = Vec::new();
            entries.push((clj::kw("keys"), clj::vector(keys)));
            let m = clj::map(entries);
            proof {
                lemma_pair_models_index(entries@);
                assert(pair_models(entries@) =~= seq![(FormModel::Keyword("keys"@), FormModel::Vector(key_model))]);
            }
            out.push(m);
            out.push(rhs);
            proof {
                if mode is Fn {
                    lemma_models_from_elements(out@, let_binding_spec(*pattern, *value));
                }
            }
        }
    }
    out
}

fn local(name: &str, mode: Mode) -> (out: Form)
    ensures
        mode is Fn ==> model(out) == FormModel::Symbol(name@),
{
    match mode {
        Mode::Fn => clj::sym(name),
        Mode::Op => {
            let mut s = owned("*");
            s.push_str(name);
            clj::sym(s.as_str())
        }
    }
}

#[verifier::loop_isolation(false)]
fn lower_exprs(es: &Vec<Expr>, mode: Mode) -> (out: Vec<Form>)
    ensures
        mode is Fn ==> models(out@) == fn_exprs_spec(es@),
    decreases es, 0nat,
{
    let mut out: Vec<Form> = Vec::new();
    let mut i: usize = 0;
    while i < es.len()
        invariant
            i <= es.len(),
            out@.len() == i,
            mode is Fn ==> forall|k: int| 0 <= k < i ==> model(#[trigger] out@[k]) == fn_expr_spec(es@[k]),
        decreases es.len() - i,
    {
        out.push(lower_expr(&es[i], mode));
        i += 1;
    }
    proof {
        if mode is Fn {
            lemma_fn_exprs_index(es@);
            lemma_models_from_elements(out@, fn_exprs_spec(es@));
        }
    }
    out
}

#[verifier::loop_isolation(false)]
fn lower_expr(e: &Expr, mode: Mode) -> (result: Form)
    ensures
        mode is Fn ==> model(result) == fn_expr_spec(*e),
    decreases e, 1nat,
{
    match e {
        Expr::Call(c) => clj::call(c.callee.node.as_str(), lower_exprs(&c.args, mode)),
        Expr::List { elems, .. } => clj::vector(lower_exprs(elems, mode)),
        Expr::MapLit { entries, .. } => {
            let mut out: Vec<(Form, Form)> = Vec::new();
            let mut i: usize = 0;
            while i < entries.len()
                invariant
                    i <= entries.len(),
                    out@.len() == i,
                    mode is Fn ==> forall|k: int| 0 <= k < i ==> (model((#[trigger] out@[k]).0), model(out@[k].1)) == (
                        fn_expr_spec(entries@[k].key),
                        match entries@[k].value {
                            Some(v) => fn_expr_spec(v),
                            None => fn_expr_spec(entries@[k].key),
                        },
                    ),
                decreases entries.len() - i,
            {
                let k = lower_expr(&entries[i].key, mode);
                let v = match &entries[i].value {
                    Some(v) => lower_expr(v, mode),
                    None => k.clone(),
                };
                out.push((k, v));
                i += 1;
            }
            proof {
                if mode is Fn {
                    lemma_fn_entries_index(entries@);
                    lemma_pair_models_index(out@);
                    assert(pair_models(out@) =~= fn_entries_spec(entries@));
                }
            }
            clj::map(out)
        }
        Expr::String(s) => clj::string(s.node.as_str()),
        Expr::Keyword(k) => clj::kw(k.node.as_str()),
        Expr::Ident(i) => match mode {
            Mode::Fn => clj::sym(i.node.as_str()),
            Mode::Op => clj::sym(op_ident(i.node.as_str()).as_str()),
        },
        Expr::Int(n) => {
            let r = clj::integer(n.node);
            assert(model(r) == FormModel::Int(n.node as int));
            r
        }
        Expr::Bool(b) => {
            let r = clj::bool(b.node);
            assert(model(r) == FormModel::Bool(b.node));
            r
        }
        Expr::Binary { op, left, right, .. } => {
            let equality = matches!(op, BinaryOp::Eq);
            if equality && is_nil_ident(right) {
                return clj::call1("nil?", lower_expr(left, mode));
            }
            if equality && is_nil_ident(left) {
                return clj::call1("nil?", lower_expr(right, mode));
            }
            let head = match op {
                BinaryOp::Eq => "=",
                BinaryOp::NotEq => "not=",
            };
            let l = lower_expr(left, mode);
            let r = lower_expr(right, mode);
            let mut args: Vec<Form> = Vec::new();
            args.push(l);
            args.push(r);
            proof {
                if mode is Fn {
                    assert(args@ =~= seq![l, r]);
                    lemma_models_from_elements(args@, seq![fn_expr_spec(**left), fn_expr_spec(**right)]);
                    assert(seq![FormModel::Symbol(head@)] + seq![fn_expr_spec(**left), fn_expr_spec(**right)] =~= seq![
                        FormModel::Symbol(head@),
                        fn_expr_spec(**left),
                        fn_expr_spec(**right),
                    ]);
                }
            }
            clj::call(head, args)
        }
        Expr::Ternary { cond, then_branch, else_branch, .. } => {
            let c = lower_expr(cond, mode);
            let t = lower_expr(then_branch, mode);
            let f = lower_expr(else_branch, mode);
            let mut args: Vec<Form> = Vec::new();
            args.push(c);
            args.push(t);
            args.push(f);
            proof {
                if mode is Fn {
                    assert(args@ =~= seq![c, t, f]);
                    lemma_models_from_elements(
                        args@,
                        seq![fn_expr_spec(**cond), fn_expr_spec(**then_branch), fn_expr_spec(**else_branch)],
                    );
                    assert(seq![FormModel::Symbol("if"@)] + seq![
                        fn_expr_spec(**cond),
                        fn_expr_spec(**then_branch),
                        fn_expr_spec(**else_branch),
                    ] =~= seq![
                        FormModel::Symbol("if"@),
                        fn_expr_spec(**cond),
                        fn_expr_spec(**then_branch),
                        fn_expr_spec(**else_branch),
                    ]);
                }
            }
            clj::call("if", args)
        }
        Expr::As { value, ty, .. } => contracts::checked_as(lower_expr(value, mode), &ty.node),
    }
}

/// Core names the op dialect never treats as locals.
pub open spec fn is_core_name(name: Seq<char>) -> bool {
    name == "nil"@ || name == "true"@ || name == "false"@ || name == "inc"@ || name == "long"@ || name == "set"@
        || name == "disj"@ || name == "contains?"@ || name == "even?"@ || name == "nil?"@ || name == "not"@
        || name == "and"@ || name == "or"@ || name == "some?"@ || name == "keypath"@ || name == "termval"@
        || name == "term"@ || name == "multi-path"@ || name == "nil->val"@ || name == "AFTER-ELEM"@
}

/// Names the op dialect treats as locals.
pub open spec fn local_name(name: Seq<char>) -> bool {
    name.len() > 0 && (is_lowercase_spec(name[0]) || name[0] == '_') && !is_core_name(name)
}

/// Whether the expression is the literal `nil`.
fn is_nil_ident(e: &Expr) -> (r: bool)
    ensures
        r == is_nil_expr(*e),
{
    match e {
        Expr::Ident(i) => str_eq(i.node.as_str(), "nil"),
        _ => false,
    }
}

fn op_ident(name: &str) -> (out: String)
    ensures
        out@ == if local_name(name@) { seq!['*'] + name@ } else { name@ },
{
    if looks_like_local(name) {
        let mut s = owned("*");
        s.push_str(name);
        proof {
            reveal_strlit("*");
        }
        assert(s@ =~= seq!['*'] + name@);
        s
    } else {
        owned(name)
    }
}

/// Names the op dialect treats as locals: lower-case or `_` first, and not
/// one of the core functions and navigators.
fn looks_like_local(name: &str) -> (r: bool)
    ensures
        r == local_name(name@),
{
    let cs = chars_of(name);
    if cs.len() == 0 {
        return false;
    }
    let first = cs[0];
    if !(is_lowercase(first) || first == '_') {
        return false;
    }
    !(str_eq(name, "nil") || str_eq(name, "true") || str_eq(name, "false") || str_eq(name, "inc")
        || str_eq(name, "long") || str_eq(name, "set") || str_eq(name, "disj")
        || str_eq(name, "contains?") || str_eq(name, "even?") || str_eq(name, "nil?")
        || str_eq(name, "not") || str_eq(name, "and") || str_eq(name, "or")
        || str_eq(name, "some?") || str_eq(name, "keypath") || str_eq(name, "termval")
        || str_eq(name, "term") || str_eq(name, "multi-path") || str_eq(name, "nil->val")
        || str_eq(name, "AFTER-ELEM"))
}

} // verus!
