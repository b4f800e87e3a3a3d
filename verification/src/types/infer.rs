//! Inferring expression types, resolving calls against overloaded
//! signatures, and checking typed `fn` bodies.

use vstd::prelude::*;
use crate::ast::Expr;
use crate::error::Diagnostic;
use crate::span::Span;
use crate::text::{cat, decimal_digits, join, join_seq, owned, str_eq, usize_to_string, views};
use crate::types::checker::{entries_below, entry_get, lookup, Checker};
use crate::types::model::{ids_below, sig_below, Signature, TypeOracle};
use crate::types::{children, copy_ids, extends, type_at, Type, TypeId, TypeModel};
use crate::types::resolve::union_result;

verus! {

fn ids_equal(a: &Vec<TypeId>, b: &Vec<TypeId>) -> (r: bool)
    ensures
        r == (a@ == b@),
{
    if a.len() != b.len() {
        return false;
    }
    let mut i: usize = 0;
    while i < a.len()
        invariant
            a.len() == b.len(),
            i <= a.len(),
            forall|j: int| 0 <= j < i ==> a@[j] == b@[j],
        decreases a.len() - i,
    {
        if a[i].0 != b[i].0 {
            return false;
        }
        i += 1;
    }
    assert(a@ =~= b@);
    true
}

fn strings_equal(a: &Vec<String>, b: &Vec<String>) -> (r: bool)
    ensures
        r == (views(a@) == views(b@)),
{
    if a.len() != b.len() {
        return false;
    }
    let mut i: usize = 0;
    while i < a.len()
        invariant
            a.len() == b.len(),
            i <= a.len(),
            forall|j: int| 0 <= j < i ==> views(a@)[j] == views(b@)[j],
        decreases a.len() - i,
    {
        if !str_eq(a[i].as_str(), b[i].as_str()) {
            assert(views(a@)[i as int] != views(b@)[i as int]);
            return false;
        }
        i += 1;
    }
    assert(views(a@) =~= views(b@));
    true
}

/// Two signatures with the same parameters, return and type variables.
pub open spec fn same_signature(a: Signature, b: Signature) -> bool {
    a.params@ == b.params@ && a.ret == b.ret && views(a.quantified@) == views(b.quantified@)
}

/// The highest score among the applicable overloads; 0 when none.
pub open spec fn top_score(app: Seq<Applicable>) -> usize
    decreases app.len(),
{
    if app.len() == 0 {
        0
    } else {
        let rest = top_score(app.drop_last());
        if app.last().score >= rest { app.last().score } else { rest }
    }
}

/// The overloads with score `score`, in order.
pub open spec fn scored(app: Seq<Applicable>, score: usize) -> Seq<Applicable>
    decreases app.len(),
{
    if app.len() == 0 {
        Seq::empty()
    } else {
        scored(app.drop_last(), score) + if app.last().score == score { seq![app.last()] } else { Seq::empty() }
    }
}

/// Whether neighbouring overloads all carry the same signature.
pub open spec fn all_same(best: Seq<Applicable>) -> bool {
    forall|k: int| 1 <= k < best.len() ==> same_signature(#[trigger] best[k - 1].signature, best[k].signature)
}

/// Whether some argument type is `Dynamic`.
pub open spec fn has_dynamic(table: Seq<TypeModel>, args: Seq<TypeId>) -> bool {
    exists|m: int| 0 <= m < args.len() && type_at(table, #[trigger] args[m]) is Dynamic
}

pub open spec fn results_of(best: Seq<Applicable>) -> Seq<TypeId> {
    best.map_values(|a: Applicable| a.result)
}

pub open spec fn deref_applicable(best: Seq<&Applicable>) -> Seq<Applicable> {
    best.map_values(|a: &Applicable| *a)
}

proof fn lemma_top_scored_nonempty(app: Seq<Applicable>)
    requires
        app.len() > 0,
    ensures
        scored(app, top_score(app)).len() > 0,
    decreases app.len(),
{
    let rest = app.drop_last();
    if app.last().score < top_score(rest) {
        lemma_top_scored_nonempty(rest);
    }
}

/// Every overload of `scored(app, score)` is one of `app`.
proof fn lemma_scored_members(app: Seq<Applicable>, score: usize)
    ensures
        forall|q: int| 0 <= q < scored(app, score).len() ==> exists|k: int| 0 <= k < app.len() && app[k] == #[trigger] scored(app, score)[q],
    decreases app.len(),
{
    if app.len() > 0 {
        let rest = app.drop_last();
        lemma_scored_members(rest, score);
        assert forall|q: int| 0 <= q < scored(app, score).len() implies exists|k: int| 0 <= k < app.len() && app[k] == #[trigger] scored(app, score)[q] by {
            if q < scored(rest, score).len() {
                let k = choose|k: int| 0 <= k < rest.len() && rest[k] == #[trigger] scored(rest, score)[q];
                assert(app[k] == rest[k]);
            } else {
                assert(app[app.len() - 1] == scored(app, score)[q]);
            }
        }
    }
}

/// The highest score of the overloads.
fn top_of(applicable: &Vec<Applicable>) -> (out: usize)
    ensures
        out == top_score(applicable@),
{
    let mut best_score: usize = 0;
    let mut i: usize = 0;
    while i < applicable.len()
        invariant
            i <= applicable.len(),
            best_score == top_score(applicable@.take(i as int)),
        decreases applicable.len() - i,
    {
        proof {
            assert(applicable@.take(i + 1).drop_last() =~= applicable@.take(i as int));
            assert(applicable@.take(i + 1).last() == applicable@[i as int]);
        }
        if applicable[i].score >= best_score {
            best_score = applicable[i].score;
        }
        i += 1;
    }
    assert(applicable@.take(applicable@.len() as int) =~= applicable@);
    best_score
}

/// The overloads with score `score`, in order.
fn best_of<'b>(applicable: &'b Vec<Applicable>, score: usize) -> (out: Vec<&'b Applicable>)
    ensures
        deref_applicable(out@) == scored(applicable@, score),
{
    let mut best: Vec<&Applicable> = Vec::new();
    let mut j: usize = 0;
    assert(deref_applicable(best@) =~= scored(applicable@.take(0), score));
    while j < applicable.len()
        invariant
            j <= applicable.len(),
            deref_applicable(best@) == scored(applicable@.take(j as int), score),
        decreases applicable.len() - j,
    {
        proof {
            assert(applicable@.take(j + 1).drop_last() =~= applicable@.take(j as int));
            assert(applicable@.take(j + 1).last() == applicable@[j as int]);
        }
        let ghost before = best@;
        if applicable[j].score == score {
            best.push(&applicable[j]);
            assert(deref_applicable(best@) =~= deref_applicable(before).push(applicable@[j as int]));
        } else {
            assert(scored(applicable@.take(j + 1), score) =~= scored(applicable@.take(j as int), score));
        }
        j += 1;
    }
    assert(applicable@.take(applicable@.len() as int) =~= applicable@);
    best
}

/// Whether neighbouring overloads all carry the same signature.
fn all_same_signatures(best: &Vec<&Applicable>) -> (r: bool)
    ensures
        r == all_same(deref_applicable(best@)),
{
    let ghost bests = deref_applicable(best@);
    let mut equivalent = true;
    let mut k: usize = 1;
    while k < best.len()
        invariant
            1 <= k,
            bests == deref_applicable(best@),
            equivalent == forall|q: int| 1 <= q < k && q < bests.len() ==> same_signature(#[trigger] bests[q - 1].signature, bests[q].signature),
        decreases best.len() - k,
    {
        let first = best[k - 1];
        let second = best[k];
        let same = ids_equal(&first.signature.params, &second.signature.params) && first.signature.ret.0
            == second.signature.ret.0 && strings_equal(&first.signature.quantified, &second.signature.quantified);
        proof {
            assert(bests[k - 1] == *first && bests[k as int] == *second);
            assert(same == same_signature(bests[k - 1].signature, bests[k as int].signature));
        }
        if !same {
            equivalent = false;
        }
        k += 1;
    }
    equivalent
}

/// One applicable overload: its score, signature and substituted result.
pub struct Applicable {
    pub score: usize,
    pub signature: Signature,
    pub result: TypeId,
}

/// The classes the literal types name.
proof fn lemma_literal_classes()
    ensures
        crate::contracts::class_of("Long"@) == "java.lang.Long"@,
        crate::contracts::class_of("Boolean"@) == "java.lang.Boolean"@,
{
    reveal_strlit("String");
    reveal_strlit("Long");
    reveal_strlit("Int");
    reveal_strlit("Integer");
    reveal_strlit("Boolean");
    assert("Long"@.len() == 4 && "String"@.len() == 6);
    assert("Boolean"@.len() == 7 && "Long"@.len() == 4 && "Int"@.len() == 3);
    assert("Boolean"@[0] != "Integer"@[0]);
}

impl<'a, O: TypeOracle> Checker<'a, O> {
    /// Copies of the signatures registered under `name`, in order.
    pub fn candidates(&self, name: &str) -> (out: Vec<Signature>)
        requires
            self.wf(),
        ensures
            forall|k: int| 0 <= k < out@.len() ==> sig_below(#[trigger] out@[k], self.n()),
            forall|k: int| 0 <= k < out@.len() ==> (#[trigger] out@[k]).name@ == name@,
            out@.len() == 0 <==> forall|k: int| 0 <= k < self.signatures@.len() ==> (#[trigger] self.signatures@[k]).name@ != name@,
    {
        let mut out: Vec<Signature> = Vec::new();
        let mut i: usize = 0;
        while i < self.signatures.len()
            invariant
                i <= self.signatures.len(),
                self.wf(),
                forall|k: int| 0 <= k < out@.len() ==> sig_below(#[trigger] out@[k], self.n()),
                forall|k: int| 0 <= k < out@.len() ==> (#[trigger] out@[k]).name@ == name@,
                out@.len() == 0 <==> forall|k: int| 0 <= k < i ==> (#[trigger] self.signatures@[k]).name@ != name@,
            decreases self.signatures.len() - i,
        {
            if str_eq(self.signatures[i].name.as_str(), name) {
                let s = self.signatures[i].clone();
                assert(sig_below(self.signatures@[i as int], self.n()));
                out.push(s);
            }
            i += 1;
        }
        out
    }

    /// The type of an expression under `locals`.
    #[verifier::loop_isolation(false)]
    pub fn infer_expr(&mut self, expr: &Expr, locals: &Vec<(String, TypeId)>) -> (out: TypeId)
        requires
            old(self).wf(),
            entries_below(locals@, old(self).n()),
        ensures
            final(self).wf(),
            old(self).n() <= final(self).n(),
            out.0 < final(self).n(),
            final(self).signatures == old(self).signatures,
            final(self).program == old(self).program,
            final(self).oracle == old(self).oracle,
            final(self).typing.functions == old(self).typing.functions,
            crate::types::model::diags_extend(old(self).typing.diagnostics@, final(self).typing.diagnostics@),
            crate::types::extends(old(self).typing.table@, final(self).typing.table@),
            (expr is String || expr is Keyword) ==> final(self).typing.table@[out.0 as int] == (TypeModel::Jvm {
                class: "java.lang.String"@,
                args: Seq::empty(),
            }),
            expr is Int ==> final(self).typing.table@[out.0 as int] == (TypeModel::Jvm { class: "java.lang.Long"@, args: Seq::empty() }),
            (expr is Bool || expr is Binary) ==> final(self).typing.table@[out.0 as int] == (TypeModel::Jvm {
                class: "java.lang.Boolean"@,
                args: Seq::empty(),
            }),
            expr is Ident ==> (expr->Ident_0.node@ == "nil"@ ==> final(self).typing.table@[out.0 as int] == TypeModel::Nil),
            expr is Ident ==> (expr->Ident_0.node@ != "nil"@ && lookup(locals@, expr->Ident_0.node@) is Some ==> Some(out)
                == lookup(locals@, expr->Ident_0.node@)),
            expr is List ==> (final(self).typing.table@[out.0 as int] matches TypeModel::Jvm { class, args } && class
                == "java.util.List"@ && args.len() == 1),
            expr is MapLit ==> (final(self).typing.table@[out.0 as int] matches TypeModel::Jvm { class, args } && class
                == "java.util.Map"@ && args.len() == 2),
            expr is As ==> crate::types::resolve::denotes(final(self).typing.table@, out, expr->As_ty.node, Seq::empty()),
        decreases expr,
    {
        match expr {
            Expr::String(_) | Expr::Keyword(_) => self.jvm_alias("String"),
            Expr::Int(_) => {
                proof {
                    lemma_literal_classes();
                }
                self.jvm_alias("Long")
            }
            Expr::Bool(_) => {
                proof {
                    lemma_literal_classes();
                }
                self.jvm_alias("Boolean")
            }
            Expr::Ident(identifier) => {
                if str_eq(identifier.node.as_str(), "nil") {
                    return self.leaf(Type::Nil);
                }
                match entry_get(locals, identifier.node.as_str()) {
                    Some(local) => local,
                    None => self.infer_function_value(identifier.node.as_str(), identifier.span),
                }
            }
            Expr::List { elems, .. } => {
                let mut elem_type = self.leaf(Type::Never);
                let mut i: usize = 0;
                while i < elems.len()
                    invariant
                        i <= elems.len(),
                        self.wf(),
                        old(self).n() <= self.n(),
                        elem_type.0 < self.n(),
                        entries_below(locals@, self.n()),
                        self.signatures == old(self).signatures,
                        self.program == old(self).program,
                        self.oracle == old(self).oracle,
                        self.typing.functions == old(self).typing.functions,
                        crate::types::model::diags_extend(old(self).typing.diagnostics@, self.typing.diagnostics@),
                        crate::types::extends(old(self).typing.table@, self.typing.table@),
                    decreases elems.len() - i,
                {
                    let inferred = self.infer_expr(&elems[i], locals);
                    elem_type = self.join(elem_type, inferred);
                    i += 1;
                }
                self.typing.table.jvm(owned("java.util.List"), vec![elem_type])
            }
            Expr::MapLit { entries, .. } => {
                let never = self.leaf(Type::Never);
                let mut key_type = never;
                let mut value_type = never;
                let mut i: usize = 0;
                while i < entries.len()
                    invariant
                        i <= entries.len(),
                        self.wf(),
                        old(self).n() <= self.n(),
                        key_type.0 < self.n(),
                        value_type.0 < self.n(),
                        entries_below(locals@, self.n()),
                        self.signatures == old(self).signatures,
                        self.program == old(self).program,
                        self.oracle == old(self).oracle,
                        self.typing.functions == old(self).typing.functions,
                        crate::types::model::diags_extend(old(self).typing.diagnostics@, self.typing.diagnostics@),
                        crate::types::extends(old(self).typing.table@, self.typing.table@),
                    decreases entries.len() - i,
                {
                    let key = self.infer_expr(&entries[i].key, locals);
                    let value = match &entries[i].value {
                        Some(v) => self.infer_expr(v, locals),
                        None => key,
                    };
                    key_type = self.join(key_type, key);
                    value_type = self.join(value_type, value);
                    i += 1;
                }
                self.typing.table.jvm(owned("java.util.Map"), vec![key_type, value_type])
            }
            Expr::Binary { left, right, .. } => {
                self.infer_expr(left, locals);
                self.infer_expr(right, locals);
                proof {
                    lemma_literal_classes();
                }
                self.jvm_alias("Boolean")
            }
            Expr::Ternary { cond, then_branch, else_branch, .. } => {
                self.infer_expr(cond, locals);
                let then_type = self.infer_expr(then_branch, locals);
                let else_type = self.infer_expr(else_branch, locals);
                self.join(then_type, else_type)
            }
            Expr::Call(call) => {
                let mut args: Vec<TypeId> = Vec::new();
                let mut i: usize = 0;
                while i < call.args.len()
                    invariant
                        i <= call.args.len(),
                        self.wf(),
                        old(self).n() <= self.n(),
                        ids_below(args@, self.n()),
                        entries_below(locals@, self.n()),
                        self.signatures == old(self).signatures,
                        self.program == old(self).program,
                        self.oracle == old(self).oracle,
                        self.typing.functions == old(self).typing.functions,
                        crate::types::model::diags_extend(old(self).typing.diagnostics@, self.typing.diagnostics@),
                        crate::types::extends(old(self).typing.table@, self.typing.table@),
                    decreases call.args.len() - i,
                {
                    let t = self.infer_expr(&call.args[i], locals);
                    args.push(t);
                    i += 1;
                }
                match entry_get(locals, call.callee.node.as_str()) {
                    Some(callable) => self.resolve_callable(callable, &args, call.span),
                    None => self.resolve_call(call.callee.node.as_str(), &args, call.span),
                }
            }
            Expr::As { value, ty, .. } => {
                self.infer_expr(value, locals);
                let no_vars: Vec<String> = Vec::new();
                assert(no_vars@ =~= Seq::<String>::empty());
                self.resolve_type(&ty.node, &no_vars, ty.span)
            }
        }
    }

    /// The types of `ids` as written in messages, joined with `, `.
    pub fn display_ids(&self, ids: &Vec<TypeId>) -> (out: String)
        ensures
            out@ == join_seq(ids@.map_values(|id: TypeId| crate::types::display_spec(self.typing.table@, id)), ", "@),
    {
        let ghost shown = ids@.map_values(|id: TypeId| crate::types::display_spec(self.typing.table@, id));
        let mut parts: Vec<String> = Vec::new();
        let mut i: usize = 0;
        while i < ids.len()
            invariant
                i <= ids.len(),
                shown == ids@.map_values(|id: TypeId| crate::types::display_spec(self.typing.table@, id)),
                views(parts@) == shown.take(i as int),
            decreases ids.len() - i,
        {
            let text = self.typing.table.display(ids[i]);
            let ghost prev = parts@;
            parts.push(text);
            assert(views(parts@) =~= views(prev).push(text@));
            assert(shown.take(i + 1) =~= shown.take(i as int).push(shown[i as int]));
            assert(views(parts@) =~= shown.take(i + 1));
            i += 1;
        }
        assert(shown.take(ids@.len() as int) =~= shown);
        join(&parts, ", ")
    }

    /// The result of calling the overloads of `name` with arguments of
    /// types `args`: the most specific applicable signature's substituted
    /// return type; a union when several tie.
    pub fn resolve_call(&mut self, name: &str, args: &Vec<TypeId>, span: Span) -> (out: TypeId)
        requires
            old(self).wf(),
            ids_below(args@, old(self).n()),
        ensures
            (forall|k: int| 0 <= k < old(self).signatures@.len() ==> (#[trigger] old(self).signatures@[k]).name@ != name@)
                ==> final(self).typing.table@[out.0 as int] is Unknown
                && final(self).typing.diagnostics@.len() == old(self).typing.diagnostics@.len() + 1
                && final(self).typing.diagnostics@.last().kind == crate::error::DiagnosticKind::Type
                && final(self).typing.diagnostics@.last().span == span
                && crate::text::is_prefix(
                "unknown function `"@ + name@ + "` in typed code; add an `extern` declaration"@,
                final(self).typing.diagnostics@.last().message@,
            ) && (old(self).oracle is None ==> final(self).typing.diagnostics@.last().message@
                == "unknown function `"@ + name@ + "` in typed code; add an `extern` declaration"@),
            final(self).wf(),
            old(self).n() <= final(self).n(),
            out.0 < final(self).n(),
            final(self).signatures == old(self).signatures,
            final(self).program == old(self).program,
            final(self).oracle == old(self).oracle,
            final(self).typing.functions == old(self).typing.functions,
            crate::types::model::diags_extend(old(self).typing.diagnostics@, final(self).typing.diagnostics@),
            crate::types::extends(old(self).typing.table@, final(self).typing.table@),
    {
        let candidates = self.candidates(name);
        if candidates.len() == 0 {
            let suggestions: Vec<String> = match self.oracle {
                Some(oracle) => oracle.extern_suggestions(name),
                None => Vec::new(),
            };
            let suggestion_text = if suggestions.len() == 0 {
                String::new()
            } else {
                let listed = join(&suggestions, "\n  ");
                cat(vec!["\nobserved live Var; pin one of:\n  ", listed.as_str()])
            };
            let mut message = owned("unknown function `");
            message.push_str(name);
            message.push_str("` in typed code; add an `extern` declaration");
            let ghost head = message@;
            message.push_str(suggestion_text.as_str());
            proof {
                assert(message@.take(head.len() as int) =~= head);
                if self.oracle is None {
                    assert(message@ =~= head);
                }
            }
            self.typing.diagnostics.push(Diagnostic::type_error(span, message));
            return self.leaf(Type::Unknown);
        }
        let applicable = self.applicable(candidates, args);
        if applicable.len() == 0 {
            let shown = self.display_ids(args);
            let mut message = owned("no `");
            message.push_str(name);
            message.push_str("` signature accepts (");
            message.push_str(shown.as_str());
            message.push_str(")");
            self.typing.diagnostics.push(Diagnostic::type_error(span, message));
            return self.leaf(Type::Unknown);
        }
        self.choose_overload(name, &applicable, args, span)
    }

    /// Whether some argument type is `Dynamic`.
    pub fn any_dynamic(&self, args: &Vec<TypeId>) -> (r: bool)
        ensures
            r == has_dynamic(self.typing.table@, args@),
    {
        let mut m: usize = 0;
        while m < args.len()
            invariant
                m <= args.len(),
                forall|x: int| 0 <= x < m ==> !(type_at(self.typing.table@, #[trigger] args@[x]) is Dynamic),
            decreases args.len() - m,
        {
            if let Type::Dynamic = self.typing.table.ty(args[m]) {
                return true;
            }
            m += 1;
        }
        false
    }

    /// The result of a call among its applicable overloads: the result of
    /// the best-scored one; when several score best and their signatures
    /// differ, the union of their results, with an ambiguity error unless
    /// an argument is `Dynamic`. Declaration order never breaks a tie.
    pub fn choose_overload(&mut self, name: &str, applicable: &Vec<Applicable>, args: &Vec<TypeId>, span: Span) -> (out: TypeId)
        requires
            old(self).wf(),
            applicable@.len() > 0,
            forall|k: int| 0 <= k < applicable@.len() ==> (#[trigger] applicable@[k]).result.0 < old(self).n(),
            ids_below(args@, old(self).n()),
        ensures
            final(self).wf(),
            old(self).n() <= final(self).n(),
            out.0 < final(self).n(),
            final(self).signatures == old(self).signatures,
            final(self).program == old(self).program,
            final(self).oracle == old(self).oracle,
            final(self).typing.functions == old(self).typing.functions,
            crate::types::model::diags_extend(old(self).typing.diagnostics@, final(self).typing.diagnostics@),
            extends(old(self).typing.table@, final(self).typing.table@),
            ({
                let best = scored(applicable@, top_score(applicable@));
                if best.len() > 1 && !all_same(best) {
                    &&& union_result(final(self).typing.table@, results_of(best), out)
                    &&& has_dynamic(old(self).typing.table@, args@) ==> final(self).typing.diagnostics@ == old(self).typing.diagnostics@
                    &&& !has_dynamic(old(self).typing.table@, args@) ==> final(self).typing.diagnostics@.len() == old(self).typing.diagnostics@.len() + 1
                        && final(self).typing.diagnostics@.drop_last() == old(self).typing.diagnostics@
                        && final(self).typing.diagnostics@.last().kind == crate::error::DiagnosticKind::Type
                        && final(self).typing.diagnostics@.last().span == span
                        && final(self).typing.diagnostics@.last().message@ == "ambiguous call to `"@ + name@ + "`: "@
                            + decimal_digits(best.len()) + " equally specific signatures apply"@
                } else {
                    &&& best.len() > 0
                    &&& out == best[0].result
                    &&& final(self).typing.diagnostics@ == old(self).typing.diagnostics@
                    &&& final(self).typing.table@ == old(self).typing.table@
                }
            }),
    {
        let best_score = top_of(applicable);
        let best = best_of(applicable, best_score);
        let ghost bests = deref_applicable(best@);
        proof {
            lemma_top_scored_nonempty(applicable@);
            assert forall|q: int| 0 <= q < best@.len() implies (#[trigger] best@[q]).result.0 < self.n() by {
                lemma_scored_members(applicable@, best_score);
                assert(bests[q] == *best@[q]);
            }
        }
        let equivalent_duplicates = all_same_signatures(&best);
        let dynamic_arguments = self.any_dynamic(args);
        if best.len() > 1 && !equivalent_duplicates {
            let ghost diags = self.typing.diagnostics@;
            if !dynamic_arguments {
                let count = usize_to_string(best.len());
                let mut message = owned("ambiguous call to `");
                message.push_str(name);
                message.push_str("`: ");
                message.push_str(count.as_str());
                message.push_str(" equally specific signatures apply");
                self.typing.diagnostics.push(Diagnostic::type_error(span, message));
                proof {
                    assert(self.typing.diagnostics@.drop_last() =~= diags);
                }
            }
            let mut results: Vec<TypeId> = Vec::new();
            let mut r: usize = 0;
            while r < best.len()
                invariant
                    r <= best.len(),
                    bests == deref_applicable(best@),
                    forall|q: int| 0 <= q < best@.len() ==> (#[trigger] best@[q]).result.0 < self.n(),
                    ids_below(results@, self.n()),
                    results@ == results_of(bests).take(r as int),
                decreases best.len() - r,
            {
                results.push(best[r].result);
                proof {
                    assert(results@ =~= results_of(bests).take(r + 1));
                }
                r += 1;
            }
            proof {
                assert(results_of(bests).take(best.len() as int) =~= results_of(bests));
            }
            let ghost before = self.typing.table@;
            let out = self.typing.table.union(results);
            proof {
                crate::types::resolve::lemma_flatten_extends(before, self.typing.table@, results_of(bests));
            }
            return out;
        }
        best[0].result
    }

    /// The applicable candidates, each with its score and substituted result.
    #[verifier::loop_isolation(false)]
    fn applicable(&mut self, candidates: Vec<Signature>, args: &Vec<TypeId>) -> (out: Vec<Applicable>)
        requires
            old(self).wf(),
            ids_below(args@, old(self).n()),
            forall|k: int| 0 <= k < candidates@.len() ==> sig_below(#[trigger] candidates@[k], old(self).n()),
        ensures
            final(self).wf(),
            old(self).n() <= final(self).n(),
            forall|k: int| 0 <= k < out@.len() ==> (#[trigger] out@[k]).result.0 < final(self).n(),
            final(self).signatures == old(self).signatures,
            final(self).program == old(self).program,
            final(self).oracle == old(self).oracle,
            final(self).typing.functions == old(self).typing.functions,
            crate::types::model::diags_extend(old(self).typing.diagnostics@, final(self).typing.diagnostics@),
            crate::types::extends(old(self).typing.table@, final(self).typing.table@),
    {
        let mut out: Vec<Applicable> = Vec::new();
        let mut c: usize = 0;
        while c < candidates.len()
            invariant
                c <= candidates.len(),
                self.wf(),
                old(self).n() <= self.n(),
                ids_below(args@, self.n()),
                forall|k: int| 0 <= k < candidates@.len() ==> sig_below(#[trigger] candidates@[k], self.n()),
                forall|k: int| 0 <= k < out@.len() ==> (#[trigger] out@[k]).result.0 < self.n(),
                self.signatures == old(self).signatures,
                self.program == old(self).program,
                self.oracle == old(self).oracle,
                self.typing.functions == old(self).typing.functions,
                crate::types::model::diags_extend(old(self).typing.diagnostics@, self.typing.diagnostics@),
                crate::types::extends(old(self).typing.table@, self.typing.table@),
            decreases candidates.len() - c,
        {
            let signature = candidates[c].clone();
            assert(sig_below(candidates@[c as int], self.n()));
            if signature.params.len() == args.len() {
                let mut bindings: Vec<(String, TypeId)> = Vec::new();
                let mut score: usize = 0;
                let mut ok = true;
                let mut i: usize = 0;
                while i < args.len()
                    invariant
                        i <= args.len(),
                        signature.params.len() == args.len(),
                        self.wf(),
                        old(self).n() <= self.n(),
                        ids_below(args@, self.n()),
                        sig_below(signature, self.n()),
                        entries_below(bindings@, self.n()),
                        forall|k: int| 0 <= k < candidates@.len() ==> sig_below(#[trigger] candidates@[k], self.n()),
                        forall|k: int| 0 <= k < out@.len() ==> (#[trigger] out@[k]).result.0 < self.n(),
                        self.signatures == old(self).signatures,
                        self.program == old(self).program,
                        self.oracle == old(self).oracle,
                        self.typing.functions == old(self).typing.functions,
                        crate::types::model::diags_extend(old(self).typing.diagnostics@, self.typing.diagnostics@),
                        crate::types::extends(old(self).typing.table@, self.typing.table@),
                    decreases args.len() - i,
                {
                    if !self.match_type(signature.params[i], args[i], &mut bindings, &mut score) {
                        ok = false;
                        break;
                    }
                    i += 1;
                }
                if ok {
                    let result = self.substitute(signature.ret, &bindings);
                    out.push(Applicable { score, signature, result });
                }
            }
            c += 1;
        }
        out
    }

    /// The type of a function named as a value: its one signature as a
    /// function type.
    pub fn infer_function_value(&mut self, name: &str, span: Span) -> (out: TypeId)
        requires
            old(self).wf(),
        ensures
            final(self).wf(),
            old(self).n() <= final(self).n(),
            out.0 < final(self).n(),
            final(self).signatures == old(self).signatures,
            final(self).program == old(self).program,
            final(self).oracle == old(self).oracle,
            final(self).typing.functions == old(self).typing.functions,
            crate::types::model::diags_extend(old(self).typing.diagnostics@, final(self).typing.diagnostics@),
            crate::types::extends(old(self).typing.table@, final(self).typing.table@),
    {
        let candidates = self.candidates(name);
        if candidates.len() == 0 {
            let message = cat(vec!["unknown value `", name, "`"]);
            self.typing.diagnostics.push(Diagnostic::type_error(span, message));
            return self.leaf(Type::Unknown);
        }
        let mut distinct: usize = 1;
        let mut i: usize = 1;
        while i < candidates.len()
            invariant
                1 <= i <= candidates.len(),
                distinct <= i,
            decreases candidates.len() - i,
        {
            if !(ids_equal(&candidates[i].params, &candidates[i - 1].params) && candidates[i].ret.0
                == candidates[i - 1].ret.0) {
                distinct += 1;
            }
            i += 1;
        }
        if distinct != 1 {
            let message = cat(
                vec![
                    "overloaded function `",
                    name,
                    "` cannot be used as a value without an explicit `as Fn<...>`",
                ],
            );
            self.typing.diagnostics.push(Diagnostic::type_error(span, message));
            return self.leaf(Type::Unknown);
        }
        let last = candidates.len() - 1;
        assert(sig_below(candidates@[last as int], self.n()));
        let params = copy_ids(&candidates[last].params);
        let ret = candidates[last].ret;
        let f = Type::Function { params, ret };
        assert(children(f@) == params@.push(ret));
        assert forall|k: int| 0 <= k < children(f@).len() implies (#[trigger] children(f@)[k]).0 < self.n() by {
            if k < params@.len() {
                assert(children(f@)[k] == params@[k]);
            }
        }
        self.typing.table.intern(f)
    }

    /// The result of calling a value of type `callable`.
    pub fn resolve_callable(&mut self, callable: TypeId, args: &Vec<TypeId>, span: Span) -> (out: TypeId)
        requires
            old(self).wf(),
            callable.0 < old(self).n(),
            ids_below(args@, old(self).n()),
        ensures
            final(self).wf(),
            old(self).n() <= final(self).n(),
            out.0 < final(self).n(),
            final(self).signatures == old(self).signatures,
            final(self).program == old(self).program,
            final(self).oracle == old(self).oracle,
            final(self).typing.functions == old(self).typing.functions,
            crate::types::model::diags_extend(old(self).typing.diagnostics@, final(self).typing.diagnostics@),
            crate::types::extends(old(self).typing.table@, final(self).typing.table@),
            ({
                let t = type_at(old(self).typing.table@, callable);
                match t {
                    TypeModel::Function { params, ret } => if params.len() == args@.len() {
                        out == ret
                    } else {
                        final(self).typing.table@[out.0 as int] == TypeModel::Unknown
                            && final(self).typing.diagnostics@.len() == old(self).typing.diagnostics@.len() + 1
                    },
                    TypeModel::Dynamic => final(self).typing.table@[out.0 as int] == TypeModel::Dynamic
                        && final(self).typing.diagnostics@ == old(self).typing.diagnostics@,
                    _ => final(self).typing.table@[out.0 as int] == TypeModel::Unknown
                        && final(self).typing.diagnostics@.len() == old(self).typing.diagnostics@.len() + 1
                        && final(self).typing.diagnostics@.drop_last() == old(self).typing.diagnostics@,
                }
            }),
    {
        let t = self.typing.table.ty(callable);
        let ghost tv = t@;
        match t {
            Type::Function { params, ret } => {
                assert(children(tv) == params@.push(ret));
                assert(children(tv)[params@.len() as int] == ret);
                if params.len() == args.len() {
                    let mut index: usize = 0;
                    while index < args.len()
                        invariant
                            index <= args.len(),
                            params.len() == args.len(),
                            self.wf(),
                            old(self).n() <= self.n(),
                            self.signatures == old(self).signatures,
                            self.program == old(self).program,
                            self.oracle == old(self).oracle,
                            self.typing.functions == old(self).typing.functions,
                            crate::types::model::diags_extend(old(self).typing.diagnostics@, self.typing.diagnostics@),
                            crate::types::extends(old(self).typing.table@, self.typing.table@),
                        decreases args.len() - index,
                    {
                        if !self.assignable(args[index], params[index]) {
                            let position = usize_to_string(index);
                            let shown_actual = self.typing.table.display(args[index]);
                            let shown_expected = self.typing.table.display(params[index]);
                            let message = cat(
                                vec![
                                    "call argument ",
                                    position.as_str(),
                                    " has type `",
                                    shown_actual.as_str(),
                                    "`, expected `",
                                    shown_expected.as_str(),
                                    "`",
                                ],
                            );
                            self.typing.diagnostics.push(Diagnostic::type_error(span, message));
                        }
                        index += 1;
                    }
                    ret
                } else {
                    let expected = usize_to_string(params.len());
                    let got = usize_to_string(args.len());
                    let message = cat(
                        vec!["function expects ", expected.as_str(), " argument(s), got ", got.as_str()],
                    );
                    self.typing.diagnostics.push(Diagnostic::type_error(span, message));
                    self.leaf(Type::Unknown)
                }
            }
            Type::Dynamic => self.leaf(Type::Dynamic),
            Type::Unknown => {
                self.typing.diagnostics.push(
                    Diagnostic::type_error(span, owned("cannot call `Unknown`; narrow it to `Fn<(...) -> ...>` first")),
                );
                self.leaf(Type::Unknown)
            }
            other => {
                let shown = self.typing.table.display(callable);
                let message = cat(vec!["value of type `", shown.as_str(), "` is not callable"]);
                self.typing.diagnostics.push(Diagnostic::type_error(span, message));
                self.leaf(Type::Unknown)
            }
        }
    }
}

} // verus!
