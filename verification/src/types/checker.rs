//! Assignability, signature matching and substitution over interned types.

use vstd::prelude::*;
use crate::rama_ir::Program;
use crate::text::str_eq;
use crate::types::model::{bootstrap_assignable, bootstrap_spec, ids_below, sig_below, Signature, TypeOracle, Typing};
use crate::types::{children, flatten, type_at, Type, TypeId, TypeModel};

verus! {

pub struct Checker<'a, O: TypeOracle> {
    pub program: &'a Program<'a>,
    pub oracle: Option<&'a O>,
    pub typing: Typing,
    /// Every signature in registration order; the candidates for a name are
    /// those registered under it, in that order.
    pub signatures: Vec<Signature>,
}

/// Name-to-type entries where the last entry for a name wins.
pub open spec fn lookup(entries: Seq<(String, TypeId)>, name: Seq<char>) -> Option<TypeId>
    decreases entries.len(),
{
    if entries.len() == 0 {
        None
    } else if entries.last().0@ == name {
        Some(entries.last().1)
    } else {
        lookup(entries.drop_last(), name)
    }
}

/// Every entry's type is below `n`.
pub open spec fn entries_below(entries: Seq<(String, TypeId)>, n: int) -> bool {
    forall|k: int| 0 <= k < entries.len() ==> (#[trigger] entries[k]).1.0 < n
}

/// The entry for `name`, the last one when repeated.
pub fn entry_get(entries: &Vec<(String, TypeId)>, name: &str) -> (out: Option<TypeId>)
    ensures
        out == lookup(entries@, name@),
        out matches Some(id) ==> exists|k: int| 0 <= k < entries@.len() && (#[trigger] entries@[k]).1 == id,
{
    let mut i = entries.len();
    assert(entries@.take(entries.len() as int) =~= entries@);
    while i > 0
        invariant
            i <= entries.len(),
            lookup(entries@, name@) == lookup(entries@.take(i as int), name@),
        decreases i,
    {
        let ghost t = entries@.take(i as int);
        assert(t.drop_last() =~= entries@.take(i - 1));
        assert(t.last() == entries@[i - 1]);
        if str_eq(entries[i - 1].0.as_str(), name) {
            return Some(entries[i - 1].1);
        }
        i -= 1;
    }
    None
}

/// Copies of the entries, in order.
pub fn copy_entries(entries: &Vec<(String, TypeId)>) -> (out: Vec<(String, TypeId)>)
    ensures
        out@ == entries@,
{
    let mut out: Vec<(String, TypeId)> = Vec::new();
    let mut i: usize = 0;
    while i < entries.len()
        invariant
            i <= entries.len(),
            out@ == entries@.take(i as int),
        decreases entries.len() - i,
    {
        out.push((entries[i].0.clone(), entries[i].1));
        assert(out@ =~= entries@.take(i + 1));
        i += 1;
    }
    assert(entries@.take(entries.len() as int) =~= entries@);
    out
}

/// The capability names that `nil` satisfies.
pub open spec fn nil_capability(name: Seq<char>) -> bool {
    name == "Seqable"@ || name == "Reducible"@ || name == "Countable"@
}

fn is_nil_capability(name: &str) -> (r: bool)
    ensures
        r == nil_capability(name@),
{
    str_eq(name, "Seqable") || str_eq(name, "Reducible") || str_eq(name, "Countable")
}

/// Classes whose single type argument is their element type.
pub open spec fn element_class(class: Seq<char>) -> bool {
    class == "java.util.List"@ || class == "java.util.Set"@ || class == "java.util.Collection"@
        || class == "java.lang.Iterable"@ || class == "clojure.lang.ISeq"@ || class == "clojure.lang.LazySeq"@
        || class == "clojure.lang.IReduce"@ || class == "clojure.lang.IReduceInit"@
}

fn is_element_class(class: &str) -> (r: bool)
    ensures
        r == element_class(class@),
{
    str_eq(class, "java.util.List") || str_eq(class, "java.util.Set") || str_eq(class, "java.util.Collection")
        || str_eq(class, "java.lang.Iterable") || str_eq(class, "clojure.lang.ISeq")
        || str_eq(class, "clojure.lang.LazySeq") || str_eq(class, "clojure.lang.IReduce")
        || str_eq(class, "clojure.lang.IReduceInit")
}

/// Clojure sequence classes that are reducible without being `Iterable`.
pub open spec fn clojure_seq_class(class: Seq<char>) -> bool {
    class == "clojure.lang.ISeq"@ || class == "clojure.lang.LazySeq"@ || class == "clojure.lang.IReduce"@
        || class == "clojure.lang.IReduceInit"@
}

fn is_clojure_seq_class(class: &str) -> (r: bool)
    ensures
        r == clojure_seq_class(class@),
{
    str_eq(class, "clojure.lang.ISeq") || str_eq(class, "clojure.lang.LazySeq")
        || str_eq(class, "clojure.lang.IReduce") || str_eq(class, "clojure.lang.IReduceInit")
}

/// The gradual escapes: what is always assignable, and what always accepts.
pub open spec fn accepts_anything(t: TypeModel) -> bool {
    t is Any || t is Dynamic || t is Unknown
}


/// Whether a value of type `a` may stand where `e` is declared, with class
/// assignability given by the built-in facts: anything fits `Any`,
/// `Dynamic` and `Unknown`; `Dynamic` and `Never` fit anything; a union
/// fits when each member does, and fits a union when it fits a member;
/// classes fit by subclassing with invariant arguments; functions by
/// contravariant parameters and covariant result; capabilities as
/// `capability_spec` says.
pub open spec fn assignable_spec(t: Seq<TypeModel>, a: TypeId, e: TypeId) -> bool
    decreases a.0 + e.0, 2nat, 0nat,
{
    if a == e {
        true
    } else if accepts_anything(type_at(t, e)) {
        true
    } else if type_at(t, a) is Dynamic || type_at(t, a) is Never {
        true
    } else if type_at(t, a) is Union {
        all_to(t, type_at(t, a)->Union_0, e, a)
    } else if type_at(t, e) is Union {
        any_of(t, a, type_at(t, e)->Union_0, e)
    } else {
        match (type_at(t, a), type_at(t, e)) {
            (TypeModel::Jvm { class: ac, args: aa }, TypeModel::Jvm { class: ec, args: ea }) => bootstrap_spec(ac, ec)
                && aa.len() == ea.len() && pairs_both(t, aa, ea, a, e),
            (TypeModel::Function { params: ap, ret: ar }, TypeModel::Function { params: ep, ret: er }) => ap.len()
                == ep.len() && pairs_back(t, ap, ep, a, e) && (ar.0 < a.0 && er.0 < e.0 ==> assignable_spec(t, ar, er)),
            (_, TypeModel::Capability { .. }) => capability_spec(t, a, e),
            _ => false,
        }
    }
}

/// Each of `ms` (ids below `a`) is assignable to `e`.
pub open spec fn all_to(t: Seq<TypeModel>, ms: Seq<TypeId>, e: TypeId, a: TypeId) -> bool
    decreases a.0 + e.0, 1nat, ms.len(),
{
    if ms.len() == 0 {
        true
    } else {
        all_to(t, ms.drop_last(), e, a) && (ms.last().0 < a.0 ==> assignable_spec(t, ms.last(), e))
    }
}

/// `a` is assignable to one of `ms` (ids below `e`).
pub open spec fn any_of(t: Seq<TypeModel>, a: TypeId, ms: Seq<TypeId>, e: TypeId) -> bool
    decreases a.0 + e.0, 1nat, ms.len(),
{
    if ms.len() == 0 {
        false
    } else {
        any_of(t, a, ms.drop_last(), e) || (ms.last().0 < e.0 && assignable_spec(t, a, ms.last()))
    }
}

/// Paired arguments are assignable both ways.
pub open spec fn pairs_both(t: Seq<TypeModel>, xs: Seq<TypeId>, ys: Seq<TypeId>, a: TypeId, e: TypeId) -> bool
    decreases a.0 + e.0, 1nat, xs.len(),
{
    if xs.len() == 0 || ys.len() == 0 {
        true
    } else {
        pairs_both(t, xs.drop_last(), ys.drop_last(), a, e) && (xs.last().0 < a.0 && ys.last().0 < e.0 ==> assignable_spec(
            t,
            xs.last(),
            ys.last(),
        ) && assignable_spec(t, ys.last(), xs.last()))
    }
}

/// Each expected parameter is assignable to the paired actual one.
pub open spec fn pairs_back(t: Seq<TypeModel>, xs: Seq<TypeId>, ys: Seq<TypeId>, a: TypeId, e: TypeId) -> bool
    decreases a.0 + e.0, 1nat, xs.len(),
{
    if xs.len() == 0 || ys.len() == 0 {
        true
    } else {
        pairs_back(t, xs.drop_last(), ys.drop_last(), a, e) && (xs.last().0 < a.0 && ys.last().0 < e.0
            ==> assignable_spec(t, ys.last(), xs.last()))
    }
}

/// Each actual argument is assignable to the paired expected one.
pub open spec fn pairs_fwd(t: Seq<TypeModel>, xs: Seq<TypeId>, ys: Seq<TypeId>, a: TypeId, e: TypeId) -> bool
    decreases a.0 + e.0, 0nat, xs.len(),
{
    if xs.len() == 0 || ys.len() == 0 {
        true
    } else {
        pairs_fwd(t, xs.drop_last(), ys.drop_last(), a, e) && (xs.last().0 < a.0 && ys.last().0 < e.0
            ==> assignable_spec(t, xs.last(), ys.last()))
    }
}

/// Each of `ms` (ids below `a`) provides the capability at `e`.
pub open spec fn cap_all(t: Seq<TypeModel>, ms: Seq<TypeId>, a: TypeId, e: TypeId) -> bool
    decreases a.0 + e.0, 0nat, ms.len(),
{
    if ms.len() == 0 {
        true
    } else {
        cap_all(t, ms.drop_last(), a, e) && (ms.last().0 < a.0 ==> capability_spec(t, ms.last(), e))
    }
}

/// Whether type `a` provides the capability declared at `e`: `Dynamic`
/// and `Never` always, `nil` the sequence capabilities, a union when each
/// member does, a capability of the same name with assignable arguments,
/// and the classes that count or yield elements of the declared type.
pub open spec fn capability_spec(t: Seq<TypeModel>, a: TypeId, e: TypeId) -> bool
    decreases a.0 + e.0, 1nat, 0nat,
{
    match type_at(t, e) {
        TypeModel::Capability { name, args } => match type_at(t, a) {
            TypeModel::Dynamic | TypeModel::Never => true,
            TypeModel::Nil => nil_capability(name),
            TypeModel::Union(ms) => cap_all(t, ms, a, e),
            TypeModel::Capability { name: an, args: aa } => an == name && aa.len() == args.len() && pairs_fwd(
                t,
                aa,
                args,
                a,
                e,
            ),
            TypeModel::Jvm { class, args: aa } => if name == "Countable"@ {
                class == "java.lang.String"@ || bootstrap_spec(class, "java.util.Collection"@) || bootstrap_spec(
                    class,
                    "java.util.Map"@,
                ) || bootstrap_spec(class, "clojure.lang.Counted"@)
            } else if (name == "Seqable"@ || name == "Reducible"@) && args.len() == 1 {
                if class == "java.lang.String"@ {
                    match type_at(t, args[0]) {
                        TypeModel::Jvm { class: c, .. } => c == "java.lang.Character"@ || c == "java.lang.Object"@,
                        _ => false,
                    }
                } else if class == "java.util.Map"@ && aa.len() == 2 {
                    match type_at(t, args[0]) {
                        TypeModel::Jvm { class: c, args: ee } => if c == "java.util.Map.Entry"@ && ee.len() == 2 {
                            aa[0].0 < a.0 && aa[1].0 < a.0 && ee[0].0 < e.0 && ee[1].0 < e.0 && assignable_spec(
                                t,
                                aa[0],
                                ee[0],
                            ) && assignable_spec(t, aa[1], ee[1])
                        } else {
                            false
                        },
                        TypeModel::Any | TypeModel::Dynamic | TypeModel::Unknown => true,
                        _ => false,
                    }
                } else if aa.len() == 1 && (bootstrap_spec(class, "java.lang.Iterable"@) || clojure_seq_class(class)) {
                    aa[0].0 < a.0 && args[0].0 < e.0 && assignable_spec(t, aa[0], args[0])
                } else {
                    false
                }
            } else {
                false
            },
            _ => false,
        },
        _ => type_at(t, a) is Dynamic || type_at(t, a) is Never,
    }
}

proof fn lemma_all_to_prefix(t: Seq<TypeModel>, ms: Seq<TypeId>, e: TypeId, a: TypeId, j: int)
    requires
        0 <= j <= ms.len(),
        all_to(t, ms, e, a),
    ensures
        all_to(t, ms.take(j), e, a),
    decreases ms.len(),
{
    if j < ms.len() {
        lemma_all_to_prefix(t, ms.drop_last(), e, a, j);
        assert(ms.drop_last().take(j) =~= ms.take(j));
    } else {
        assert(ms.take(j) =~= ms);
    }
}

proof fn lemma_any_of_prefix(t: Seq<TypeModel>, a: TypeId, ms: Seq<TypeId>, e: TypeId, j: int)
    requires
        0 <= j <= ms.len(),
        any_of(t, a, ms.take(j), e),
    ensures
        any_of(t, a, ms, e),
    decreases ms.len(),
{
    if j < ms.len() {
        assert(ms.drop_last().take(j) =~= ms.take(j));
        lemma_any_of_prefix(t, a, ms.drop_last(), e, j);
    } else {
        assert(ms.take(j) =~= ms);
    }
}

proof fn lemma_pairs_both_prefix(t: Seq<TypeModel>, xs: Seq<TypeId>, ys: Seq<TypeId>, a: TypeId, e: TypeId, j: int)
    requires
        0 <= j <= xs.len(),
        xs.len() == ys.len(),
        pairs_both(t, xs, ys, a, e),
    ensures
        pairs_both(t, xs.take(j), ys.take(j), a, e),
    decreases xs.len(),
{
    if j < xs.len() {
        lemma_pairs_both_prefix(t, xs.drop_last(), ys.drop_last(), a, e, j);
        assert(xs.drop_last().take(j) =~= xs.take(j));
        assert(ys.drop_last().take(j) =~= ys.take(j));
    } else {
        assert(xs.take(j) =~= xs);
        assert(ys.take(j) =~= ys);
    }
}

proof fn lemma_pairs_back_prefix(t: Seq<TypeModel>, xs: Seq<TypeId>, ys: Seq<TypeId>, a: TypeId, e: TypeId, j: int)
    requires
        0 <= j <= xs.len(),
        xs.len() == ys.len(),
        pairs_back(t, xs, ys, a, e),
    ensures
        pairs_back(t, xs.take(j), ys.take(j), a, e),
    decreases xs.len(),
{
    if j < xs.len() {
        lemma_pairs_back_prefix(t, xs.drop_last(), ys.drop_last(), a, e, j);
        assert(xs.drop_last().take(j) =~= xs.take(j));
        assert(ys.drop_last().take(j) =~= ys.take(j));
    } else {
        assert(xs.take(j) =~= xs);
        assert(ys.take(j) =~= ys);
    }
}

proof fn lemma_pairs_fwd_prefix(t: Seq<TypeModel>, xs: Seq<TypeId>, ys: Seq<TypeId>, a: TypeId, e: TypeId, j: int)
    requires
        0 <= j <= xs.len(),
        xs.len() == ys.len(),
        pairs_fwd(t, xs, ys, a, e),
    ensures
        pairs_fwd(t, xs.take(j), ys.take(j), a, e),
    decreases xs.len(),
{
    if j < xs.len() {
        lemma_pairs_fwd_prefix(t, xs.drop_last(), ys.drop_last(), a, e, j);
        assert(xs.drop_last().take(j) =~= xs.take(j));
        assert(ys.drop_last().take(j) =~= ys.take(j));
    } else {
        assert(xs.take(j) =~= xs);
        assert(ys.take(j) =~= ys);
    }
}

proof fn lemma_cap_all_prefix(t: Seq<TypeModel>, ms: Seq<TypeId>, a: TypeId, e: TypeId, j: int)
    requires
        0 <= j <= ms.len(),
        cap_all(t, ms, a, e),
    ensures
        cap_all(t, ms.take(j), a, e),
    decreases ms.len(),
{
    if j < ms.len() {
        lemma_cap_all_prefix(t, ms.drop_last(), a, e, j);
        assert(ms.drop_last().take(j) =~= ms.take(j));
    } else {
        assert(ms.take(j) =~= ms);
    }
}

/// `out` names, in `t`, the type `ty` with the type variables bound in
/// `bindings` replaced (unbound ones by `Unknown`), every compound type
/// rebuilt from its substituted parts.
pub open spec fn substituted(t: Seq<TypeModel>, ty: TypeId, out: TypeId, bindings: Seq<(String, TypeId)>) -> bool
    decreases ty.0,
{
    &&& out.0 < t.len()
    &&& match type_at(t, ty) {
        TypeModel::Var(n) => match lookup(bindings, n) {
            Some(b) => out == b,
            None => t[out.0 as int] == TypeModel::Unknown,
        },
        TypeModel::Jvm { class, args } => t[out.0 as int] matches TypeModel::Jvm { class: c, args: os } && c == class
            && os.len() == args.len() && forall|k: int| 0 <= k < args.len() ==> args[k].0 < ty.0 && substituted(t, #[trigger] args[k], os[k], bindings),
        TypeModel::Union(ms) => exists|os: Seq<TypeId>| os.len() == ms.len()
            && (forall|k: int| 0 <= k < ms.len() ==> ms[k].0 < ty.0 && substituted(t, #[trigger] ms[k], os[k], bindings))
            && crate::types::resolve::union_result(t, os, out),
        TypeModel::Function { params, ret } => t[out.0 as int] matches TypeModel::Function { params: ps, ret: r }
            && ps.len() == params.len() && (forall|k: int| 0 <= k < params.len() ==> params[k].0 < ty.0 && substituted(t, #[trigger] params[k], ps[k], bindings))
            && ret.0 < ty.0 && substituted(t, ret, r, bindings),
        TypeModel::Capability { name, args } => t[out.0 as int] matches TypeModel::Capability { name: n, args: os } && n == name
            && os.len() == args.len() && forall|k: int| 0 <= k < args.len() ==> args[k].0 < ty.0 && substituted(t, #[trigger] args[k], os[k], bindings),
        _ => out == ty,
    }
}

proof fn lemma_substituted_extends(t1: Seq<TypeModel>, t2: Seq<TypeModel>, ty: TypeId, out: TypeId, bindings: Seq<(String, TypeId)>)
    requires
        substituted(t1, ty, out, bindings),
        crate::types::extends(t1, t2),
        ty.0 < t1.len(),
    ensures
        substituted(t2, ty, out, bindings),
    decreases ty.0,
{
    assert(type_at(t2, ty) == type_at(t1, ty));
    assert(t2[out.0 as int] == t1[out.0 as int]);
    match type_at(t1, ty) {
        TypeModel::Jvm { class, args } => {
            let os = t1[out.0 as int]->Jvm_args;
            assert forall|k: int| 0 <= k < args.len() implies args[k].0 < ty.0 && substituted(t2, #[trigger] args[k], os[k], bindings) by {
                lemma_substituted_extends(t1, t2, args[k], os[k], bindings);
            }
        },
        TypeModel::Union(ms) => {
            let os = choose|os: Seq<TypeId>| os.len() == ms.len()
                && (forall|k: int| 0 <= k < ms.len() ==> ms[k].0 < ty.0 && substituted(t1, #[trigger] ms[k], os[k], bindings))
                && crate::types::resolve::union_result(t1, os, out);
            assert forall|k: int| 0 <= k < ms.len() implies ms[k].0 < ty.0 && substituted(t2, #[trigger] ms[k], os[k], bindings) by {
                lemma_substituted_extends(t1, t2, ms[k], os[k], bindings);
            }
            assert forall|k: int| 0 <= k < os.len() implies (#[trigger] os[k]).0 < t1.len() by {
                assert(substituted(t1, ms[k], os[k], bindings));
            }
            crate::types::resolve::lemma_flatten_extends(t1, t2, os);
            if flatten(t1, os).len() > 0 {
                let m = choose|m: Seq<TypeId>| crate::types::ascending(m) && m.to_set() == flatten(t1, os).to_set() && (m.len() == 1 ==> out == m[0])
                    && (m.len() > 1 ==> t1[out.0 as int] == TypeModel::Union(m));
                assert(crate::types::ascending(m) && m.to_set() == flatten(t2, os).to_set() && (m.len() == 1 ==> out == m[0]) && (m.len() > 1
                    ==> t2[out.0 as int] == TypeModel::Union(m)));
            }
            assert(crate::types::resolve::union_result(t2, os, out));
        },
        TypeModel::Function { params, ret } => {
            let ps = t1[out.0 as int]->Function_params;
            let r = t1[out.0 as int]->Function_ret;
            assert forall|k: int| 0 <= k < params.len() implies params[k].0 < ty.0 && substituted(t2, #[trigger] params[k], ps[k], bindings) by {
                lemma_substituted_extends(t1, t2, params[k], ps[k], bindings);
            }
            lemma_substituted_extends(t1, t2, ret, r, bindings);
        },
        TypeModel::Capability { name, args } => {
            let os = t1[out.0 as int]->Capability_args;
            assert forall|k: int| 0 <= k < args.len() implies args[k].0 < ty.0 && substituted(t2, #[trigger] args[k], os[k], bindings) by {
                lemma_substituted_extends(t1, t2, args[k], os[k], bindings);
            }
        },
        _ => {},
    }
}

impl<'a, O: TypeOracle> Checker<'a, O> {
    pub open spec fn n(&self) -> int {
        self.typing.table@.len() as int
    }

    /// Every id the checker holds names a type of its table.
    pub open spec fn wf(&self) -> bool {
        &&& self.typing.wf()
        &&& forall|i: int| 0 <= i < self.signatures@.len() ==> sig_below(#[trigger] self.signatures@[i], self.n())
    }

    /// Whether class `actual` may stand where `expected` is declared: the
    /// oracle's answer when it has one, else the built-in facts.
    pub fn class_assignable(&self, actual: &str, expected: &str) -> (r: bool)
        ensures
            self.oracle is None ==> r == bootstrap_spec(actual@, expected@),
    {
        match self.oracle {
            Some(oracle) => match oracle.is_assignable(actual, expected) {
                Some(answer) => answer,
                None => bootstrap_assignable(actual, expected),
            },
            None => bootstrap_assignable(actual, expected),
        }
    }

    /// Whether a value of type `actual` may stand where `expected` is
    /// declared; without an oracle, exactly `assignable_spec`.
    #[verifier::loop_isolation(false)]
    pub fn assignable(&self, actual: TypeId, expected: TypeId) -> (r: bool)
        ensures
            actual == expected ==> r,
            accepts_anything(type_at(self.typing.table@, expected)) ==> r,
            type_at(self.typing.table@, actual) is Dynamic ==> r,
            type_at(self.typing.table@, actual) is Never ==> r,
            type_at(self.typing.table@, actual) is Unknown && type_at(self.typing.table@, expected) is Jvm ==> !r,
            self.oracle is None ==> r == assignable_spec(self.typing.table@, actual, expected),
        decreases actual.0 + expected.0, 2nat,
    {
        if actual.0 == expected.0 {
            return true;
        }
        proof {
            use_type_invariant(&self.typing.table);
        }
        let ghost t = self.typing.table@;
        let a = self.typing.table.ty(actual);
        let e = self.typing.table.ty(expected);
        let ghost av = a@;
        let ghost ev = e@;
        assert(actual != expected);
        match &e {
            Type::Any | Type::Dynamic | Type::Unknown => return true,
            _ => {},
        }
        match &a {
            Type::Dynamic | Type::Never => return true,
            _ => {},
        }
        if let Type::Union(members) = &a {
            assert(children(av) == members@);
            let mut i: usize = 0;
            while i < members.len()
                invariant
                    i <= members.len(),
                    forall|k: int| 0 <= k < members@.len() ==> (#[trigger] members@[k]).0 < actual.0,
                    self.oracle is None ==> all_to(t, members@.take(i as int), expected, actual),
                decreases members.len() - i,
            {
                let ok = self.assignable(members[i], expected);
                proof {
                    assert(members@.take(i + 1).drop_last() =~= members@.take(i as int));
                    assert(members@.take(i + 1).last() == members@[i as int]);
                }
                if !ok {
                    proof {
                        if self.oracle is None {
                            if all_to(t, members@, expected, actual) {
                                lemma_all_to_prefix(t, members@, expected, actual, i + 1);
                            }
                        }
                    }
                    return false;
                }
                i += 1;
            }
            assert(members@.take(members@.len() as int) =~= members@);
            return true;
        }
        if let Type::Union(members) = &e {
            assert(children(ev) == members@);
            let mut i: usize = 0;
            while i < members.len()
                invariant
                    i <= members.len(),
                    forall|k: int| 0 <= k < members@.len() ==> (#[trigger] members@[k]).0 < expected.0,
                    self.oracle is None ==> !any_of(t, actual, members@.take(i as int), expected),
                decreases members.len() - i,
            {
                let ok = self.assignable(actual, members[i]);
                proof {
                    assert(members@.take(i + 1).drop_last() =~= members@.take(i as int));
                    assert(members@.take(i + 1).last() == members@[i as int]);
                }
                if ok {
                    proof {
                        if self.oracle is None {
                            lemma_any_of_prefix(t, actual, members@, expected, i + 1);
                        }
                    }
                    return true;
                }
                i += 1;
            }
            assert(members@.take(members@.len() as int) =~= members@);
            return false;
        }
        match (&a, &e) {
            (Type::Jvm { class: actual_class, args: actual_args }, Type::Jvm { class: expected_class, args: expected_args }) => {
                assert(children(av) == actual_args@);
                assert(children(ev) == expected_args@);
                if !self.class_assignable(actual_class.as_str(), expected_class.as_str()) {
                    return false;
                }
                if actual_args.len() != expected_args.len() {
                    return false;
                }
                let mut i: usize = 0;
                while i < actual_args.len()
                    invariant
                        i <= actual_args.len(),
                        actual_args.len() == expected_args.len(),
                        forall|k: int| 0 <= k < actual_args@.len() ==> (#[trigger] actual_args@[k]).0 < actual.0,
                        forall|k: int| 0 <= k < expected_args@.len() ==> (#[trigger] expected_args@[k]).0 < expected.0,
                        self.oracle is None ==> pairs_both(
                            t,
                            actual_args@.take(i as int),
                            expected_args@.take(i as int),
                            actual,
                            expected,
                        ),
                    decreases actual_args.len() - i,
                {
                    let ok = self.assignable(actual_args[i], expected_args[i]) && self.assignable(
                        expected_args[i],
                        actual_args[i],
                    );
                    proof {
                        assert(actual_args@.take(i + 1).drop_last() =~= actual_args@.take(i as int));
                        assert(expected_args@.take(i + 1).drop_last() =~= expected_args@.take(i as int));
                        assert(actual_args@.take(i + 1).last() == actual_args@[i as int]);
                        assert(expected_args@.take(i + 1).last() == expected_args@[i as int]);
                    }
                    if !ok {
                        proof {
                            if self.oracle is None && pairs_both(t, actual_args@, expected_args@, actual, expected) {
                                lemma_pairs_both_prefix(t, actual_args@, expected_args@, actual, expected, i + 1);
                            }
                        }
                        return false;
                    }
                    i += 1;
                }
                assert(actual_args@.take(actual_args@.len() as int) =~= actual_args@);
                assert(expected_args@.take(expected_args@.len() as int) =~= expected_args@);
                true
            }
            (Type::Function { params: actual_params, ret: actual_ret }, Type::Function { params: expected_params, ret: expected_ret }) => {
                assert(children(av) == actual_params@.push(*actual_ret));
                assert(children(ev) == expected_params@.push(*expected_ret));
                assert(children(av)[actual_params@.len() as int] == *actual_ret);
                assert(children(ev)[expected_params@.len() as int] == *expected_ret);
                assert forall|k: int| 0 <= k < actual_params@.len() implies (#[trigger] actual_params@[k]).0 < actual.0 by {
                    assert(children(av)[k] == actual_params@[k]);
                }
                assert forall|k: int| 0 <= k < expected_params@.len() implies (#[trigger] expected_params@[k]).0 < expected.0 by {
                    assert(children(ev)[k] == expected_params@[k]);
                }
                if actual_params.len() != expected_params.len() {
                    return false;
                }
                let mut i: usize = 0;
                while i < actual_params.len()
                    invariant
                        i <= actual_params.len(),
                        actual_params.len() == expected_params.len(),
                        forall|k: int| 0 <= k < actual_params@.len() ==> (#[trigger] actual_params@[k]).0 < actual.0,
                        forall|k: int| 0 <= k < expected_params@.len() ==> (#[trigger] expected_params@[k]).0 < expected.0,
                        self.oracle is None ==> pairs_back(
                            t,
                            actual_params@.take(i as int),
                            expected_params@.take(i as int),
                            actual,
                            expected,
                        ),
                    decreases actual_params.len() - i,
                {
                    let ok = self.assignable(expected_params[i], actual_params[i]);
                    proof {
                        assert(actual_params@.take(i + 1).drop_last() =~= actual_params@.take(i as int));
                        assert(expected_params@.take(i + 1).drop_last() =~= expected_params@.take(i as int));
                        assert(actual_params@.take(i + 1).last() == actual_params@[i as int]);
                        assert(expected_params@.take(i + 1).last() == expected_params@[i as int]);
                    }
                    if !ok {
                        proof {
                            if self.oracle is None && pairs_back(t, actual_params@, expected_params@, actual, expected) {
                                lemma_pairs_back_prefix(t, actual_params@, expected_params@, actual, expected, i + 1);
                            }
                        }
                        return false;
                    }
                    i += 1;
                }
                assert(actual_params@.take(actual_params@.len() as int) =~= actual_params@);
                assert(expected_params@.take(expected_params@.len() as int) =~= expected_params@);
                self.assignable(*actual_ret, *expected_ret)
            }
            (_, Type::Capability { .. }) => self.capability_assignable(actual, expected),
            _ => false,
        }
    }

    /// Whether type `actual` provides the capability declared at
    /// `expected`; without an oracle, exactly `capability_spec`.
    #[verifier::loop_isolation(false)]
    pub fn capability_assignable(&self, actual: TypeId, expected: TypeId) -> (r: bool)
        ensures
            type_at(self.typing.table@, actual) is Dynamic ==> r,
            type_at(self.typing.table@, actual) is Never ==> r,
            self.oracle is None ==> r == capability_spec(self.typing.table@, actual, expected),
        decreases actual.0 + expected.0, 1nat,
    {
        let ghost t = self.typing.table@;
        let e = self.typing.table.ty(expected);
        let ghost ev = e@;
        let (name, args) = match e {
            Type::Capability { name, args } => (name, args),
            _ => {
                let a = self.typing.table.ty(actual);
                return match a {
                    Type::Dynamic | Type::Never => true,
                    _ => false,
                };
            }
        };
        assert(children(ev) == args@);
        let a = self.typing.table.ty(actual);
        let ghost av = a@;
        match a {
            Type::Dynamic | Type::Never => true,
            Type::Nil => is_nil_capability(name.as_str()),
            Type::Union(members) => {
                assert(children(av) == members@);
                let mut i: usize = 0;
                while i < members.len()
                    invariant
                        i <= members.len(),
                        forall|k: int| 0 <= k < members@.len() ==> (#[trigger] members@[k]).0 < actual.0,
                        self.oracle is None ==> cap_all(t, members@.take(i as int), actual, expected),
                    decreases members.len() - i,
                {
                    let ok = self.capability_assignable(members[i], expected);
                    proof {
                        assert(members@.take(i + 1).drop_last() =~= members@.take(i as int));
                        assert(members@.take(i + 1).last() == members@[i as int]);
                    }
                    if !ok {
                        proof {
                            if self.oracle is None && cap_all(t, members@, actual, expected) {
                                lemma_cap_all_prefix(t, members@, actual, expected, i + 1);
                            }
                        }
                        return false;
                    }
                    i += 1;
                }
                assert(members@.take(members@.len() as int) =~= members@);
                true
            }
            Type::Capability { name: actual_name, args: actual_args } => {
                assert(children(av) == actual_args@);
                if !str_eq(actual_name.as_str(), name.as_str()) || actual_args.len() != args.len() {
                    return false;
                }
                let mut i: usize = 0;
                while i < actual_args.len()
                    invariant
                        i <= actual_args.len(),
                        actual_args.len() == args.len(),
                        forall|k: int| 0 <= k < actual_args@.len() ==> (#[trigger] actual_args@[k]).0 < actual.0,
                        forall|k: int| 0 <= k < args@.len() ==> (#[trigger] args@[k]).0 < expected.0,
                        self.oracle is None ==> pairs_fwd(t, actual_args@.take(i as int), args@.take(i as int), actual, expected),
                    decreases actual_args.len() - i,
                {
                    let ok = self.assignable(actual_args[i], args[i]);
                    proof {
                        assert(actual_args@.take(i + 1).drop_last() =~= actual_args@.take(i as int));
                        assert(args@.take(i + 1).drop_last() =~= args@.take(i as int));
                        assert(actual_args@.take(i + 1).last() == actual_args@[i as int]);
                        assert(args@.take(i + 1).last() == args@[i as int]);
                    }
                    if !ok {
                        proof {
                            if self.oracle is None && pairs_fwd(t, actual_args@, args@, actual, expected) {
                                lemma_pairs_fwd_prefix(t, actual_args@, args@, actual, expected, i + 1);
                            }
                        }
                        return false;
                    }
                    i += 1;
                }
                assert(actual_args@.take(actual_args@.len() as int) =~= actual_args@);
                assert(args@.take(args@.len() as int) =~= args@);
                true
            }
            Type::Jvm { class, args: actual_args } => {
                assert(children(av) == actual_args@);
                if str_eq(name.as_str(), "Countable") {
                    str_eq(class.as_str(), "java.lang.String") || self.class_assignable(class.as_str(), "java.util.Collection")
                        || self.class_assignable(class.as_str(), "java.util.Map")
                        || self.class_assignable(class.as_str(), "clojure.lang.Counted")
                } else if (str_eq(name.as_str(), "Seqable") || str_eq(name.as_str(), "Reducible")) && args.len() == 1 {
                    assert(args@[0].0 < expected.0);
                    if str_eq(class.as_str(), "java.lang.String") {
                        match self.typing.table.ty(args[0]) {
                            Type::Jvm { class: element, .. } => str_eq(element.as_str(), "java.lang.Character")
                                || str_eq(element.as_str(), "java.lang.Object"),
                            _ => false,
                        }
                    } else if str_eq(class.as_str(), "java.util.Map") && actual_args.len() == 2 {
                        let entry = self.typing.table.ty(args[0]);
                        let ghost entry_v = entry@;
                        match entry {
                            Type::Jvm { class: entry_class, args: expected_entry } => {
                                assert(children(entry_v) == expected_entry@);
                                if str_eq(entry_class.as_str(), "java.util.Map.Entry") && expected_entry.len() == 2 {
                                    assert(expected_entry@[0].0 < args@[0].0);
                                    assert(expected_entry@[1].0 < args@[0].0);
                                    assert(actual_args@[0].0 < actual.0);
                                    assert(actual_args@[1].0 < actual.0);
                                    self.assignable(actual_args[0], expected_entry[0]) && self.assignable(
                                        actual_args[1],
                                        expected_entry[1],
                                    )
                                } else {
                                    false
                                }
                            }
                            Type::Any | Type::Dynamic | Type::Unknown => true,
                            _ => false,
                        }
                    } else if actual_args.len() == 1 && (self.class_assignable(class.as_str(), "java.lang.Iterable")
                        || is_clojure_seq_class(class.as_str())) {
                        assert(actual_args@[0].0 < actual.0);
                        self.assignable(actual_args[0], args[0])
                    } else {
                        false
                    }
                } else {
                    false
                }
            }
            _ => false,
        }
    }
}

impl<'a, O: TypeOracle> Checker<'a, O> {
    /// The smaller of two types when one is assignable to the other, else
    /// their union.
    pub fn join(&mut self, left: TypeId, right: TypeId) -> (out: TypeId)
        requires
            old(self).wf(),
            left.0 < old(self).n(),
            right.0 < old(self).n(),
        ensures
            final(self).wf(),
            old(self).n() <= final(self).n(),
            out.0 < final(self).n(),
            left == right ==> out == right,
            old(self).oracle is None && assignable_spec(old(self).typing.table@, left, right) ==> out == right,
            old(self).oracle is None && !assignable_spec(old(self).typing.table@, left, right) && assignable_spec(
                old(self).typing.table@,
                right,
                left,
            ) ==> out == left,
            old(self).oracle is None && !assignable_spec(old(self).typing.table@, left, right) && !assignable_spec(
                old(self).typing.table@,
                right,
                left,
            ) ==> exists|ms: Seq<TypeId>|
                crate::types::ascending(ms) && ms.to_set() == crate::types::flatten(old(self).typing.table@, seq![left, right]).to_set()
                    && (ms.len() == 1 ==> out == ms[0]) && (ms.len() > 1 ==> final(self).typing.table@[out.0 as int]
                    == TypeModel::Union(ms)),
            final(self).signatures == old(self).signatures,
            final(self).program == old(self).program,
            final(self).oracle == old(self).oracle,
            final(self).typing.functions == old(self).typing.functions,
            crate::types::model::diags_extend(old(self).typing.diagnostics@, final(self).typing.diagnostics@),
            crate::types::extends(old(self).typing.table@, final(self).typing.table@),
    {
        if self.assignable(left, right) {
            right
        } else if self.assignable(right, left) {
            left
        } else {
            let members = vec![left, right];
            assert(members@ =~= seq![left, right]);
            self.typing.table.union(members)
        }
    }

    /// The class a built-in alias names, as a type without arguments.
    pub fn jvm_alias(&mut self, alias: &str) -> (out: TypeId)
        requires
            old(self).wf(),
        ensures
            final(self).wf(),
            old(self).n() <= final(self).n(),
            out.0 < final(self).n(),
            final(self).signatures == old(self).signatures,
            final(self).program == old(self).program,
            final(self).oracle == old(self).oracle,
            final(self).typing.functions == old(self).typing.functions,
            crate::types::model::diags_extend(old(self).typing.diagnostics@, final(self).typing.diagnostics@),
            crate::types::extends(old(self).typing.table@, final(self).typing.table@),
            final(self).typing.table@[out.0 as int] == (TypeModel::Jvm { class: crate::contracts::class_of(alias@), args: Seq::empty() }),
    {
        let class = crate::contracts::resolve_class(alias);
        self.typing.table.jvm(class, Vec::new())
    }

    /// Interns a type without children.
    pub fn leaf(&mut self, ty: Type) -> (out: TypeId)
        requires
            old(self).wf(),
            children(ty@).len() == 0,
        ensures
            final(self).wf(),
            old(self).n() <= final(self).n(),
            out.0 < final(self).n(),
            final(self).typing.table@[out.0 as int] == ty@,
            crate::types::extends(old(self).typing.table@, final(self).typing.table@),
            final(self).signatures == old(self).signatures,
            final(self).program == old(self).program,
            final(self).oracle == old(self).oracle,
            final(self).typing.functions == old(self).typing.functions,
            crate::types::model::diags_extend(old(self).typing.diagnostics@, final(self).typing.diagnostics@),
            final(self).typing.diagnostics == old(self).typing.diagnostics,
    {
        self.typing.table.intern(ty)
    }

    /// Matches `actual` against the signature parameter `expected`, binding
    /// type variables in `bindings` and adding the specificity of the match
    /// to `score`.
    #[verifier::loop_isolation(false)]
    pub fn match_type(
        &mut self,
        expected: TypeId,
        actual: TypeId,
        bindings: &mut Vec<(String, TypeId)>,
        score: &mut usize,
    ) -> (r: bool)
        requires
            old(self).wf(),
            actual.0 < old(self).n(),
            entries_below(old(bindings)@, old(self).n()),
        ensures
            final(self).wf(),
            old(self).n() <= final(self).n(),
            entries_below(final(bindings)@, final(self).n()),
            final(self).signatures == old(self).signatures,
            final(self).program == old(self).program,
            final(self).oracle == old(self).oracle,
            final(self).typing.functions == old(self).typing.functions,
            crate::types::model::diags_extend(old(self).typing.diagnostics@, final(self).typing.diagnostics@),
            crate::types::extends(old(self).typing.table@, final(self).typing.table@),
            type_at(old(self).typing.table@, expected) matches TypeModel::Var(name) ==> match lookup(
                old(bindings)@,
                name,
            ) {
                None => r && final(bindings)@.len() == old(bindings)@.len() + 1 && final(bindings)@.last().0@ == name
                    && final(bindings)@.last().1 == actual && final(self).typing.table@ == old(self).typing.table@,
                Some(bound) => final(bindings)@ == old(bindings)@ && final(self).typing.table@ == old(self).typing.table@
                    && (old(self).oracle is None ==> r == (assignable_spec(old(self).typing.table@, actual, bound)
                    && assignable_spec(old(self).typing.table@, bound, actual))),
            },
            type_at(old(self).typing.table@, expected) is Any ==> r,
        decreases expected.0, actual.0, 1nat,
    {
        let e = self.typing.table.ty(expected);
        let ghost ev = e@;
        match e {
            Type::Var(name) => match entry_get(bindings, name.as_str()) {
                Some(bound) => self.assignable(actual, bound) && self.assignable(bound, actual),
                None => {
                    bindings.push((name, actual));
                    *score = (*score).saturating_add(2);
                    true
                }
            },
            Type::Any => true,
            Type::Dynamic | Type::Unknown => {
                *score = (*score).saturating_add(1);
                true
            }
            Type::Union(members) => {
                assert(children(ev) == members@);
                let a = self.typing.table.ty(actual);
                let ghost av = a@;
                if let Type::Union(actual_members) = a {
                    assert(children(av) == actual_members@);
                    let mut i: usize = 0;
                    while i < actual_members.len()
                        invariant
                            i <= actual_members.len(),
                            forall|k: int| 0 <= k < actual_members@.len() ==> (#[trigger] actual_members@[k]).0 < actual.0,
                            forall|k: int| 0 <= k < members@.len() ==> (#[trigger] members@[k]).0 < expected.0,
                            actual.0 < self.n(),
                            self.wf(),
                            old(self).n() <= self.n(),
                            entries_below(bindings@, self.n()),
                            self.signatures == old(self).signatures,
                            self.program == old(self).program,
                            self.oracle == old(self).oracle,
                            self.typing.functions == old(self).typing.functions,
                            crate::types::model::diags_extend(old(self).typing.diagnostics@, self.typing.diagnostics@),
                            crate::types::extends(old(self).typing.table@, self.typing.table@),
                        decreases actual_members.len() - i,
                    {
                        let actual_member = actual_members[i];
                        let mut found = false;
                        let mut j: usize = 0;
                        while j < members.len() && !found
                            invariant
                                j <= members.len(),
                                actual_member.0 < actual.0,
                                forall|k: int| 0 <= k < members@.len() ==> (#[trigger] members@[k]).0 < expected.0,
                                actual.0 < self.n(),
                                self.wf(),
                                old(self).n() <= self.n(),
                                entries_below(bindings@, self.n()),
                                self.signatures == old(self).signatures,
                                self.program == old(self).program,
                                self.oracle == old(self).oracle,
                                self.typing.functions == old(self).typing.functions,
                                crate::types::model::diags_extend(old(self).typing.diagnostics@, self.typing.diagnostics@),
                                crate::types::extends(old(self).typing.table@, self.typing.table@),
                            decreases members.len() - j,
                        {
                            found = self.match_type(members[j], actual_member, bindings, score);
                            j += 1;
                        }
                        if !found {
                            return false;
                        }
                        i += 1;
                    }
                    true
                } else {
                    let mut i: usize = 0;
                    while i < members.len()
                        invariant
                            i <= members.len(),
                            forall|k: int| 0 <= k < members@.len() ==> (#[trigger] members@[k]).0 < expected.0,
                            actual.0 < self.n(),
                            self.wf(),
                            old(self).n() <= self.n(),
                            entries_below(bindings@, self.n()),
                            self.signatures == old(self).signatures,
                            self.program == old(self).program,
                            self.oracle == old(self).oracle,
                            self.typing.functions == old(self).typing.functions,
                            crate::types::model::diags_extend(old(self).typing.diagnostics@, self.typing.diagnostics@),
                            crate::types::extends(old(self).typing.table@, self.typing.table@),
                        decreases members.len() - i,
                    {
                        if self.match_type(members[i], actual, bindings, score) {
                            return true;
                        }
                        i += 1;
                    }
                    false
                }
            }
            Type::Function { params: expected_params, ret: expected_ret } => {
                assert(children(ev) == expected_params@.push(expected_ret));
                assert(children(ev)[expected_params@.len() as int] == expected_ret);
                assert forall|k: int| 0 <= k < expected_params@.len() implies (#[trigger] expected_params@[k]).0 < expected.0 by {
                    assert(children(ev)[k] == expected_params@[k]);
                }
                let a = self.typing.table.ty(actual);
                let ghost av = a@;
                match a {
                    Type::Function { params: actual_params, ret: actual_ret } => {
                        if expected_params.len() != actual_params.len() {
                            return false;
                        }
                        assert(children(av) == actual_params@.push(actual_ret));
                        assert(children(av)[actual_params@.len() as int] == actual_ret);
                        assert forall|k: int| 0 <= k < actual_params@.len() implies (#[trigger] actual_params@[k]).0 < actual.0 by {
                            assert(children(av)[k] == actual_params@[k]);
                        }
                        *score = (*score).saturating_add(4);
                        let mut i: usize = 0;
                        while i < expected_params.len()
                            invariant
                                i <= expected_params.len(),
                                expected_params.len() == actual_params.len(),
                                forall|k: int| 0 <= k < expected_params@.len() ==> (#[trigger] expected_params@[k]).0 < expected.0,
                                forall|k: int| 0 <= k < actual_params@.len() ==> (#[trigger] actual_params@[k]).0 < actual.0,
                                actual.0 < self.n(),
                                self.wf(),
                                old(self).n() <= self.n(),
                                entries_below(bindings@, self.n()),
                                self.signatures == old(self).signatures,
                                self.program == old(self).program,
                                self.oracle == old(self).oracle,
                                self.typing.functions == old(self).typing.functions,
                                crate::types::model::diags_extend(old(self).typing.diagnostics@, self.typing.diagnostics@),
                                crate::types::extends(old(self).typing.table@, self.typing.table@),
                            decreases expected_params.len() - i,
                        {
                            if !self.match_type(expected_params[i], actual_params[i], bindings, score) {
                                return false;
                            }
                            i += 1;
                        }
                        self.match_type(expected_ret, actual_ret, bindings, score)
                    }
                    Type::Dynamic => true,
                    _ => false,
                }
            }
            Type::Capability { name, args } => {
                assert(children(ev) == args@);
                self.match_capability(name.as_str(), &args, Ghost(expected), actual, bindings, score)
            }
            Type::Jvm { class, args: expected_args } => {
                assert(children(ev) == expected_args@);
                let a = self.typing.table.ty(actual);
                let ghost av = a@;
                match a {
                    Type::Jvm { class: actual_class, args: actual_args } => {
                        if !(self.class_assignable(actual_class.as_str(), class.as_str())
                            && expected_args.len() == actual_args.len()) {
                            return false;
                        }
                        assert(children(av) == actual_args@);
                        let bonus: usize = if str_eq(actual_class.as_str(), class.as_str()) { 5 } else { 3 };
                        *score = (*score).saturating_add(bonus);
                        let mut i: usize = 0;
                        while i < expected_args.len()
                            invariant
                                i <= expected_args.len(),
                                expected_args.len() == actual_args.len(),
                                forall|k: int| 0 <= k < expected_args@.len() ==> (#[trigger] expected_args@[k]).0 < expected.0,
                                forall|k: int| 0 <= k < actual_args@.len() ==> (#[trigger] actual_args@[k]).0 < actual.0,
                                actual.0 < self.n(),
                                self.wf(),
                                old(self).n() <= self.n(),
                                entries_below(bindings@, self.n()),
                                self.signatures == old(self).signatures,
                                self.program == old(self).program,
                                self.oracle == old(self).oracle,
                                self.typing.functions == old(self).typing.functions,
                                crate::types::model::diags_extend(old(self).typing.diagnostics@, self.typing.diagnostics@),
                                crate::types::extends(old(self).typing.table@, self.typing.table@),
                            decreases expected_args.len() - i,
                        {
                            if !self.match_type(expected_args[i], actual_args[i], bindings, score) {
                                return false;
                            }
                            i += 1;
                        }
                        true
                    }
                    Type::Dynamic => true,
                    _ => false,
                }
            }
            _ => self.assignable(actual, expected),
        }
    }

    /// Matches `actual` against the capability `name` with `expected_args`,
    /// the arguments of the capability type `expected`.
    #[verifier::loop_isolation(false)]
    pub fn match_capability(
        &mut self,
        name: &str,
        expected_args: &Vec<TypeId>,
        expected: Ghost<TypeId>,
        actual: TypeId,
        bindings: &mut Vec<(String, TypeId)>,
        score: &mut usize,
    ) -> (r: bool)
        requires
            old(self).wf(),
            actual.0 < old(self).n(),
            entries_below(old(bindings)@, old(self).n()),
            ids_below(expected_args@, expected@.0 as int),
        ensures
            final(self).wf(),
            old(self).n() <= final(self).n(),
            entries_below(final(bindings)@, final(self).n()),
            final(self).signatures == old(self).signatures,
            final(self).program == old(self).program,
            final(self).oracle == old(self).oracle,
            final(self).typing.functions == old(self).typing.functions,
            crate::types::model::diags_extend(old(self).typing.diagnostics@, final(self).typing.diagnostics@),
            crate::types::extends(old(self).typing.table@, final(self).typing.table@),
        decreases expected@.0, actual.0, 0nat,
    {
        let a = self.typing.table.ty(actual);
        let ghost av = a@;
        match a {
            Type::Dynamic => true,
            Type::Unknown => false,
            Type::Nil => is_nil_capability(name),
            Type::Union(members) => {
                assert(children(av) == members@);
                let mut i: usize = 0;
                while i < members.len()
                    invariant
                        i <= members.len(),
                        forall|k: int| 0 <= k < members@.len() ==> (#[trigger] members@[k]).0 < actual.0,
                        actual.0 < self.n(),
                        self.wf(),
                        old(self).n() <= self.n(),
                        entries_below(bindings@, self.n()),
                        self.signatures == old(self).signatures,
                        self.program == old(self).program,
                        self.oracle == old(self).oracle,
                        self.typing.functions == old(self).typing.functions,
                        crate::types::model::diags_extend(old(self).typing.diagnostics@, self.typing.diagnostics@),
                        crate::types::extends(old(self).typing.table@, self.typing.table@),
                    decreases members.len() - i,
                {
                    if !self.match_capability(name, expected_args, expected, members[i], bindings, score) {
                        return false;
                    }
                    i += 1;
                }
                true
            }
            Type::Capability { name: actual_name, args: actual_args } => {
                if !(str_eq(actual_name.as_str(), name) && actual_args.len() == expected_args.len()) {
                    return false;
                }
                assert(children(av) == actual_args@);
                let mut i: usize = 0;
                while i < expected_args.len()
                    invariant
                        i <= expected_args.len(),
                        expected_args.len() == actual_args.len(),
                        forall|k: int| 0 <= k < actual_args@.len() ==> (#[trigger] actual_args@[k]).0 < actual.0,
                        actual.0 < self.n(),
                        self.wf(),
                        old(self).n() <= self.n(),
                        entries_below(bindings@, self.n()),
                        self.signatures == old(self).signatures,
                        self.program == old(self).program,
                        self.oracle == old(self).oracle,
                        self.typing.functions == old(self).typing.functions,
                        crate::types::model::diags_extend(old(self).typing.diagnostics@, self.typing.diagnostics@),
                        crate::types::extends(old(self).typing.table@, self.typing.table@),
                    decreases expected_args.len() - i,
                {
                    assert(expected_args@[i as int].0 < expected@.0);
                    if !self.match_type(expected_args[i], actual_args[i], bindings, score) {
                        return false;
                    }
                    i += 1;
                }
                true
            }
            Type::Jvm { class, args } => {
                assert(children(av) == args@);
                if str_eq(name, "Countable") {
                    str_eq(class.as_str(), "java.lang.String") || self.class_assignable(class.as_str(), "java.util.Collection")
                        || self.class_assignable(class.as_str(), "java.util.Map")
                        || self.class_assignable(class.as_str(), "clojure.lang.Counted")
                        || (args.len() != 0 && str_eq(class.as_str(), "java.util.Map"))
                } else if (str_eq(name, "Seqable") || str_eq(name, "Reducible")) && expected_args.len() == 1 {
                    let element: Option<TypeId> = if str_eq(class.as_str(), "java.lang.String") {
                        Some(self.typing.table.jvm(crate::text::owned("java.lang.Character"), Vec::new()))
                    } else if str_eq(class.as_str(), "java.util.Map") && args.len() == 2 {
                        let entry_args = crate::types::copy_ids(&args);
                        Some(self.typing.table.jvm(crate::text::owned("java.util.Map.Entry"), entry_args))
                    } else if is_element_class(class.as_str()) && args.len() == 1 {
                        Some(args[0])
                    } else {
                        None
                    };
                    match element {
                        Some(element) => {
                            *score = (*score).saturating_add(2);
                            assert(expected_args@[0].0 < expected@.0);
                            self.match_type(expected_args[0], element, bindings, score)
                        }
                        None => false,
                    }
                } else {
                    false
                }
            }
            _ => false,
        }
    }

    /// `ty` with each bound type variable replaced by its binding; unbound
    /// variables become `Unknown`.
    #[verifier::loop_isolation(false)]
    pub fn substitute(&mut self, ty: TypeId, bindings: &Vec<(String, TypeId)>) -> (out: TypeId)
        requires
            old(self).wf(),
            ty.0 < old(self).n(),
            entries_below(bindings@, old(self).n()),
        ensures
            final(self).wf(),
            old(self).n() <= final(self).n(),
            out.0 < final(self).n(),
            final(self).signatures == old(self).signatures,
            final(self).program == old(self).program,
            final(self).oracle == old(self).oracle,
            final(self).typing.functions == old(self).typing.functions,
            crate::types::model::diags_extend(old(self).typing.diagnostics@, final(self).typing.diagnostics@),
            crate::types::extends(old(self).typing.table@, final(self).typing.table@),
            substituted(final(self).typing.table@, ty, out, bindings@),
        decreases ty.0,
    {
        let ghost t0 = self.typing.table@;
        let t = self.typing.table.ty(ty);
        let ghost tv = t@;
        match t {
            Type::Var(name) => match entry_get(bindings, name.as_str()) {
                Some(bound) => {
                    proof {
                        let k = choose|k: int| 0 <= k < bindings@.len() && (#[trigger] bindings@[k]).1 == bound;
                        assert(entries_below(bindings@, self.n()));
                        assert(bindings@[k].1.0 < self.n());
                    }
                    bound
                },
                None => self.leaf(Type::Unknown),
            },
            Type::Jvm { class, args } => {
                assert(children(tv) == args@);
                let ghost a = args@;
                let out_args = self.substitute_all(&args, bindings, Ghost(ty));
                let ghost mid = self.typing.table@;
                let ghost os = out_args@;
                let out = self.typing.table.jvm(class, out_args);
                proof {
                    assert forall|k: int| 0 <= k < a.len() implies a[k].0 < ty.0 && substituted(self.typing.table@, #[trigger] a[k], os[k], bindings@) by {
                        lemma_substituted_extends(mid, self.typing.table@, a[k], os[k], bindings@);
                    }
                }
                out
            }
            Type::Union(members) => {
                assert(children(tv) == members@);
                let ghost a = members@;
                let out_members = self.substitute_all(&members, bindings, Ghost(ty));
                let ghost mid = self.typing.table@;
                let ghost os = out_members@;
                let out = self.typing.table.union(out_members);
                proof {
                    assert forall|k: int| 0 <= k < a.len() implies a[k].0 < ty.0 && substituted(self.typing.table@, #[trigger] a[k], os[k], bindings@) by {
                        lemma_substituted_extends(mid, self.typing.table@, a[k], os[k], bindings@);
                    }
                    crate::types::resolve::lemma_flatten_extends(mid, self.typing.table@, os);
                    assert(crate::types::resolve::union_result(self.typing.table@, os, out));
                }
                out
            }
            Type::Function { params, ret } => {
                assert(children(tv) == params@.push(ret));
                assert(children(tv)[params@.len() as int] == ret);
                assert forall|k: int| 0 <= k < params@.len() implies (#[trigger] params@[k]).0 < ty.0 by {
                    assert(children(tv)[k] == params@[k]);
                }
                let ghost a = params@;
                let out_params = self.substitute_all(&params, bindings, Ghost(ty));
                let ghost mid1 = self.typing.table@;
                let out_ret = self.substitute(ret, bindings);
                let ghost mid2 = self.typing.table@;
                let ghost ps = out_params@;
                let f = Type::Function { params: out_params, ret: out_ret };
                assert(children(f@) == ps.push(out_ret));
                assert forall|k: int| 0 <= k < children(f@).len() implies (#[trigger] children(f@)[k]).0 < self.n() by {
                    if k < ps.len() {
                        assert(children(f@)[k] == ps[k]);
                    }
                }
                let out = self.typing.table.intern(f);
                proof {
                    assert forall|k: int| 0 <= k < a.len() implies a[k].0 < ty.0 && substituted(self.typing.table@, #[trigger] a[k], ps[k], bindings@) by {
                        lemma_substituted_extends(mid1, mid2, a[k], ps[k], bindings@);
                        lemma_substituted_extends(mid2, self.typing.table@, a[k], ps[k], bindings@);
                    }
                    lemma_substituted_extends(mid2, self.typing.table@, ret, out_ret, bindings@);
                }
                out
            }
            Type::Capability { name, args } => {
                assert(children(tv) == args@);
                let ghost a = args@;
                let ghost nm = name@;
                let out_args = self.substitute_all(&args, bindings, Ghost(ty));
                let ghost mid = self.typing.table@;
                let ghost os = out_args@;
                let out = self.typing.table.intern(Type::Capability { name, args: out_args });
                proof {
                    assert forall|k: int| 0 <= k < a.len() implies a[k].0 < ty.0 && substituted(self.typing.table@, #[trigger] a[k], os[k], bindings@) by {
                        lemma_substituted_extends(mid, self.typing.table@, a[k], os[k], bindings@);
                    }
                }
                out
            }
            _ => ty,
        }
    }

    #[verifier::loop_isolation(false)]
    fn substitute_all(&mut self, ids: &Vec<TypeId>, bindings: &Vec<(String, TypeId)>, parent: Ghost<TypeId>) -> (out: Vec<TypeId>)
        requires
            old(self).wf(),
            ids_below(ids@, parent@.0 as int),
            parent@.0 < old(self).n(),
            entries_below(bindings@, old(self).n()),
        ensures
            final(self).wf(),
            old(self).n() <= final(self).n(),
            ids_below(out@, final(self).n()),
            out@.len() == ids@.len(),
            final(self).signatures == old(self).signatures,
            final(self).program == old(self).program,
            final(self).oracle == old(self).oracle,
            final(self).typing.functions == old(self).typing.functions,
            crate::types::model::diags_extend(old(self).typing.diagnostics@, final(self).typing.diagnostics@),
            crate::types::extends(old(self).typing.table@, final(self).typing.table@),
            forall|k: int| 0 <= k < ids@.len() ==> substituted(final(self).typing.table@, #[trigger] ids@[k], out@[k], bindings@),
        decreases parent@.0, 0nat,
    {
        let mut out: Vec<TypeId> = Vec::new();
        let mut i: usize = 0;
        while i < ids.len()
            invariant
                crate::types::extends(old(self).typing.table@, self.typing.table@),
                forall|k: int| 0 <= k < i ==> substituted(self.typing.table@, #[trigger] ids@[k], out@[k], bindings@),
                i <= ids.len(),
                out@.len() == i,
                ids_below(ids@, parent@.0 as int),
                parent@.0 < self.n(),
                self.wf(),
                old(self).n() <= self.n(),
                ids_below(out@, self.n()),
                entries_below(bindings@, self.n()),
                self.signatures == old(self).signatures,
                self.program == old(self).program,
                self.oracle == old(self).oracle,
                self.typing.functions == old(self).typing.functions,
                crate::types::model::diags_extend(old(self).typing.diagnostics@, self.typing.diagnostics@),
            decreases ids.len() - i,
        {
            assert(ids@[i as int].0 < parent@.0);
            let ghost before = self.typing.table@;
            let ghost prev = out@;
            let s = self.substitute(ids[i], bindings);
            out.push(s);
            proof {
                assert forall|k: int| 0 <= k < i + 1 implies substituted(self.typing.table@, #[trigger] ids@[k], out@[k], bindings@) by {
                    if k < i {
                        assert(out@[k] == prev[k]);
                        lemma_substituted_extends(before, self.typing.table@, ids@[k], prev[k], bindings@);
                    }
                }
            }
            i += 1;
        }
        out
    }
}

} // verus!
