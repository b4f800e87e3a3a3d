//! Resolving written value types and collecting the signatures a program
//! can call.

use vstd::prelude::*;
use crate::ast::{ExternDecl, Item, Param, ValueTypeExpr};
use crate::error::Diagnostic;

use crate::span::Span;
use crate::text::{cat, contains, insert_sorted, owned, sorted_unique, str_eq, usize_to_string, views};
use crate::types::checker::Checker;
use crate::types::model::{generic_arity, ids_below, is_builtin_alias, is_typed_function, sanitize, sig_below, Signature, SignatureSource, TypeOracle, TypedExtern};
use crate::types::{ascending, children, extends, flatten, type_at, Type, TypeId, TypeModel};

verus! {

/// Whether `name` is one of `names`.
pub fn names_contain(names: &Vec<String>, name: &str) -> (r: bool)
    ensures
        r == exists|i: int| 0 <= i < names@.len() && (#[trigger] names@[i])@ == name@,
{
    let mut i: usize = 0;
    while i < names.len()
        invariant
            i <= names.len(),
            forall|j: int| 0 <= j < i ==> (#[trigger] names@[j])@ != name@,
        decreases names.len() - i,
    {
        if str_eq(names[i].as_str(), name) {
            return true;
        }
        i += 1;
    }
    false
}

/// Whether `name` is one of the type variables `q`.
pub open spec fn quantifies(q: Seq<String>, name: Seq<char>) -> bool {
    exists|i: int| 0 <= i < q.len() && (#[trigger] q[i])@ == name
}

/// `id` is what the union of `members` interns to: `Never` when the
/// flattened members are empty, the member itself when only one is left,
/// else the union of them in ascending order.
pub open spec fn union_result(table: Seq<TypeModel>, members: Seq<TypeId>, id: TypeId) -> bool {
    &&& flatten(table, members).len() == 0 ==> table[id.0 as int] == TypeModel::Never
    &&& flatten(table, members).len() > 0 ==> exists|ms: Seq<TypeId>|
        ascending(ms) && ms.to_set() == flatten(table, members).to_set() && (ms.len() == 1 ==> id == ms[0]) && (ms.len() > 1
            ==> table[id.0 as int] == TypeModel::Union(ms))
}

/// `id` names, in `table`, the type that the written value type `e`
/// denotes with type variables `q`: a variable by its name, a class by the
/// class its alias resolves to, and every compound type built from what its
/// parts denote.
pub open spec fn denotes(table: Seq<TypeModel>, id: TypeId, e: ValueTypeExpr, q: Seq<String>) -> bool
    decreases e,
{
    &&& id.0 < table.len()
    &&& match e {
        ValueTypeExpr::Named { path, args } => if quantifies(q, path@) {
            table[id.0 as int] == TypeModel::Var(path@)
        } else {
            table[id.0 as int] matches TypeModel::Jvm { class, args: ids } && class == crate::contracts::class_of(path@)
                && ids.len() == args@.len() && forall|k: int| 0 <= k < ids.len() ==> denotes(table, #[trigger] ids[k], args@[k], q)
        },
        ValueTypeExpr::Union(members) => exists|rs: Seq<TypeId>|
            rs.len() == members@.len() && (forall|k: int| 0 <= k < rs.len() ==> denotes(table, #[trigger] rs[k], members@[k], q))
                && union_result(table, rs, id),
        ValueTypeExpr::Function { params, ret } => table[id.0 as int] matches TypeModel::Function { params: ps, ret: r }
            && ps.len() == params@.len() && (forall|k: int| 0 <= k < ps.len() ==> denotes(table, #[trigger] ps[k], params@[k], q))
            && denotes(table, r, *ret, q),
        ValueTypeExpr::Capability { name, args } => table[id.0 as int] matches TypeModel::Capability { name: n, args: ids }
            && n == name@ && ids.len() == args@.len() && forall|k: int| 0 <= k < ids.len() ==> denotes(table, #[trigger] ids[k], args@[k], q),
        ValueTypeExpr::Nil => table[id.0 as int] == TypeModel::Nil,
        ValueTypeExpr::Unknown => table[id.0 as int] == TypeModel::Unknown,
        ValueTypeExpr::Dynamic => table[id.0 as int] == TypeModel::Dynamic,
        ValueTypeExpr::Any => table[id.0 as int] == TypeModel::Any,
        ValueTypeExpr::Never => table[id.0 as int] == TypeModel::Never,
    }
}

/// Flattening reads only the entries the members name, which a longer
/// table keeps.
pub proof fn lemma_flatten_extends(t1: Seq<TypeModel>, t2: Seq<TypeModel>, members: Seq<TypeId>)
    requires
        extends(t1, t2),
        forall|k: int| 0 <= k < members.len() ==> (#[trigger] members[k]).0 < t1.len(),
    ensures
        flatten(t1, members) == flatten(t2, members),
    decreases members.len(),
{
    if members.len() > 0 {
        lemma_flatten_extends(t1, t2, members.drop_last());
        assert(type_at(t1, members.last()) == type_at(t2, members.last()));
    }
}

/// What a written type denotes stays denoted as the table grows.
proof fn lemma_denotes_extends(t1: Seq<TypeModel>, t2: Seq<TypeModel>, id: TypeId, e: ValueTypeExpr, q: Seq<String>)
    requires
        denotes(t1, id, e, q),
        extends(t1, t2),
    ensures
        denotes(t2, id, e, q),
    decreases e,
{
    assert(t2[id.0 as int] == t1[id.0 as int]);
    match e {
        ValueTypeExpr::Named { path, args } => {
            if !quantifies(q, path@) {
                let ids = t1[id.0 as int]->Jvm_args;
                assert forall|k: int| 0 <= k < ids.len() implies denotes(t2, #[trigger] ids[k], args@[k], q) by {
                    lemma_denotes_extends(t1, t2, ids[k], args@[k], q);
                }
            }
        },
        ValueTypeExpr::Union(members) => {
            let rs = choose|rs: Seq<TypeId>|
                rs.len() == members@.len() && (forall|k: int| 0 <= k < rs.len() ==> denotes(t1, #[trigger] rs[k], members@[k], q))
                    && union_result(t1, rs, id);
            assert forall|k: int| 0 <= k < rs.len() implies denotes(t2, #[trigger] rs[k], members@[k], q) by {
                lemma_denotes_extends(t1, t2, rs[k], members@[k], q);
            }
            assert forall|k: int| 0 <= k < rs.len() implies (#[trigger] rs[k]).0 < t1.len() by {
                assert(denotes(t1, rs[k], members@[k], q));
            }
            lemma_flatten_extends(t1, t2, rs);
            if flatten(t1, rs).len() > 0 {
                let ms = choose|ms: Seq<TypeId>|
                    ascending(ms) && ms.to_set() == flatten(t1, rs).to_set() && (ms.len() == 1 ==> id == ms[0]) && (ms.len() > 1
                        ==> t1[id.0 as int] == TypeModel::Union(ms));
                assert(ascending(ms) && ms.to_set() == flatten(t2, rs).to_set() && (ms.len() == 1 ==> id == ms[0]) && (ms.len()
                    > 1 ==> t2[id.0 as int] == TypeModel::Union(ms)));
            }
            assert(union_result(t2, rs, id));
        },
        ValueTypeExpr::Function { params, ret } => {
            let ps = t1[id.0 as int]->Function_params;
            let r = t1[id.0 as int]->Function_ret;
            assert forall|k: int| 0 <= k < ps.len() implies denotes(t2, #[trigger] ps[k], params@[k], q) by {
                lemma_denotes_extends(t1, t2, ps[k], params@[k], q);
            }
            lemma_denotes_extends(t1, t2, r, *ret, q);
        },
        ValueTypeExpr::Capability { name, args } => {
            let ids = t1[id.0 as int]->Capability_args;
            assert forall|k: int| 0 <= k < ids.len() implies denotes(t2, #[trigger] ids[k], args@[k], q) by {
                lemma_denotes_extends(t1, t2, ids[k], args@[k], q);
            }
        },
        _ => {},
    }
}

/// `after` is `before` with one more signature: named `name`, with the
/// type variables `quantified` in ascending order without repeats, the
/// parameters and return that the written types denote, and `source`.
pub open spec fn registered(
    before: Seq<Signature>,
    after: Seq<Signature>,
    table: Seq<TypeModel>,
    name: Seq<char>,
    quantified: Seq<&str>,
    params: Seq<ValueTypeExpr>,
    ret: ValueTypeExpr,
    source: SignatureSource,
) -> bool {
    &&& after.len() == before.len() + 1
    &&& after.drop_last() == before
    &&& after.last().name@ == name
    &&& after.last().source == source
    &&& sorted_unique(views(after.last().quantified@))
    &&& forall|x: Seq<char>| views(after.last().quantified@).contains(x) <==> exists|k: int| 0 <= k < quantified.len() && (#[trigger] quantified[k])@ == x
    &&& after.last().params@.len() == params.len()
    &&& forall|k: int| 0 <= k < params.len() ==> denotes(table, #[trigger] after.last().params@[k], params[k], after.last().quantified@)
    &&& denotes(table, after.last().ret, ret, after.last().quantified@)
}

pub open spec fn extern_names(ss: Seq<Signature>) -> Seq<Seq<char>> {
    ss.map_values(|s: Signature| s.name@)
}

/// The names of the `extern` declarations of `items`, in order.
pub open spec fn declared_externs(items: Seq<Item>) -> Seq<Seq<char>>
    decreases items.len(),
{
    if items.len() == 0 {
        Seq::empty()
    } else {
        declared_externs(items.drop_last()) + match items.last() {
            Item::Extern(e) => seq![e.name.node@],
            _ => Seq::empty(),
        }
    }
}

/// A signature's name, arity, type variables, return and source.
pub open spec fn sig_view(s: Signature) -> (Seq<char>, nat, nat, SignatureSource) {
    (s.name@, s.params@.len(), s.quantified@.len(), s.source)
}

pub open spec fn sig_views(ss: Seq<Signature>) -> Seq<(Seq<char>, nat, nat, SignatureSource)> {
    ss.map_values(|s: Signature| sig_view(s))
}

/// One function signature per typed `fn` of `items`, in order: its name,
/// its arity, no type variables.
pub open spec fn typed_fn_sigs(items: Seq<Item>) -> Seq<(Seq<char>, nat, nat, SignatureSource)>
    decreases items.len(),
{
    if items.len() == 0 {
        Seq::empty()
    } else {
        typed_fn_sigs(items.drop_last()) + match items.last() {
            Item::Fn(f) => if crate::types::model::typed_function_spec(f) {
                seq![(f.name.node@, f.params@.len(), 0nat, SignatureSource::Function)]
            } else {
                Seq::empty()
            },
            _ => Seq::empty(),
        }
    }
}

impl<'a, O: TypeOracle> Checker<'a, O> {
    /// The interned type a written value type denotes; names in
    /// `quantified` are type variables.
    #[verifier::loop_isolation(false)]
    pub fn resolve_type(&mut self, expr: &ValueTypeExpr, quantified: &Vec<String>, span: Span) -> (out: TypeId)
        requires
            old(self).wf(),
        ensures
            final(self).wf(),
            old(self).n() <= final(self).n(),
            out.0 < final(self).n(),
            final(self).signatures == old(self).signatures,
            final(self).program == old(self).program,
            final(self).oracle == old(self).oracle,
            final(self).typing.functions == old(self).typing.functions,
            crate::types::model::diags_extend(old(self).typing.diagnostics@, final(self).typing.diagnostics@),
            extends(old(self).typing.table@, final(self).typing.table@),
            denotes(final(self).typing.table@, out, *expr, quantified@),
        decreases expr,
    {
        let ghost q = quantified@;
        match expr {
            ValueTypeExpr::Named { path, args } => {
                if names_contain(quantified, path.as_str()) {
                    if args.len() != 0 {
                        let message = cat(vec!["type variable `", path.as_str(), "` cannot take type arguments"]);
                        self.typing.diagnostics.push(Diagnostic::type_error(span, message));
                    }
                    let name = path.clone();
                    assert(name@ == path@);
                    return self.leaf(Type::Var(name));
                }
                if !contains(path.as_str(), ".") && !is_builtin_alias(path.as_str()) {
                    let message = cat(
                        vec!["unknown JVM type `", path.as_str(), "`; use a built-in alias or fully qualified class name"],
                    );
                    self.typing.diagnostics.push(Diagnostic::type_error(span, message));
                }
                let class = crate::contracts::resolve_class(path.as_str());
                let resolved = self.resolve_types(args, quantified, span);
                match generic_arity(class.as_str()) {
                    Some(expected) => {
                        if resolved.len() != expected {
                            let e = usize_to_string(expected);
                            let g = usize_to_string(resolved.len());
                            let message = cat(
                                vec!["`", class.as_str(), "` expects ", e.as_str(), " type argument(s), got ", g.as_str()],
                            );
                            self.typing.diagnostics.push(Diagnostic::type_error(span, message));
                        }
                    }
                    None => {},
                }
                let ghost before = self.typing.table@;
                let ghost ids = resolved@;
                let out = self.typing.table.jvm(class, resolved);
                proof {
                    assert forall|k: int| 0 <= k < ids.len() implies denotes(self.typing.table@, #[trigger] ids[k], args@[k], q) by {
                        lemma_denotes_extends(before, self.typing.table@, ids[k], args@[k], q);
                    }
                }
                out
            }
            ValueTypeExpr::Union(members) => {
                let resolved = self.resolve_types(members, quantified, span);
                let ghost before = self.typing.table@;
                let ghost rs = resolved@;
                let out = self.typing.table.union(resolved);
                proof {
                    assert forall|k: int| 0 <= k < rs.len() implies denotes(self.typing.table@, #[trigger] rs[k], members@[k], q) by {
                        lemma_denotes_extends(before, self.typing.table@, rs[k], members@[k], q);
                    }
                    lemma_flatten_extends(before, self.typing.table@, rs);
                    assert(union_result(self.typing.table@, rs, out));
                }
                out
            }
            ValueTypeExpr::Function { params, ret } => {
                let resolved = self.resolve_types(params, quantified, span);
                let ghost mid = self.typing.table@;
                let r = self.resolve_type(ret, quantified, span);
                let ghost ps = resolved@;
                let f = Type::Function { params: resolved, ret: r };
                assert(children(f@) == ps.push(r));
                assert forall|k: int| 0 <= k < children(f@).len() implies (#[trigger] children(f@)[k]).0 < self.n() by {
                    if k < ps.len() {
                        assert(children(f@)[k] == ps[k]);
                    }
                }
                let ghost before = self.typing.table@;
                let out = self.typing.table.intern(f);
                proof {
                    assert forall|k: int| 0 <= k < ps.len() implies denotes(self.typing.table@, #[trigger] ps[k], params@[k], q) by {
                        lemma_denotes_extends(mid, before, ps[k], params@[k], q);
                        lemma_denotes_extends(before, self.typing.table@, ps[k], params@[k], q);
                    }
                    lemma_denotes_extends(before, self.typing.table@, r, **ret, q);
                }
                out
            }
            ValueTypeExpr::Capability { name, args } => {
                let expected_arity: usize = if str_eq(name.as_str(), "Seqable") || str_eq(name.as_str(), "Reducible") {
                    1
                } else if str_eq(name.as_str(), "Countable") {
                    0
                } else if str_eq(name.as_str(), "Transducer") {
                    2
                } else {
                    let message = cat(vec!["unknown capability `", name.as_str(), "`"]);
                    self.typing.diagnostics.push(Diagnostic::type_error(span, message));
                    args.len()
                };
                if args.len() != expected_arity {
                    let e = usize_to_string(expected_arity);
                    let g = usize_to_string(args.len());
                    let message = cat(vec!["`", name.as_str(), "` expects ", e.as_str(), " type argument(s), got ", g.as_str()]);
                    self.typing.diagnostics.push(Diagnostic::type_error(span, message));
                }
                let resolved = self.resolve_types(args, quantified, span);
                let ghost before = self.typing.table@;
                let ghost ids = resolved@;
                let label = name.clone();
                assert(label@ == name@);
                let out = self.typing.table.intern(Type::Capability { name: label, args: resolved });
                proof {
                    assert forall|k: int| 0 <= k < ids.len() implies denotes(self.typing.table@, #[trigger] ids[k], args@[k], q) by {
                        lemma_denotes_extends(before, self.typing.table@, ids[k], args@[k], q);
                    }
                }
                out
            }
            ValueTypeExpr::Nil => self.leaf(Type::Nil),
            ValueTypeExpr::Unknown => self.leaf(Type::Unknown),
            ValueTypeExpr::Dynamic => self.leaf(Type::Dynamic),
            ValueTypeExpr::Any => self.leaf(Type::Any),
            ValueTypeExpr::Never => self.leaf(Type::Never),
        }
    }

    /// Each written type resolved, in order.
    #[verifier::loop_isolation(false)]
    pub fn resolve_types(&mut self, exprs: &Vec<ValueTypeExpr>, quantified: &Vec<String>, span: Span) -> (out: Vec<TypeId>)
        requires
            old(self).wf(),
        ensures
            final(self).wf(),
            old(self).n() <= final(self).n(),
            ids_below(out@, final(self).n()),
            out@.len() == exprs@.len(),
            final(self).signatures == old(self).signatures,
            final(self).program == old(self).program,
            final(self).oracle == old(self).oracle,
            final(self).typing.functions == old(self).typing.functions,
            crate::types::model::diags_extend(old(self).typing.diagnostics@, final(self).typing.diagnostics@),
            extends(old(self).typing.table@, final(self).typing.table@),
            forall|k: int| 0 <= k < out@.len() ==> denotes(final(self).typing.table@, #[trigger] out@[k], exprs@[k], quantified@),
        decreases exprs,
    {
        let mut out: Vec<TypeId> = Vec::new();
        let mut i: usize = 0;
        while i < exprs.len()
            invariant
                i <= exprs.len(),
                out@.len() == i,
                self.wf(),
                old(self).n() <= self.n(),
                ids_below(out@, self.n()),
                self.signatures == old(self).signatures,
                self.program == old(self).program,
                self.oracle == old(self).oracle,
                self.typing.functions == old(self).typing.functions,
                crate::types::model::diags_extend(old(self).typing.diagnostics@, self.typing.diagnostics@),
                extends(old(self).typing.table@, self.typing.table@),
                forall|k: int| 0 <= k < i ==> denotes(self.typing.table@, #[trigger] out@[k], exprs@[k], quantified@),
            decreases exprs.len() - i,
        {
            let ghost before = self.typing.table@;
            let ghost prev = out@;
            let id = self.resolve_type(&exprs[i], quantified, span);
            out.push(id);
            proof {
                assert forall|k: int| 0 <= k < i + 1 implies denotes(self.typing.table@, #[trigger] out@[k], exprs@[k], quantified@) by {
                    if k < i {
                        assert(out@[k] == prev[k]);
                        lemma_denotes_extends(before, self.typing.table@, prev[k], exprs@[k], quantified@);
                    }
                }
            }
            i += 1;
        }
        out
    }

    /// The type of a parameter; a missing annotation is reported when
    /// `require` holds and reads as `Unknown`.
    pub fn resolve_param(&mut self, param: &Param, quantified: &Vec<String>, require: bool) -> (out: TypeId)
        requires
            old(self).wf(),
        ensures
            final(self).wf(),
            old(self).n() <= final(self).n(),
            out.0 < final(self).n(),
            final(self).signatures == old(self).signatures,
            final(self).program == old(self).program,
            final(self).oracle == old(self).oracle,
            final(self).typing.functions == old(self).typing.functions,
            crate::types::model::diags_extend(old(self).typing.diagnostics@, final(self).typing.diagnostics@),
            crate::types::extends(old(self).typing.table@, final(self).typing.table@),
    {
        match &param.ty {
            Some(ty) => self.resolve_type(&ty.node, quantified, ty.span),
            None => {
                if require {
                    let message = cat(
                        vec![
                            "typed fn parameter `",
                            param.name.node.as_str(),
                            "` needs a type annotation (use `Unknown` for a gradual boundary)",
                        ],
                    );
                    self.typing.diagnostics.push(Diagnostic::type_error(param.name.span, message));
                }
                self.leaf(Type::Unknown)
            }
        }
    }

    /// Adds a signature under its name, after the earlier ones.
    pub fn add_signature(&mut self, signature: Signature)
        requires
            old(self).wf(),
            sig_below(signature, old(self).n()),
        ensures
            final(self).wf(),
            final(self).n() == old(self).n(),
            final(self).typing == old(self).typing,
            final(self).program == old(self).program,
            final(self).oracle == old(self).oracle,
            final(self).typing.functions == old(self).typing.functions,
            crate::types::model::diags_extend(old(self).typing.diagnostics@, final(self).typing.diagnostics@),
            crate::types::extends(old(self).typing.table@, final(self).typing.table@),
            final(self).signatures@ == old(self).signatures@.push(signature),
    {
        self.signatures.push(signature);
    }

    /// Registers a prelude signature quantified over `quantified`.
    pub fn generic_signature(
        &mut self,
        name: &str,
        quantified: Vec<&str>,
        params: Vec<ValueTypeExpr>,
        ret: ValueTypeExpr,
        source: SignatureSource,
    )
        requires
            old(self).wf(),
        ensures
            final(self).wf(),
            old(self).n() <= final(self).n(),
            final(self).program == old(self).program,
            final(self).oracle == old(self).oracle,
            final(self).typing.functions == old(self).typing.functions,
            crate::types::model::diags_extend(old(self).typing.diagnostics@, final(self).typing.diagnostics@),
            crate::types::extends(old(self).typing.table@, final(self).typing.table@),
            registered(old(self).signatures@, final(self).signatures@, final(self).typing.table@, name@, quantified@, params@, ret, source),
    {
        let mut quantified_set: Vec<String> = Vec::new();
        let mut i: usize = 0;
        assert(views(quantified_set@) =~= Seq::<Seq<char>>::empty());
        while i < quantified.len()
            invariant
                i <= quantified.len(),
                sorted_unique(views(quantified_set@)),
                forall|x: Seq<char>| views(quantified_set@).contains(x) <==> exists|k: int| 0 <= k < i && (#[trigger] quantified@[k])@ == x,
            decreases quantified.len() - i,
        {
            let ghost prev = views(quantified_set@);
            let text = owned(quantified[i]);
            insert_sorted(&mut quantified_set, text);
            assert forall|x: Seq<char>| views(quantified_set@).contains(x) <==> exists|k: int| 0 <= k < i + 1 && (#[trigger] quantified@[k])@ == x by {
                if views(quantified_set@).contains(x) && x != quantified@[i as int]@ {
                    assert(prev.contains(x));
                }
                if exists|k: int| 0 <= k < i + 1 && (#[trigger] quantified@[k])@ == x {
                    let k = choose|k: int| 0 <= k < i + 1 && (#[trigger] quantified@[k])@ == x;
                    if k < i {
                        assert(prev.contains(x));
                    }
                }
            }
            i += 1;
        }
        let resolved = self.resolve_types(&params, &quantified_set, Span::new(0, 0));
        let ghost mid = self.typing.table@;
        let r = self.resolve_type(&ret, &quantified_set, Span::new(0, 0));
        proof {
            assert forall|k: int| 0 <= k < resolved@.len() implies denotes(self.typing.table@, #[trigger] resolved@[k], params@[k], quantified_set@) by {
                lemma_denotes_extends(mid, self.typing.table@, resolved@[k], params@[k], quantified_set@);
            }
        }
        let ghost before = self.signatures@;
        let ghost qs = quantified_set@;
        let ghost ps = resolved@;
        self.add_signature(
            Signature {
                name: owned(name),
                quantified: quantified_set,
                params: resolved,
                ret: r,
                span: Span::new(0, 0),
                source,
            },
        );
        proof {
            assert(self.signatures@.drop_last() =~= before);
        }
    }

    /// Registers a prelude signature without type variables.
    pub fn signature(&mut self, name: &str, params: Vec<ValueTypeExpr>, ret: ValueTypeExpr, source: SignatureSource)
        requires
            old(self).wf(),
        ensures
            final(self).wf(),
            old(self).n() <= final(self).n(),
            final(self).program == old(self).program,
            final(self).oracle == old(self).oracle,
            final(self).typing.functions == old(self).typing.functions,
            crate::types::model::diags_extend(old(self).typing.diagnostics@, final(self).typing.diagnostics@),
            crate::types::extends(old(self).typing.table@, final(self).typing.table@),
            registered(old(self).signatures@, final(self).signatures@, final(self).typing.table@, name@, Seq::empty(), params@, ret, source),
    {
        let none: Vec<&str> = Vec::new();
        assert(none@ =~= Seq::<&str>::empty());
        self.generic_signature(name, none, params, ret, source)
    }

    /// The signature an `extern` declares.
    #[verifier::loop_isolation(false)]
    pub fn resolve_extern(&mut self, declaration: &ExternDecl) -> (out: Signature)
        requires
            old(self).wf(),
        ensures
            final(self).wf(),
            old(self).n() <= final(self).n(),
            sig_below(out, final(self).n()),
            out.name@ == declaration.name.node@,
            out.source == SignatureSource::Extern,
            final(self).signatures == old(self).signatures,
            final(self).program == old(self).program,
            final(self).oracle == old(self).oracle,
            final(self).typing.functions == old(self).typing.functions,
            crate::types::model::diags_extend(old(self).typing.diagnostics@, final(self).typing.diagnostics@),
            crate::types::extends(old(self).typing.table@, final(self).typing.table@),
    {
        let mut quantified: Vec<String> = Vec::new();
        let mut i: usize = 0;
        while i < declaration.type_params.len()
            invariant
                i <= declaration.type_params.len(),
            decreases declaration.type_params.len() - i,
        {
            insert_sorted(&mut quantified, declaration.type_params[i].node.clone());
            i += 1;
        }
        let mut params: Vec<TypeId> = Vec::new();
        let mut j: usize = 0;
        while j < declaration.params.len()
            invariant
                j <= declaration.params.len(),
                self.wf(),
                old(self).n() <= self.n(),
                ids_below(params@, self.n()),
                self.signatures == old(self).signatures,
                self.program == old(self).program,
                self.oracle == old(self).oracle,
                self.typing.functions == old(self).typing.functions,
                crate::types::model::diags_extend(old(self).typing.diagnostics@, self.typing.diagnostics@),
                crate::types::extends(old(self).typing.table@, self.typing.table@),
            decreases declaration.params.len() - j,
        {
            let param = &declaration.params[j];
            let id = match &param.ty {
                Some(ty) => self.resolve_type(&ty.node, &quantified, ty.span),
                None => {
                    self.typing.diagnostics.push(
                        Diagnostic::type_error(param.name.span, owned("extern parameters require explicit types")),
                    );
                    self.leaf(Type::Unknown)
                }
            };
            params.push(id);
            j += 1;
        }
        let r = self.resolve_type(&declaration.return_ty.node, &quantified, declaration.return_ty.span);
        Signature {
            name: declaration.name.node.clone(),
            quantified,
            params,
            ret: r,
            span: declaration.span,
            source: SignatureSource::Extern,
        }
    }

    /// Registers every `extern` of the program as an overload of its name.
    #[verifier::loop_isolation(false)]
    pub fn collect_externs(&mut self)
        requires
            old(self).wf(),
        ensures
            final(self).wf(),
            old(self).n() <= final(self).n(),
            final(self).program == old(self).program,
            final(self).oracle == old(self).oracle,
            final(self).typing.functions == old(self).typing.functions,
            crate::types::model::diags_extend(old(self).typing.diagnostics@, final(self).typing.diagnostics@),
            crate::types::extends(old(self).typing.table@, final(self).typing.table@),
            final(self).signatures@.take(old(self).signatures@.len() as int) == old(self).signatures@,
            extern_names(final(self).signatures@.skip(old(self).signatures@.len() as int)) == declared_externs(old(self).program.source.items@),
    {
        let items = &self.program.source.items;
        let mut i: usize = 0;
        while i < items.len()
            invariant
                i <= items.len(),
                items == &self.program.source.items,
                self.signatures@.take(old(self).signatures@.len() as int) == old(self).signatures@,
                self.signatures@.len() >= old(self).signatures@.len(),
                extern_names(self.signatures@.skip(old(self).signatures@.len() as int)) == declared_externs(items@.take(i as int)),
                self.wf(),
                old(self).n() <= self.n(),
                self.program == old(self).program,
                self.oracle == old(self).oracle,
                self.typing.functions == old(self).typing.functions,
                crate::types::model::diags_extend(old(self).typing.diagnostics@, self.typing.diagnostics@),
                crate::types::extends(old(self).typing.table@, self.typing.table@),
            decreases items.len() - i,
        {
            proof {
                assert(items@.take(i + 1).drop_last() =~= items@.take(i as int));
                assert(items@.take(i + 1).last() == items@[i as int]);
            }
            if let Item::Extern(extern_decl) = &items[i] {
                let signature = self.resolve_extern(extern_decl);
                let ghost before = self.signatures@;
                let overload_index: usize = match self.typing.extern_overloads(extern_decl.name.node.as_str()) {
                    Some(group) => group.len(),
                    None => 0,
                };
                let target = match &extern_decl.target {
                    Some(t) => t.node.clone(),
                    None => extern_decl.name.node.clone(),
                };
                let clean = sanitize(extern_decl.name.node.as_str());
                let index = usize_to_string(overload_index);
                let wrapper_name = cat(vec!["__rama_extern_", clean.as_str(), "_", index.as_str()]);
                let copy = signature.clone();
                let typed = TypedExtern { name: extern_decl.name.node.clone(), target, wrapper_name, signature: copy };
                self.typing.add_extern(typed);
                let ghost sig = signature;
                self.add_signature(signature);
                proof {
                    let base = old(self).signatures@.len() as int;
                    assert(self.signatures@.skip(base) =~= before.skip(base).push(sig));
                    assert(self.signatures@.take(base) =~= before.take(base));
                    assert(extern_names(self.signatures@.skip(base)) =~= extern_names(before.skip(base)).push(sig.name@));
                }
            }
            i += 1;
        }
        assert(items@.take(items@.len() as int) =~= items@);
    }

    /// Registers the signature of every typed `fn` of the program.
    #[verifier::loop_isolation(false)]
    pub fn collect_functions(&mut self)
        requires
            old(self).wf(),
        ensures
            final(self).wf(),
            old(self).n() <= final(self).n(),
            final(self).program == old(self).program,
            final(self).oracle == old(self).oracle,
            final(self).typing.functions == old(self).typing.functions,
            crate::types::model::diags_extend(old(self).typing.diagnostics@, final(self).typing.diagnostics@),
            crate::types::extends(old(self).typing.table@, final(self).typing.table@),
            final(self).signatures@.take(old(self).signatures@.len() as int) == old(self).signatures@,
            sig_views(final(self).signatures@.skip(old(self).signatures@.len() as int)) == typed_fn_sigs(old(self).program.source.items@),
    {
        let items = &self.program.source.items;
        let no_vars: Vec<String> = Vec::new();
        let mut i: usize = 0;
        while i < items.len()
            invariant
                i <= items.len(),
                items == &self.program.source.items,
                no_vars@.len() == 0,
                self.signatures@.take(old(self).signatures@.len() as int) == old(self).signatures@,
                self.signatures@.len() >= old(self).signatures@.len(),
                sig_views(self.signatures@.skip(old(self).signatures@.len() as int)) == typed_fn_sigs(items@.take(i as int)),
                self.wf(),
                old(self).n() <= self.n(),
                self.program == old(self).program,
                self.oracle == old(self).oracle,
                self.typing.functions == old(self).typing.functions,
                crate::types::model::diags_extend(old(self).typing.diagnostics@, self.typing.diagnostics@),
                crate::types::extends(old(self).typing.table@, self.typing.table@),
            decreases items.len() - i,
        {
            proof {
                assert(items@.take(i + 1).drop_last() =~= items@.take(i as int));
                assert(items@.take(i + 1).last() == items@[i as int]);
            }
            let ghost before = self.signatures@;
            if let Item::Fn(function) = &items[i] {
                if is_typed_function(function) {
                    let mut params: Vec<TypeId> = Vec::new();
                    let mut j: usize = 0;
                    while j < function.params.len()
                        invariant
                            j <= function.params.len(),
                            params@.len() == j,
                            self.signatures@ == before,
                            self.wf(),
                            old(self).n() <= self.n(),
                            ids_below(params@, self.n()),
                            self.program == old(self).program,
                            self.oracle == old(self).oracle,
                            self.typing.functions == old(self).typing.functions,
                            crate::types::model::diags_extend(old(self).typing.diagnostics@, self.typing.diagnostics@),
                            crate::types::extends(old(self).typing.table@, self.typing.table@),
                        decreases function.params.len() - j,
                    {
                        let id = self.resolve_param(&function.params[j], &no_vars, true);
                        params.push(id);
                        j += 1;
                    }
                    let r = match &function.return_ty {
                        Some(ty) => self.resolve_type(&ty.node, &no_vars, ty.span),
                        None => self.leaf(Type::Unknown),
                    };
                    let name = function.name.node.clone();
                    assert(name@ == function.name.node@);
                    let ghost arity = params@.len();
                    self.add_signature(
                        Signature {
                            name,
                            quantified: Vec::new(),
                            params,
                            ret: r,
                            span: function.span,
                            source: SignatureSource::Function,
                        },
                    );
                    proof {
                        let base = old(self).signatures@.len() as int;
                        assert(self.signatures@.skip(base) =~= before.skip(base).push(self.signatures@.last()));
                        assert(self.signatures@.take(base) =~= before.take(base));
                        assert(sig_views(self.signatures@.skip(base)) =~= sig_views(before.skip(base)).push(sig_view(self.signatures@.last())));
                    }
                }
            }
            i += 1;
        }
        assert(items@.take(items@.len() as int) =~= items@);
    }
}

} // verus!
