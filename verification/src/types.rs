//! Gradual JVM value typing for ordinary `.rama` `fn` forms.
//!
//! Externs are compile-time method sets: quantified signatures,
//! tuple-shaped applicability, specificity scoring, and ambiguity rejection.

use vstd::prelude::*;
use crate::text::{owned, str_eq};

mod checker;
mod infer;
pub mod model;
mod paths;
mod resolve;
mod run;

pub use run::{analyze, analyze_with_oracle};
pub use model::{
    bootstrap_assignable, generic_arity, is_builtin_alias, is_typed_function, sanitize, NoOracle, Signature,
    SignatureSource, TypeOracle, TypedExtern, TypedFunction, Typing,
};

verus! {

#[derive(Debug, Clone, Copy, PartialEq, Eq, PartialOrd, Ord, Hash, Structural)]
pub struct TypeId(pub usize);

#[derive(Debug, PartialEq, Eq, Hash)]
pub enum Type {
    Jvm { class: String, args: Vec<TypeId> },
    Var(String),
    Union(Vec<TypeId>),
    Function { params: Vec<TypeId>, ret: TypeId },
    Capability { name: String, args: Vec<TypeId> },
    Nil,
    Unknown,
    Dynamic,
    Any,
    Never,
}

/// A type's meaning: names as character sequences, children as id sequences.
pub enum TypeModel {
    Jvm { class: Seq<char>, args: Seq<TypeId> },
    Var(Seq<char>),
    Union(Seq<TypeId>),
    Function { params: Seq<TypeId>, ret: TypeId },
    Capability { name: Seq<char>, args: Seq<TypeId> },
    Nil,
    Unknown,
    Dynamic,
    Any,
    Never,
}

impl View for Type {
    type V = TypeModel;

    open spec fn view(&self) -> TypeModel {
        match self {
            Type::Jvm { class, args } => TypeModel::Jvm { class: class@, args: args@ },
            Type::Var(n) => TypeModel::Var(n@),
            Type::Union(ms) => TypeModel::Union(ms@),
            Type::Function { params, ret } => TypeModel::Function { params: params@, ret: *ret },
            Type::Capability { name, args } => TypeModel::Capability { name: name@, args: args@ },
            Type::Nil => TypeModel::Nil,
            Type::Unknown => TypeModel::Unknown,
            Type::Dynamic => TypeModel::Dynamic,
            Type::Any => TypeModel::Any,
            Type::Never => TypeModel::Never,
        }
    }
}

/// The ids a type refers to.
pub open spec fn children(t: TypeModel) -> Seq<TypeId> {
    match t {
        TypeModel::Jvm { args, .. } => args,
        TypeModel::Union(ms) => ms,
        TypeModel::Function { params, ret } => params.push(ret),
        TypeModel::Capability { args, .. } => args,
        _ => Seq::empty(),
    }
}

/// Every child id is below `bound`.
pub open spec fn children_below(t: TypeModel, bound: int) -> bool {
    forall|k: int| 0 <= k < children(t).len() ==> (#[trigger] children(t)[k]).0 < bound
}

pub fn copy_ids(v: &Vec<TypeId>) -> (out: Vec<TypeId>)
    ensures
        out@ == v@,
{
    let mut out: Vec<TypeId> = Vec::new();
    let mut i: usize = 0;
    while i < v.len()
        invariant
            i <= v.len(),
            out@ == v@.take(i as int),
        decreases v.len() - i,
    {
        out.push(v[i]);
        assert(out@ =~= v@.take(i + 1));
        i += 1;
    }
    assert(v@.take(v.len() as int) =~= v@);
    out
}

impl Clone for Type {
    fn clone(&self) -> (out: Self)
        ensures
            out@ == self@,
    {
        match self {
            Type::Jvm { class, args } => Type::Jvm { class: class.clone(), args: copy_ids(args) },
            Type::Var(n) => Type::Var(n.clone()),
            Type::Union(ms) => Type::Union(copy_ids(ms)),
            Type::Function { params, ret } => Type::Function { params: copy_ids(params), ret: *ret },
            Type::Capability { name, args } => Type::Capability { name: name.clone(), args: copy_ids(args) },
            Type::Nil => Type::Nil,
            Type::Unknown => Type::Unknown,
            Type::Dynamic => Type::Dynamic,
            Type::Any => Type::Any,
            Type::Never => Type::Never,
        }
    }
}

fn ids_eq(a: &Vec<TypeId>, b: &Vec<TypeId>) -> (r: bool)
    ensures
        r == (a@ == b@),
{
    if a.len() != b.len() {
        return false;
    }
    let mut i: usize = 0;
    while i < a.len()
        invariant
            a.len() == b.len(),
            i <= a.len(),
            forall|j: int| 0 <= j < i ==> a@[j] == b@[j],
        decreases a.len() - i,
    {
        if a[i].0 != b[i].0 {
            assert(a@[i as int] != b@[i as int]);
            return false;
        }
        i += 1;
    }
    assert(a@ =~= b@);
    true
}

/// Whether two types mean the same.
pub fn type_eq(a: &Type, b: &Type) -> (r: bool)
    ensures
        r == (a@ == b@),
{
    match (a, b) {
        (Type::Jvm { class: c1, args: a1 }, Type::Jvm { class: c2, args: a2 }) => str_eq(c1.as_str(), c2.as_str()) && ids_eq(a1, a2),
        (Type::Var(x), Type::Var(y)) => str_eq(x.as_str(), y.as_str()),
        (Type::Union(x), Type::Union(y)) => ids_eq(x, y),
        (Type::Function { params: p1, ret: r1 }, Type::Function { params: p2, ret: r2 }) => ids_eq(p1, p2) && r1.0 == r2.0,
        (Type::Capability { name: n1, args: a1 }, Type::Capability { name: n2, args: a2 }) => str_eq(n1.as_str(), n2.as_str()) && ids_eq(a1, a2),
        (Type::Nil, Type::Nil) => true,
        (Type::Unknown, Type::Unknown) => true,
        (Type::Dynamic, Type::Dynamic) => true,
        (Type::Any, Type::Any) => true,
        (Type::Never, Type::Never) => true,
        _ => false,
    }
}

/// Interned types: each distinct type is stored once, and a type only
/// refers to types interned before it.
#[derive(Debug)]
pub struct TypeTable {
    types: Vec<Type>,
}

impl View for TypeTable {
    type V = Seq<TypeModel>;

    closed spec fn view(&self) -> Seq<TypeModel> {
        self.types@.map_values(|t: Type| t@)
    }
}

/// The type at `id`; ids past the end read as `Unknown`.
pub open spec fn type_at(table: Seq<TypeModel>, id: TypeId) -> TypeModel {
    if id.0 < table.len() {
        table[id.0 as int]
    } else {
        TypeModel::Unknown
    }
}

/// Every type refers only to types before it, and no type is stored twice.
pub open spec fn table_wf(table: Seq<TypeModel>) -> bool {
    &&& forall|i: int| 0 <= i < table.len() ==> children_below(#[trigger] table[i], i)
    &&& forall|i: int, j: int| 0 <= i < j < table.len() ==> #[trigger] table[i] != #[trigger] table[j]
}

/// `new` keeps every entry of `old` in place.
pub open spec fn extends(old: Seq<TypeModel>, new: Seq<TypeModel>) -> bool {
    old.len() <= new.len() && forall|i: int| 0 <= i < old.len() ==> #[trigger] new[i] == old[i]
}

/// What one union member contributes: nothing for `Never`, the members
/// of a nested union, else itself.
pub open spec fn contribution(table: Seq<TypeModel>, m: TypeId) -> Seq<TypeId> {
    match type_at(table, m) {
        TypeModel::Never => Seq::empty(),
        TypeModel::Union(ns) => ns,
        _ => seq![m],
    }
}

/// The members of a union, flattened one level, in order.
pub open spec fn flatten(table: Seq<TypeModel>, members: Seq<TypeId>) -> Seq<TypeId>
    decreases members.len(),
{
    if members.len() == 0 {
        Seq::empty()
    } else {
        flatten(table, members.drop_last()) + contribution(table, members.last())
    }
}

/// Ids in strictly ascending order.
pub open spec fn ascending(ids: Seq<TypeId>) -> bool {
    forall|a: int, b: int| 0 <= a < b < ids.len() ==> (#[trigger] ids[a]).0 < (#[trigger] ids[b]).0
}

proof fn lemma_ascending_same_set(a: Seq<TypeId>, b: Seq<TypeId>)
    requires
        ascending(a),
        ascending(b),
        a.to_set() == b.to_set(),
    ensures
        a == b,
    decreases a.len(),
{
    if a.len() == 0 {
        if b.len() > 0 {
            assert(b.to_set().contains(b[0]));
        }
        assert(a =~= b);
    } else {
        assert(a.to_set().contains(a[0]));
        assert(b.to_set().contains(a[0]));
        let j = choose|j: int| 0 <= j < b.len() && b[j] == a[0];
        assert(b.to_set().contains(b[0]));
        assert(a.to_set().contains(b[0]));
        let i = choose|i: int| 0 <= i < a.len() && a[i] == b[0];
        if j > 0 {
            if i > 0 {
                assert(a[0].0 < a[i].0);
            }
            assert(b[0].0 < b[j].0);
            assert(false);
        }
        assert(b[0] == a[0]);
        let ta = a.skip(1);
        let tb = b.skip(1);
        assert forall|x: TypeId| ta.to_set().contains(x) implies tb.to_set().contains(x) by {
            let k = choose|k: int| 0 <= k < ta.len() && ta[k] == x;
            assert(a[k + 1] == x);
            assert(a.to_set().contains(x));
            assert(b.to_set().contains(x));
            let m = choose|m: int| 0 <= m < b.len() && b[m] == x;
            assert(a[0].0 < a[k + 1].0);
            if m == 0 {
                assert(false);
            }
            assert(tb[m - 1] == x);
        }
        assert forall|x: TypeId| tb.to_set().contains(x) implies ta.to_set().contains(x) by {
            let k = choose|k: int| 0 <= k < tb.len() && tb[k] == x;
            assert(b[k + 1] == x);
            assert(b.to_set().contains(x));
            assert(a.to_set().contains(x));
            let m = choose|m: int| 0 <= m < a.len() && a[m] == x;
            assert(b[0].0 < b[k + 1].0);
            if m == 0 {
                assert(false);
            }
            assert(ta[m - 1] == x);
        }
        assert(ta.to_set() =~= tb.to_set());
        lemma_ascending_same_set(ta, tb);
        assert(a =~= seq![a[0]] + ta);
        assert(b =~= seq![b[0]] + tb);
    }
}

/// A union ignores the order and repetition of its members: member lists
/// whose flattened members form the same set get the same ascending member
/// sequence, and so the same union type.
pub proof fn law_union_ignores_order(table: Seq<TypeModel>, m1: Seq<TypeId>, m2: Seq<TypeId>, ms1: Seq<TypeId>, ms2: Seq<TypeId>)
    requires
        flatten(table, m1).to_set() == flatten(table, m2).to_set(),
        ascending(ms1),
        ms1.to_set() == flatten(table, m1).to_set(),
        ascending(ms2),
        ms2.to_set() == flatten(table, m2).to_set(),
    ensures
        ms1 == ms2,
{
    lemma_ascending_same_set(ms1, ms2);
}

/// Interning is canonical: a well-formed table holds each type at one
/// index only, so equal types always get equal ids.
pub proof fn law_interned_ids_canonical(table: Seq<TypeModel>, i: int, j: int)
    requires
        table_wf(table),
        0 <= i < table.len(),
        0 <= j < table.len(),
        table[i] == table[j],
    ensures
        i == j,
{
    if i < j {
        assert(table[i] != table[j]);
    } else if j < i {
        assert(table[j] != table[i]);
    }
}

pub proof fn lemma_type_at_children(table: Seq<TypeModel>, id: TypeId)
    requires
        table_wf(table),
    ensures
        children_below(type_at(table, id), id.0 as int),
{
    if id.0 < table.len() {
        assert(children_below(table[id.0 as int], id.0 as int));
    }
}

impl TypeTable {
    #[verifier::type_invariant]
    spec fn inv(&self) -> bool {
        table_wf(self@)
    }

    pub fn new() -> (out: Self)
        ensures
            out@.len() == 0,
    {
        let out = TypeTable { types: Vec::new() };
        assert(out@ =~= Seq::<TypeModel>::empty());
        out
    }

    pub fn len(&self) -> (n: usize)
        ensures
            n == self@.len(),
    {
        self.types.len()
    }

    /// The id of `ty`, adding it when it is new. `ty` may only refer to
    /// types already in the table.
    pub fn intern(&mut self, ty: Type) -> (id: TypeId)
        requires
            children_below(ty@, old(self)@.len() as int),
        ensures
            table_wf(final(self)@),
            id.0 < final(self)@.len(),
            final(self)@[id.0 as int] == ty@,
            extends(old(self)@, final(self)@),
            old(self)@.contains(ty@) ==> final(self)@ == old(self)@,
            !old(self)@.contains(ty@) ==> final(self)@ == old(self)@.push(ty@),
    {
        proof {
            use_type_invariant(&*self);
        }
        let mut i: usize = 0;
        while i < self.types.len()
            invariant
                i <= self.types.len(),
                table_wf(self@),
                forall|j: int| 0 <= j < i ==> self@[j] != ty@,
            decreases self.types.len() - i,
        {
            if type_eq(&self.types[i], &ty) {
                assert(self@[i as int] == ty@);
                assert(self@.contains(ty@));
                return TypeId(i);
            }
            i += 1;
        }
        let id = TypeId(self.types.len());
        let ghost before = self@;
        proof {
            assert(!before.contains(ty@));
            assert(table_wf(before.push(ty@))) by {
                assert forall|a: int| 0 <= a < before.push(ty@).len() implies children_below(#[trigger] before.push(ty@)[a], a) by {
                    if a < before.len() {
                        assert(before.push(ty@)[a] == before[a]);
                    }
                }
            }
        }
        let mut types: Vec<Type> = Vec::new();
        std::mem::swap(&mut types, &mut self.types);
        let ghost old_types = types@;
        types.push(ty);
        proof {
            assert(types@.map_values(|t: Type| t@) =~= before.push(ty@));
        }
        self.types = types;
        assert(self@ =~= before.push(ty@));
        id
    }

    pub fn get(&self, id: TypeId) -> (out: &Type)
        requires
            id.0 < self@.len(),
        ensures
            out@ == self@[id.0 as int],
    {
        &self.types[id.0]
    }

    /// A copy of the type at `id` (`Unknown` past the end).
    pub fn ty(&self, id: TypeId) -> (out: Type)
        ensures
            out@ == type_at(self@, id),
            children_below(out@, id.0 as int),
    {
        proof {
            use_type_invariant(self);
            lemma_type_at_children(self@, id);
        }
        if id.0 < self.types.len() {
            self.types[id.0].clone()
        } else {
            Type::Unknown
        }
    }

    pub fn jvm(&mut self, class: String, args: Vec<TypeId>) -> (id: TypeId)
        requires
            forall|k: int| 0 <= k < args@.len() ==> (#[trigger] args@[k]).0 < old(self)@.len(),
        ensures
            table_wf(final(self)@),
            id.0 < final(self)@.len(),
            final(self)@[id.0 as int] == (TypeModel::Jvm { class: class@, args: args@ }),
            extends(old(self)@, final(self)@),
    {
        self.intern(Type::Jvm { class, args })
    }

    /// Flattened union of `members` without `Never` and duplicates, in id
    /// order; `Never` when empty, the member itself when only one.
    pub fn union(&mut self, members: Vec<TypeId>) -> (id: TypeId)
        requires
            forall|k: int| 0 <= k < members@.len() ==> (#[trigger] members@[k]).0 < old(self)@.len(),
        ensures
            table_wf(final(self)@),
            id.0 < final(self)@.len(),
            extends(old(self)@, final(self)@),
            flatten(old(self)@, members@).len() == 0 ==> final(self)@[id.0 as int] == TypeModel::Never,
            flatten(old(self)@, members@).len() > 0 ==> exists|ms: Seq<TypeId>|
                ascending(ms) && ms.to_set() == flatten(old(self)@, members@).to_set() && (ms.len() == 1 ==> id == ms[0])
                    && (ms.len() > 1 ==> final(self)@[id.0 as int] == TypeModel::Union(ms)),
    {
        proof {
            use_type_invariant(&*self);
        }
        let ghost table = self@;
        let mut flat: Vec<TypeId> = Vec::new();
        let mut i: usize = 0;
        while i < members.len()
            invariant
                i <= members.len(),
                table_wf(self@),
                self@ == table,
                forall|k: int| 0 <= k < members@.len() ==> (#[trigger] members@[k]).0 < self@.len(),
                forall|k: int| 0 <= k < flat@.len() ==> (#[trigger] flat@[k]).0 < self@.len(),
                flat@ == flatten(table, members@.take(i as int)),
            decreases members.len() - i,
        {
            let m = members[i];
            let t = self.ty(m);
            let ghost tv = t@;
            let ghost before = flat@;
            proof {
                assert(members@.take(i + 1).drop_last() =~= members@.take(i as int));
                assert(members@.take(i + 1).last() == m);
            }
            match t {
                Type::Never => {
                    assert(flatten(table, members@.take(i + 1)) =~= before);
                }
                Type::Union(nested) => {
                    assert(children(tv) == nested@);
                    let mut j: usize = 0;
                    while j < nested.len()
                        invariant
                            j <= nested.len(),
                            forall|k: int| 0 <= k < nested@.len() ==> (#[trigger] nested@[k]).0 < m.0,
                            m.0 < self@.len(),
                            forall|k: int| 0 <= k < flat@.len() ==> (#[trigger] flat@[k]).0 < self@.len(),
                            flat@ == before + nested@.take(j as int),
                        decreases nested.len() - j,
                    {
                        flat.push(nested[j]);
                        assert(flat@ =~= before + nested@.take(j + 1));
                        j += 1;
                    }
                    assert(nested@.take(nested@.len() as int) =~= nested@);
                    assert(flatten(table, members@.take(i + 1)) =~= before + nested@);
                }
                _ => {
                    flat.push(m);
                    assert(flatten(table, members@.take(i + 1)) =~= before + seq![m]);
                }
            }
            i += 1;
        }
        assert(members@.take(members@.len() as int) =~= members@);
        let ghost flat_view = flat@;
        let sorted = sort_dedup(flat);
        proof {
            assert(sorted@.to_set() =~= flat_view.to_set()) by {
                assert forall|x: TypeId| sorted@.to_set().contains(x) implies flat_view.to_set().contains(x) by {
                    let k = choose|k: int| 0 <= k < sorted@.len() && sorted@[k] == x;
                    assert(flat_view.contains(sorted@[k]));
                }
                assert forall|x: TypeId| flat_view.to_set().contains(x) implies sorted@.to_set().contains(x) by {
                    let k = choose|k: int| 0 <= k < flat_view.len() && flat_view[k] == x;
                    assert(sorted@.contains(flat_view[k]));
                }
            }
            if flat_view.len() > 0 {
                assert(flat_view.to_set().contains(flat_view[0]));
                assert(sorted@.len() > 0);
            } else if sorted@.len() > 0 {
                assert(flat_view.contains(sorted@[0]));
            }
            assert(flat_view == flatten(old(self)@, members@));
        }
        if sorted.len() == 0 {
            self.intern(Type::Never)
        } else if sorted.len() == 1 {
            sorted[0]
        } else {
            let ghost ms = sorted@;
            let id = self.intern(Type::Union(sorted));
            assert(self@[id.0 as int] == TypeModel::Union(ms));
            id
        }
    }

    /// How the type at `id` is written in messages.
    #[verifier::rlimit(30)]
    pub fn display(&self, id: TypeId) -> (out: String)
        ensures
            out@ == display_spec(self@, id),
        decreases id.0 + 1, 0nat,
    {
        let t = self.ty(id);
        let ghost tv = t@;
        match t {
            Type::Jvm { class, args } => {
                assert(children(tv) == args@);
                if args.len() == 0 {
                    class
                } else {
                    let mut out = class;
                    out.push_str("<");
                    out.push_str(self.display_list(&args, ", ", id).as_str());
                    out.push_str(">");
                    out
                }
            }
            Type::Var(name) => name,
            Type::Union(types) => {
                assert(children(tv) == types@);
                self.display_list(&types, " | ", id)
            }
            Type::Function { params, ret } => {
                assert(children(tv) == params@.push(ret));
                assert forall|k: int| 0 <= k < params@.len() implies (#[trigger] params@[k]).0 < id.0 by {
                    assert(children(tv)[k] == params@[k]);
                }
                assert(children(tv)[params@.len() as int] == ret);
                assert(ret.0 < id.0);
                let list = self.display_list(&params, ", ", id);
                let shown_ret = self.display(ret);
                let mut out = owned("Fn<(");
                out.push_str(list.as_str());
                out.push_str(") -> ");
                out.push_str(shown_ret.as_str());
                out.push_str(">");
                assert(out@ =~= "Fn<("@ + list@ + ") -> "@ + shown_ret@ + ">"@);
                out
            }
            Type::Capability { name, args } => {
                assert(children(tv) == args@);
                if args.len() == 0 {
                    name
                } else {
                    let mut out = name;
                    out.push_str("<");
                    out.push_str(self.display_list(&args, ", ", id).as_str());
                    out.push_str(">");
                    out
                }
            }
            Type::Nil => owned("Nil"),
            Type::Unknown => owned("Unknown"),
            Type::Dynamic => owned("Dynamic"),
            Type::Any => owned("Any"),
            Type::Never => owned("Never"),
        }
    }

    fn display_list(&self, ids: &Vec<TypeId>, sep: &str, parent: TypeId) -> (out: String)
        requires
            forall|k: int| 0 <= k < ids@.len() ==> (#[trigger] ids@[k]).0 < parent.0,
        ensures
            out@ == display_list_spec(self@, ids@, sep@, parent),
        decreases parent.0, ids@.len(),
    {
        let mut out = String::new();
        let mut i: usize = 0;
        while i < ids.len()
            invariant
                i <= ids.len(),
                forall|k: int| 0 <= k < ids@.len() ==> (#[trigger] ids@[k]).0 < parent.0,
                out@ == display_list_spec(self@, ids@.take(i as int), sep@, parent),
            decreases ids.len() - i,
        {
            let ghost before = out@;
            if i > 0 {
                out.push_str(sep);
            }
            out.push_str(self.display(ids[i]).as_str());
            proof {
                let t = ids@.take(i + 1);
                assert(t.drop_last() =~= ids@.take(i as int));
                assert(t.last() == ids@[i as int]);
                if i == 0 {
                    assert(before =~= Seq::<char>::empty());
                    assert(out@ =~= display_spec(self@, ids@[0]));
                }
            }
            i += 1;
        }
        assert(ids@.take(ids.len() as int) =~= ids@);
        out
    }
}

/// How the type at `id` of `table` is written: classes and capabilities
/// with their arguments in angle brackets, unions joined by ` | `,
/// functions as `Fn<(params) -> ret>`.
pub open spec fn display_spec(table: Seq<TypeModel>, id: TypeId) -> Seq<char>
    decreases id.0 + 1, 0nat,
{
    match type_at(table, id) {
        TypeModel::Jvm { class, args } => if args.len() == 0 {
            class
        } else {
            class + "<"@ + display_list_spec(table, args, ", "@, id) + ">"@
        },
        TypeModel::Var(name) => name,
        TypeModel::Union(ms) => display_list_spec(table, ms, " | "@, id),
        TypeModel::Function { params, ret } => "Fn<("@ + display_list_spec(table, params, ", "@, id) + ") -> "@
            + (if ret.0 < id.0 { display_spec(table, ret) } else { Seq::empty() }) + ">"@,
        TypeModel::Capability { name, args } => if args.len() == 0 {
            name
        } else {
            name + "<"@ + display_list_spec(table, args, ", "@, id) + ">"@
        },
        TypeModel::Nil => "Nil"@,
        TypeModel::Unknown => "Unknown"@,
        TypeModel::Dynamic => "Dynamic"@,
        TypeModel::Any => "Any"@,
        TypeModel::Never => "Never"@,
    }
}

/// The types `ids` written one after another with `sep` between them.
pub open spec fn display_list_spec(table: Seq<TypeModel>, ids: Seq<TypeId>, sep: Seq<char>, parent: TypeId) -> Seq<char>
    decreases parent.0, ids.len(),
{
    if ids.len() == 0 {
        Seq::empty()
    } else {
        let last = if ids.last().0 < parent.0 { display_spec(table, ids.last()) } else { Seq::empty() };
        if ids.len() == 1 {
            last
        } else {
            display_list_spec(table, ids.drop_last(), sep, parent) + sep + last
        }
    }
}

/// `ids` in ascending order without repeats.
fn sort_dedup(ids: Vec<TypeId>) -> (out: Vec<TypeId>)
    ensures
        forall|k: int| 0 <= k < out@.len() ==> ids@.contains(#[trigger] out@[k]),
        forall|k: int| 0 <= k < ids@.len() ==> out@.contains(#[trigger] ids@[k]),
        forall|a: int, b: int| 0 <= a < b < out@.len() ==> (#[trigger] out@[a]).0 < (#[trigger] out@[b]).0,
{
    let mut out: Vec<TypeId> = Vec::new();
    let mut i: usize = 0;
    while i < ids.len()
        invariant
            i <= ids.len(),
            forall|k: int| 0 <= k < out@.len() ==> ids@.contains(#[trigger] out@[k]),
            forall|k: int| 0 <= k < i ==> out@.contains(#[trigger] ids@[k]),
            forall|a: int, b: int| 0 <= a < b < out@.len() ==> (#[trigger] out@[a]).0 < (#[trigger] out@[b]).0,
        decreases ids.len() - i,
    {
        let x = ids[i];
        let mut j: usize = 0;
        while j < out.len() && out[j].0 < x.0
            invariant
                j <= out.len(),
                forall|a: int| 0 <= a < j ==> (#[trigger] out@[a]).0 < x.0,
            decreases out.len() - j,
        {
            j += 1;
        }
        if j == out.len() || out[j].0 != x.0 {
            let ghost before = out@;
            assert(ids@[i as int] == x);
            out.insert(j, x);
            proof {
                assert forall|k: int| 0 <= k < out@.len() implies ids@.contains(#[trigger] out@[k]) by {
                    if k < j {
                        assert(out@[k] == before[k]);
                    } else if k > j {
                        assert(out@[k] == before[k - 1]);
                    }
                }
                assert forall|a: int, b: int| 0 <= a < b < out@.len() implies (#[trigger] out@[a]).0 < (#[trigger] out@[b]).0 by {
                    if b < j {
                        assert(out@[a] == before[a] && out@[b] == before[b]);
                    } else if b == j {
                        assert(out@[a] == before[a]);
                    } else if a < j {
                        assert(out@[a] == before[a] && out@[b] == before[b - 1]);
                        assert(before[j as int].0 > x.0 || j == before.len());
                        if (b - 1) > j {
                            assert(before[j as int].0 < before[b - 1].0);
                        }
                    } else if a == j {
                        assert(out@[b] == before[b - 1]);
                        if (b - 1) > j {
                            assert(before[j as int].0 < before[b - 1].0);
                        }
                    } else {
                        assert(out@[a] == before[a - 1] && out@[b] == before[b - 1]);
                    }
                }
                assert forall|k: int| 0 <= k < i + 1 implies out@.contains(#[trigger] ids@[k]) by {
                    if k == i {
                        assert(out@[j as int] == x);
                    } else {
                        let w = choose|w: int| 0 <= w < before.len() && before[w] == ids@[k];
                        if w < j {
                            assert(out@[w] == before[w]);
                        } else {
                            assert(out@[w + 1] == before[w]);
                        }
                    }
                }
            }
        } else {
            proof {
                assert(out@[j as int].0 == x.0);
                assert(out@[j as int] == x);
                assert(out@.contains(ids@[i as int]));
            }
        }
        i += 1;
    }
    out
}

} // verus!
