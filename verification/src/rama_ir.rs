//! Semantic view of a parsed `.rama` program.
//!
//! The parser AST preserves source syntax. `Program` adds the context needed by
//! validation and lowering: declaration tables and explicit fn/op body kinds.
//! It borrows syntax nodes so diagnostics keep the source spans they came from.
//! A later declaration of a name shadows an earlier one.

use vstd::prelude::*;
use crate::ast::{Block, DepotDecl, ExternDecl, FnDef, Item, ModuleDecl, OpDef, PStateDecl, SourceFile, StructDecl, TypeExpr};
use crate::span::Span;
use crate::text::str_eq;

verus! {

#[derive(Debug, Clone, Copy, PartialEq, Eq, Structural)]
pub enum BodyKind {
    Fn,
    Op,
}

#[derive(Debug, Clone, Copy)]
pub struct Body<'a> {
    pub kind: BodyKind,
    pub name: &'a str,
    pub block: &'a Block,
    pub span: Span,
}

/// Normalized semantic context consumed by rules and target lowering.
#[derive(Debug)]
pub struct Program<'a> {
    pub source: &'a SourceFile,
    pub module_name: &'a str,
    /// Clojure namespace; falls back to the module class name.
    pub namespace: &'a str,
    /// Stream topology name; `main` unless declared.
    pub topology: &'a str,
    pub structs: Vec<&'a StructDecl>,
    pub pstates: Vec<&'a PStateDecl>,
    pub depots: Vec<&'a DepotDecl>,
    pub functions: Vec<&'a FnDef>,
    pub externs: Vec<&'a ExternDecl>,
    pub operations: Vec<&'a OpDef>,
    pub bodies: Vec<Body<'a>>,
}

/// The struct declarations among `items`, in order.
pub open spec fn structs_in(items: Seq<Item>) -> Seq<StructDecl>
    decreases items.len(),
{
    if items.len() == 0 {
        Seq::empty()
    } else {
        structs_in(items.drop_last()) + match items.last() {
            Item::Struct(d) => seq![d],
            _ => Seq::empty(),
        }
    }
}

/// The pstate declarations among `items`, in order.
pub open spec fn pstates_in(items: Seq<Item>) -> Seq<PStateDecl>
    decreases items.len(),
{
    if items.len() == 0 {
        Seq::empty()
    } else {
        pstates_in(items.drop_last()) + match items.last() {
            Item::PState(d) => seq![d],
            _ => Seq::empty(),
        }
    }
}

/// The depot declarations among `items`, in order.
pub open spec fn depots_in(items: Seq<Item>) -> Seq<DepotDecl>
    decreases items.len(),
{
    if items.len() == 0 {
        Seq::empty()
    } else {
        depots_in(items.drop_last()) + match items.last() {
            Item::Depot(d) => seq![d],
            _ => Seq::empty(),
        }
    }
}

/// The `fn` definitions among `items`, in order.
pub open spec fn functions_in(items: Seq<Item>) -> Seq<FnDef>
    decreases items.len(),
{
    if items.len() == 0 {
        Seq::empty()
    } else {
        functions_in(items.drop_last()) + match items.last() {
            Item::Fn(d) => seq![d],
            _ => Seq::empty(),
        }
    }
}

/// The extern declarations among `items`, in order.
pub open spec fn externs_in(items: Seq<Item>) -> Seq<ExternDecl>
    decreases items.len(),
{
    if items.len() == 0 {
        Seq::empty()
    } else {
        externs_in(items.drop_last()) + match items.last() {
            Item::Extern(d) => seq![d],
            _ => Seq::empty(),
        }
    }
}

/// The op definitions among `items`, in order.
pub open spec fn operations_in(items: Seq<Item>) -> Seq<OpDef>
    decreases items.len(),
{
    if items.len() == 0 {
        Seq::empty()
    } else {
        operations_in(items.drop_last()) + match items.last() {
            Item::Op(d) => seq![d],
            _ => Seq::empty(),
        }
    }
}

/// A body as plain values: its kind, name, statements and span.
pub open spec fn body_view(b: Body) -> (BodyKind, Seq<char>, Block, Span) {
    (b.kind, b.name@, *b.block, b.span)
}

/// The `fn` and op bodies among `items`, in item order.
pub open spec fn bodies_in(items: Seq<Item>) -> Seq<(BodyKind, Seq<char>, Block, Span)>
    decreases items.len(),
{
    if items.len() == 0 {
        Seq::empty()
    } else {
        bodies_in(items.drop_last()) + match items.last() {
            Item::Fn(f) => seq![(BodyKind::Fn, f.name.node@, f.body, f.span)],
            Item::Op(op) => seq![(BodyKind::Op, op.name.node@, op.body, op.span)],
            _ => Seq::empty(),
        }
    }
}

/// The last module declaration among `items`.
pub open spec fn last_module(items: Seq<Item>) -> Option<ModuleDecl>
    decreases items.len(),
{
    if items.len() == 0 {
        None
    } else {
        match items.last() {
            Item::Module(m) => Some(m),
            _ => last_module(items.drop_last()),
        }
    }
}

/// The module name: the last module's, `Generated` without one.
pub open spec fn module_name_in(items: Seq<Item>) -> Seq<char> {
    match last_module(items) {
        Some(m) => m.name.node@,
        None => "Generated"@,
    }
}

/// The namespace: the last module's when it declares one, else the module
/// name.
pub open spec fn namespace_in(items: Seq<Item>) -> Seq<char> {
    match last_module(items) {
        Some(m) => match m.namespace {
            Some(n) => n@,
            None => m.name.node@,
        },
        None => "Generated"@,
    }
}

/// The topology: the last one any module declares, `main` without one.
pub open spec fn topology_in(items: Seq<Item>) -> Seq<char>
    decreases items.len(),
{
    if items.len() == 0 {
        "main"@
    } else {
        match items.last() {
            Item::Module(m) => match m.topology {
                Some(t) => t@,
                None => topology_in(items.drop_last()),
            },
            _ => topology_in(items.drop_last()),
        }
    }
}

pub open spec fn deref_structs(ds: Seq<&StructDecl>) -> Seq<StructDecl> {
    ds.map_values(|d: &StructDecl| *d)
}

pub open spec fn deref_pstates(ds: Seq<&PStateDecl>) -> Seq<PStateDecl> {
    ds.map_values(|d: &PStateDecl| *d)
}

pub open spec fn deref_depots(ds: Seq<&DepotDecl>) -> Seq<DepotDecl> {
    ds.map_values(|d: &DepotDecl| *d)
}

pub open spec fn deref_functions(ds: Seq<&FnDef>) -> Seq<FnDef> {
    ds.map_values(|d: &FnDef| *d)
}

pub open spec fn deref_externs(ds: Seq<&ExternDecl>) -> Seq<ExternDecl> {
    ds.map_values(|d: &ExternDecl| *d)
}

pub open spec fn deref_operations(ds: Seq<&OpDef>) -> Seq<OpDef> {
    ds.map_values(|d: &OpDef| *d)
}

pub open spec fn body_views(bs: Seq<Body>) -> Seq<(BodyKind, Seq<char>, Block, Span)> {
    bs.map_values(|b: Body| body_view(b))
}

/// The last struct of `structs` declared under `name`.
pub open spec fn last_struct(structs: Seq<&StructDecl>, name: Seq<char>) -> Option<StructDecl>
    decreases structs.len(),
{
    if structs.len() == 0 {
        None
    } else if structs.last().name.node@ == name {
        Some(*structs.last())
    } else {
        last_struct(structs.drop_last(), name)
    }
}

/// `p` holds the declaration tables of `source`, in item order.
pub open spec fn built_from(p: Program, source: SourceFile) -> bool {
    &&& p.source == source
    &&& p.module_name@ == module_name_in(source.items@)
    &&& p.namespace@ == namespace_in(source.items@)
    &&& p.topology@ == topology_in(source.items@)
    &&& deref_structs(p.structs@) == structs_in(source.items@)
    &&& deref_pstates(p.pstates@) == pstates_in(source.items@)
    &&& deref_depots(p.depots@) == depots_in(source.items@)
    &&& deref_functions(p.functions@) == functions_in(source.items@)
    &&& deref_externs(p.externs@) == externs_in(source.items@)
    &&& deref_operations(p.operations@) == operations_in(source.items@)
    &&& body_views(p.bodies@) == bodies_in(source.items@)
    &&& p.bodies@.len() == p.functions@.len() + p.operations@.len()
}

impl<'a> Program<'a> {
    /// Declaration tables of `source`, in item order.
    pub fn from_ast(source: &'a SourceFile) -> (out: Self)
        ensures
            built_from(out, *source),
            out.source == source,
            out.module_name@ == module_name_in(source.items@),
            out.namespace@ == namespace_in(source.items@),
            out.topology@ == topology_in(source.items@),
            deref_structs(out.structs@) == structs_in(source.items@),
            deref_pstates(out.pstates@) == pstates_in(source.items@),
            deref_depots(out.depots@) == depots_in(source.items@),
            deref_functions(out.functions@) == functions_in(source.items@),
            deref_externs(out.externs@) == externs_in(source.items@),
            deref_operations(out.operations@) == operations_in(source.items@),
            body_views(out.bodies@) == bodies_in(source.items@),
            out.bodies@.len() == out.functions@.len() + out.operations@.len(),
    {
        let ghost items = source.items@;
        let mut module_name: &'a str = "Generated";
        let mut namespace: Option<&'a str> = None;
        let mut topology: &'a str = "main";
        let mut structs: Vec<&'a StructDecl> = Vec::new();
        let mut pstates: Vec<&'a PStateDecl> = Vec::new();
        let mut depots: Vec<&'a DepotDecl> = Vec::new();
        let mut functions: Vec<&'a FnDef> = Vec::new();
        let mut externs: Vec<&'a ExternDecl> = Vec::new();
        let mut operations: Vec<&'a OpDef> = Vec::new();
        let mut bodies: Vec<Body<'a>> = Vec::new();
        let mut i: usize = 0;
        proof {
            assert(items.take(0) =~= Seq::<Item>::empty());
            assert(deref_structs(structs@) =~= Seq::<StructDecl>::empty());
            assert(deref_pstates(pstates@) =~= Seq::<PStateDecl>::empty());
            assert(deref_depots(depots@) =~= Seq::<DepotDecl>::empty());
            assert(deref_functions(functions@) =~= Seq::<FnDef>::empty());
            assert(deref_externs(externs@) =~= Seq::<ExternDecl>::empty());
            assert(deref_operations(operations@) =~= Seq::<OpDef>::empty());
            assert(body_views(bodies@) =~= Seq::<(BodyKind, Seq<char>, Block, Span)>::empty());
        }
        while i < source.items.len()
            invariant
                i <= source.items.len(),
                items == source.items@,
                bodies@.len() == functions@.len() + operations@.len(),
                module_name@ == module_name_in(items.take(i as int)),
                namespace_in(items.take(i as int)) == match namespace {
                    Some(n) => n@,
                    None => module_name@,
                },
                topology@ == topology_in(items.take(i as int)),
                deref_structs(structs@) == structs_in(items.take(i as int)),
                deref_pstates(pstates@) == pstates_in(items.take(i as int)),
                deref_depots(depots@) == depots_in(items.take(i as int)),
                deref_functions(functions@) == functions_in(items.take(i as int)),
                deref_externs(externs@) == externs_in(items.take(i as int)),
                deref_operations(operations@) == operations_in(items.take(i as int)),
                body_views(bodies@) == bodies_in(items.take(i as int)),
            decreases source.items.len() - i,
        {
            let ghost prefix = items.take(i as int);
            let ghost next = items.take(i + 1);
            proof {
                assert(next.drop_last() =~= prefix);
                assert(next.last() == items[i as int]);
            }
            let ghost s0 = structs@;
            let ghost p0 = pstates@;
            let ghost d0 = depots@;
            let ghost f0 = functions@;
            let ghost e0 = externs@;
            let ghost o0 = operations@;
            let ghost b0 = bodies@;
            match &source.items[i] {
                Item::Module(m) => {
                    module_name = m.name.node.as_str();
                    namespace = match &m.namespace {
                        Some(n) => Some(n.as_str()),
                        None => None,
                    };
                    match &m.topology {
                        Some(t) => { topology = t.as_str(); }
                        None => {}
                    }
                }
                Item::Struct(s) => { structs.push(s); }
                Item::PState(p) => { pstates.push(p); }
                Item::Depot(d) => { depots.push(d); }
                Item::Fn(f) => {
                    functions.push(f);
                    bodies.push(Body { kind: BodyKind::Fn, name: f.name.node.as_str(), block: &f.body, span: f.span });
                }
                Item::Op(op) => {
                    operations.push(op);
                    bodies.push(Body { kind: BodyKind::Op, name: op.name.node.as_str(), block: &op.body, span: op.span });
                }
                Item::Extern(e) => { externs.push(e); }
            }
            proof {
                assert(deref_structs(structs@) =~= deref_structs(s0) + match items[i as int] {
                    Item::Struct(d) => seq![d],
                    _ => Seq::empty(),
                });
                assert(deref_pstates(pstates@) =~= deref_pstates(p0) + match items[i as int] {
                    Item::PState(d) => seq![d],
                    _ => Seq::empty(),
                });
                assert(deref_depots(depots@) =~= deref_depots(d0) + match items[i as int] {
                    Item::Depot(d) => seq![d],
                    _ => Seq::empty(),
                });
                assert(deref_functions(functions@) =~= deref_functions(f0) + match items[i as int] {
                    Item::Fn(d) => seq![d],
                    _ => Seq::empty(),
                });
                assert(deref_externs(externs@) =~= deref_externs(e0) + match items[i as int] {
                    Item::Extern(d) => seq![d],
                    _ => Seq::empty(),
                });
                assert(deref_operations(operations@) =~= deref_operations(o0) + match items[i as int] {
                    Item::Op(d) => seq![d],
                    _ => Seq::empty(),
                });
                assert(body_views(bodies@) =~= body_views(b0) + match items[i as int] {
                    Item::Fn(f) => seq![(BodyKind::Fn, f.name.node@, f.body, f.span)],
                    Item::Op(op) => seq![(BodyKind::Op, op.name.node@, op.body, op.span)],
                    _ => Seq::empty(),
                });
            }
            i += 1;
        }
        proof {
            assert(items.take(items.len() as int) =~= items);
        }
        let namespace = match namespace {
            Some(n) => n,
            None => module_name,
        };
        Program {
            source,
            module_name,
            namespace,
            topology,
            structs,
            pstates,
            depots,
            functions,
            externs,
            operations,
            bodies,
        }
    }

    /// The struct declared under `name` (the last one, if repeated).
    pub fn struct_decl(&self, name: &str) -> (out: Option<&'a StructDecl>)
        ensures
            out matches Some(s) ==> s.name.node@ == name@,
            out is None ==> forall|j: int| 0 <= j < self.structs@.len() ==> self.structs@[j].name.node@ != name@,
            match out {
                Some(s) => last_struct(self.structs@, name@) == Some(*s),
                None => last_struct(self.structs@, name@) is None,
            },
    {
        let mut i = self.structs.len();
        assert(self.structs@.take(i as int) =~= self.structs@);
        while i > 0
            invariant
                i <= self.structs.len(),
                forall|j: int| i <= j < self.structs@.len() ==> self.structs@[j].name.node@ != name@,
                last_struct(self.structs@, name@) == last_struct(self.structs@.take(i as int), name@),
            decreases i,
        {
            assert(self.structs@.take(i as int).drop_last() =~= self.structs@.take(i - 1));
            assert(self.structs@.take(i as int).last() == self.structs@[i - 1]);
            i -= 1;
            if str_eq(self.structs[i].name.node.as_str(), name) {
                return Some(self.structs[i]);
            }
        }
        None
    }

    /// The pstate declared under `name` (the last one, if repeated).
    pub fn pstate_decl(&self, name: &str) -> (out: Option<&'a PStateDecl>)
        ensures
            out matches Some(p) ==> p.name.node@ == name@,
            out matches Some(p) ==> exists|j: int| 0 <= j < self.pstates@.len() && self.pstates@[j] == p,
            out is None ==> forall|j: int| 0 <= j < self.pstates@.len() ==> self.pstates@[j].name.node@ != name@,
    {
        let mut i = self.pstates.len();
        while i > 0
            invariant
                i <= self.pstates.len(),
                forall|j: int| i <= j < self.pstates@.len() ==> self.pstates@[j].name.node@ != name@,
            decreases i,
        {
            i -= 1;
            if str_eq(self.pstates[i].name.node.as_str(), name) {
                assert(self.pstates@[i as int] == self.pstates[i as int]);
                return Some(self.pstates[i]);
            }
        }
        None
    }

    /// Whether a pstate named `name` is declared.
    pub fn has_pstate(&self, name: &str) -> (r: bool)
        ensures
            r == exists|i: int| 0 <= i < self.pstates@.len() && self.pstates@[i].name.node@ == name@,
    {
        let mut i: usize = 0;
        while i < self.pstates.len()
            invariant
                i <= self.pstates.len(),
                forall|j: int| 0 <= j < i ==> self.pstates@[j].name.node@ != name@,
            decreases self.pstates.len() - i,
        {
            if str_eq(self.pstates[i].name.node.as_str(), name) {
                return true;
            }
            i += 1;
        }
        false
    }

    pub fn pstate_type(&self, name: &str) -> (out: Option<&'a TypeExpr>)
        ensures
            out is Some <==> exists|i: int| 0 <= i < self.pstates@.len() && self.pstates@[i].name.node@ == name@,
    {
        match self.pstate_decl(name) {
            Some(p) => {
                proof {
                    let k = choose|k: int| 0 <= k < self.pstates@.len() && self.pstates@[k] == p;
                    assert(self.pstates@[k].name.node@ == name@);
                }
                Some(&p.ty.node)
            }
            None => None,
        }
    }
}

} // verus!
