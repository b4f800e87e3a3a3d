//! Checking typed `fn` bodies and annotated ops, and the entry points.

use vstd::prelude::*;
use crate::ast::{BindingTarget, Block, Expr, FnDef, Item, LetPattern, OpDef, Stmt, StructDecl, StructField, ValueTypeExpr};
use crate::error::Diagnostic;
use crate::rama_ir::Program;
use crate::text::{cat, owned};
use crate::types::checker::{copy_entries, entries_below, Checker};
use crate::types::model::{capability, function, generic, has_function, ids_below, is_typed_function, simple, typed_function_spec, union, var, NoOracle, Signature, SignatureSource, TypeOracle, TypedFunction, Typing};
use crate::types::paths::{field_schema, find_field, schema_value_model, text_entry_get, text_lookup, PathMode};
use crate::types::{Type, TypeId, TypeModel};

verus! {

/// A local bound to an event field: the field's name, typed by the
/// field's value type, or `Unknown` when the struct has no such field.
pub open spec fn event_field_bound(table: Seq<TypeModel>, entry: (String, TypeId), name: Seq<char>, fields: Seq<StructField>) -> bool {
    &&& entry.0@ == name
    &&& entry.1.0 < table.len()
    &&& table[entry.1.0 as int] == match field_schema(fields, name) {
        Some(schema) => schema_value_model(schema),
        None => TypeModel::Unknown,
    }
}

/// The names of local entries, in order.
pub open spec fn entry_names(ls: Seq<(String, TypeId)>) -> Seq<Seq<char>> {
    ls.map_values(|e: (String, TypeId)| e.0@)
}

pub open spec fn spanned_names(ns: Seq<crate::span::Spanned<String>>) -> Seq<Seq<char>> {
    ns.map_values(|n: crate::span::Spanned<String>| n.node@)
}

/// The locals an op statement binds: a `let` its name or its destructured
/// names (none when it destructures an event whose struct is not
/// declared), a `select` its target; other statements bind none outside
/// their own blocks.
pub open spec fn stmt_binds(s: Stmt, events: Seq<(String, String)>, structs: Seq<&StructDecl>) -> Seq<Seq<char>> {
    match s {
        Stmt::Let { pattern, value, .. } => match pattern {
            LetPattern::Name(n) => seq![n.node@],
            LetPattern::Destructure(names) => if value is Ident && text_lookup(events, value->Ident_0.node@) is Some
                && crate::rama_ir::last_struct(structs, text_lookup(events, value->Ident_0.node@)->0) is None {
                Seq::empty()
            } else {
                spanned_names(names@)
            },
        },
        Stmt::Select { target, .. } => match target {
            BindingTarget::Name(n) => seq![n.node@],
            BindingTarget::Destructure(names) => spanned_names(names@),
        },
        _ => Seq::empty(),
    }
}

/// The locals the statements bind, in order.
pub open spec fn block_binds(ss: Seq<Stmt>, events: Seq<(String, String)>, structs: Seq<&StructDecl>) -> Seq<Seq<char>>
    decreases ss.len(),
{
    if ss.len() == 0 {
        Seq::empty()
    } else {
        block_binds(ss.drop_last(), events, structs) + stmt_binds(ss.last(), events, structs)
    }
}

/// The diagnostics of a statement that destructures an event parameter:
/// one per name its struct lacks (none when the struct is unknown).
/// `None` for other statements.
pub open spec fn event_diags(s: Stmt, events: Seq<(String, String)>, structs: Seq<&StructDecl>) -> Option<Seq<(crate::error::DiagnosticKind, crate::span::Span, Seq<char>)>> {
    match s {
        Stmt::Let { pattern, value, .. } => match pattern {
            LetPattern::Destructure(names) => if value is Ident && text_lookup(events, value->Ident_0.node@) is Some {
                let sn = text_lookup(events, value->Ident_0.node@)->0;
                match crate::rama_ir::last_struct(structs, sn) {
                    None => Some(Seq::empty()),
                    Some(d) => Some(missing_field_diags(sn, names@, d.fields@)),
                }
            } else {
                None
            },
            _ => None,
        },
        _ => None,
    }
}

/// The locals a statement that destructures an event parameter binds: one
/// per name, typed by its field's schema (`Unknown` for a missing field);
/// none when the struct is unknown. Other statements are not constrained.
pub open spec fn event_locals_ok(
    s: Stmt,
    part: Seq<(String, TypeId)>,
    events: Seq<(String, String)>,
    structs: Seq<&StructDecl>,
    table: Seq<crate::types::TypeModel>,
) -> bool {
    match s {
        Stmt::Let { pattern, value, .. } => match pattern {
            LetPattern::Destructure(names) => value is Ident && text_lookup(events, value->Ident_0.node@) is Some ==> match crate::rama_ir::last_struct(
                structs,
                text_lookup(events, value->Ident_0.node@)->0,
            ) {
                None => part.len() == 0,
                Some(d) => part.len() == names@.len() && forall|k: int|
                    0 <= k < part.len() ==> event_field_bound(table, #[trigger] part[k], names@[k].node@, d.fields@),
            },
            _ => true,
        },
        _ => true,
    }
}

/// The parts joined in order.
pub open spec fn flatten_locals(parts: Seq<Seq<(String, TypeId)>>) -> Seq<(String, TypeId)>
    decreases parts.len(),
{
    if parts.len() == 0 {
        Seq::empty()
    } else {
        flatten_locals(parts.drop_last()) + parts.last()
    }
}

/// The locals a block adds, statement by statement; those of an
/// event-destructuring statement typed by the event struct's fields.
pub open spec fn block_event_locals(
    added: Seq<(String, TypeId)>,
    stmts: Seq<Stmt>,
    events: Seq<(String, String)>,
    structs: Seq<&StructDecl>,
    table: Seq<crate::types::TypeModel>,
) -> bool {
    exists|parts: Seq<Seq<(String, TypeId)>>|
        #[trigger] parts.len() == stmts.len() && added == flatten_locals(parts) && forall|i: int|
            0 <= i < stmts.len() ==> event_locals_ok(#[trigger] stmts[i], parts[i], events, structs, table)
}

proof fn lemma_event_locals_extend(
    s: Stmt,
    part: Seq<(String, TypeId)>,
    events: Seq<(String, String)>,
    structs: Seq<&StructDecl>,
    t1: Seq<crate::types::TypeModel>,
    t2: Seq<crate::types::TypeModel>,
)
    requires
        event_locals_ok(s, part, events, structs, t1),
        crate::types::extends(t1, t2),
    ensures
        event_locals_ok(s, part, events, structs, t2),
{
    if let Stmt::Let { pattern, value, .. } = s {
        if let LetPattern::Destructure(names) = pattern {
            if value is Ident && text_lookup(events, value->Ident_0.node@) is Some {
                if let Some(d) = crate::rama_ir::last_struct(structs, text_lookup(events, value->Ident_0.node@)->0) {
                    assert forall|k: int| 0 <= k < part.len() implies event_field_bound(t2, #[trigger] part[k], names@[k].node@, d.fields@) by {
                        assert(t2[part[k].1.0 as int] == t1[part[k].1.0 as int]);
                    }
                }
            }
        }
    }
}

/// The parts joined in order.
pub open spec fn flatten_diags(parts: Seq<Seq<(crate::error::DiagnosticKind, crate::span::Span, Seq<char>)>>) -> Seq<(crate::error::DiagnosticKind, crate::span::Span, Seq<char>)>
    decreases parts.len(),
{
    if parts.len() == 0 {
        Seq::empty()
    } else {
        flatten_diags(parts.drop_last()) + parts.last()
    }
}

/// `after` is `before` followed by one part per statement, the part of an
/// event-destructuring statement being its missing-field diagnostics.
pub open spec fn block_diags(
    before: Seq<Diagnostic>,
    after: Seq<Diagnostic>,
    stmts: Seq<Stmt>,
    events: Seq<(String, String)>,
    structs: Seq<&StructDecl>,
) -> bool {
    exists|parts: Seq<Seq<(crate::error::DiagnosticKind, crate::span::Span, Seq<char>)>>|
        #[trigger] parts.len() == stmts.len() && diag_views(after) == diag_views(before) + flatten_diags(parts) && forall|i: int|
            0 <= i < stmts.len() ==> (event_diags(#[trigger] stmts[i], events, structs) matches Some(d) ==> parts[i] == d)
}

proof fn lemma_diag_views_extend(before: Seq<Diagnostic>, after: Seq<Diagnostic>)
    requires
        crate::types::model::diags_extend(before, after),
    ensures
        diag_views(after) == diag_views(before) + diag_views(after).skip(before.len() as int),
{
    assert(diag_views(after) =~= diag_views(before) + diag_views(after).skip(before.len() as int));
}

/// A diagnostic as plain values: kind, span and message.
pub open spec fn diag_view(d: Diagnostic) -> (crate::error::DiagnosticKind, crate::span::Span, Seq<char>) {
    (d.kind, d.span, d.message@)
}

pub open spec fn diag_views(ds: Seq<Diagnostic>) -> Seq<(crate::error::DiagnosticKind, crate::span::Span, Seq<char>)> {
    ds.map_values(|d: Diagnostic| diag_view(d))
}

/// One type error per destructured name the event struct lacks, naming
/// the fields it has.
pub open spec fn missing_field_diags(struct_name: Seq<char>, names: Seq<crate::span::Spanned<String>>, fields: Seq<StructField>) -> Seq<(crate::error::DiagnosticKind, crate::span::Span, Seq<char>)>
    decreases names.len(),
{
    if names.len() == 0 {
        Seq::empty()
    } else {
        let n = names.last();
        missing_field_diags(struct_name, names.drop_last(), fields) + if field_schema(fields, n.node@) is None {
            seq![(
                crate::error::DiagnosticKind::Type,
                n.span,
                "event struct `"@ + struct_name + "` has no field `"@ + n.node@ + "`; available: "@ + crate::text::join_seq(
                    crate::types::paths::field_names(fields),
                    ", "@,
                ),
            )]
        } else {
            Seq::empty()
        }
    }
}

/// A signature's name, arity and source.
pub open spec fn prelude_view(s: Signature) -> (Seq<char>, nat, SignatureSource) {
    (s.name@, s.params@.len(), s.source)
}

pub open spec fn prelude_views(ss: Seq<Signature>) -> Seq<(Seq<char>, nat, SignatureSource)> {
    ss.map_values(|s: Signature| prelude_view(s))
}

/// Signatures appended in two rounds are the first round's followed by
/// the second's.
proof fn lemma_prelude_compose(s0: Seq<Signature>, s1: Seq<Signature>, s2: Seq<Signature>)
    requires
        s1.len() >= s0.len(),
        s2.len() >= s1.len(),
        s1.take(s0.len() as int) == s0,
        s2.take(s1.len() as int) == s1,
    ensures
        s2.take(s0.len() as int) == s0,
        s2.len() >= s0.len(),
        prelude_views(s2.skip(s0.len() as int)) == prelude_views(s1.skip(s0.len() as int)) + prelude_views(s2.skip(s1.len() as int)),
{
    assert(s2.take(s0.len() as int) =~= s1.take(s0.len() as int));
    assert(s2.skip(s0.len() as int) =~= s1.skip(s0.len() as int) + s2.skip(s1.len() as int)) by {
        assert forall|k: int| 0 <= k < s1.len() - s0.len() implies s2.skip(s0.len() as int)[k] == s1.skip(s0.len() as int)[k] by {
            assert(s2.take(s1.len() as int)[s0.len() + k] == s2[s0.len() + k]);
        }
    }
    assert(prelude_views(s2.skip(s0.len() as int)) =~= prelude_views(s1.skip(s0.len() as int)) + prelude_views(s2.skip(s1.len() as int)));
}

proof fn lemma_appended(
    before: Seq<Signature>,
    after: Seq<Signature>,
    base: int,
    acc: Seq<(Seq<char>, nat, SignatureSource)>,
    added: (Seq<char>, nat, SignatureSource),
)
    requires
        0 <= base <= before.len(),
        after.len() == before.len() + 1,
        after.drop_last() == before,
        prelude_views(before.skip(base)) == acc,
        prelude_view(after.last()) == added,
    ensures
        prelude_views(after.skip(base)) == acc.push(added),
        after.take(base) == before.take(base),
{
    assert(after.skip(base) =~= before.skip(base).push(after.last()));
    assert(prelude_views(after.skip(base)) =~= prelude_views(before.skip(base)).push(prelude_view(after.last())));
    assert(after.take(base) =~= before.take(base));
}

impl<'a, O: TypeOracle> Checker<'a, O> {
    /// A checker over `program` with the prelude, the program's externs and
    /// its typed function signatures registered.
    pub fn new(program: &'a Program<'a>, oracle: Option<&'a O>) -> (out: Self)
        ensures
            out.wf(),
            out.program == program,
            out.oracle == oracle,
    {
        let mut checker = Checker { program, oracle, typing: Typing::new(), signatures: Vec::new() };
        checker.install_prelude();
        checker.collect_externs();
        checker.collect_functions();
        checker
    }

    /// Checks every typed `fn` and annotated op, in item order.
    #[verifier::loop_isolation(false)]
    pub fn run(self) -> (out: Typing)
        requires
            self.wf(),
        ensures
            out.wf(),
            forall|j: int| 0 <= j < self.program.source.items@.len() ==> match #[trigger] self.program.source.items@[j] {
                Item::Fn(f) => typed_function_spec(f) ==> has_function(out.functions@, f.name.node@),
                _ => true,
            },
    {
        let mut checker = self;
        let items = &checker.program.source.items;
        let mut i: usize = 0;
        while i < items.len()
            invariant
                i <= items.len(),
                items == &checker.program.source.items,
                checker.program == self.program,
                checker.wf(),
                forall|j: int| 0 <= j < i ==> match #[trigger] items@[j] {
                    Item::Fn(f) => typed_function_spec(f) ==> has_function(checker.typing.functions@, f.name.node@),
                    _ => true,
                },
            decreases items.len() - i,
        {
            match &items[i] {
                Item::Fn(function) => checker.check_function(function),
                Item::Op(op) => checker.check_op(op),
                _ => {},
            }
            i += 1;
        }
        checker.typing
    }

    /// Checks an op whose parameters carry annotations; an event parameter
    /// typed by a struct binds its fields when destructured.
    #[verifier::loop_isolation(false)]
    pub fn check_op(&mut self, op: &OpDef)
        requires
            old(self).wf(),
        ensures
            final(self).wf(),
            old(self).n() <= final(self).n(),
            final(self).signatures == old(self).signatures,
            final(self).program == old(self).program,
            final(self).oracle == old(self).oracle,
            final(self).typing.functions == old(self).typing.functions,
            crate::types::model::diags_extend(old(self).typing.diagnostics@, final(self).typing.diagnostics@),
            crate::types::extends(old(self).typing.table@, final(self).typing.table@),
    {
        let mut annotated = false;
        let mut p: usize = 0;
        while p < op.params.len()
            invariant
                p <= op.params.len(),
            decreases op.params.len() - p,
        {
            if op.params[p].ty.is_some() {
                annotated = true;
            }
            p += 1;
        }
        if !annotated {
            return;
        }
        let mut locals: Vec<(String, TypeId)> = Vec::new();
        let mut event_params: Vec<(String, String)> = Vec::new();
        let no_vars: Vec<String> = Vec::new();
        let mut i: usize = 0;
        while i < op.params.len()
            invariant
                i <= op.params.len(),
                self.wf(),
                old(self).n() <= self.n(),
                entries_below(locals@, self.n()),
                self.signatures == old(self).signatures,
                self.program == old(self).program,
                self.oracle == old(self).oracle,
                self.typing.functions == old(self).typing.functions,
                crate::types::model::diags_extend(old(self).typing.diagnostics@, self.typing.diagnostics@),
                crate::types::extends(old(self).typing.table@, self.typing.table@),
            decreases op.params.len() - i,
        {
            let param = &op.params[i];
            let ty = match &param.ty {
                Some(annotation) => {
                    let event_struct = match &annotation.node {
                        ValueTypeExpr::Named { path, args } => args.len() == 0 && self.struct_fields(path.as_str()).is_some(),
                        _ => false,
                    };
                    if event_struct {
                        if let ValueTypeExpr::Named { path, .. } = &annotation.node {
                            event_params.push((param.name.node.clone(), path.clone()));
                        }
                        self.leaf(Type::Dynamic)
                    } else {
                        self.resolve_type(&annotation.node, &no_vars, annotation.span)
                    }
                }
                None => self.leaf(Type::Dynamic),
            };
            locals.push((param.name.node.clone(), ty));
            i += 1;
        }
        self.check_op_block(&op.body, &mut locals, &event_params);
    }

    /// Checks the statements of an op body in order.
    #[verifier::loop_isolation(false)]
    pub fn check_op_block(
        &mut self,
        block: &Block,
        locals: &mut Vec<(String, TypeId)>,
        event_params: &Vec<(String, String)>,
    )
        requires
            old(self).wf(),
            entries_below(old(locals)@, old(self).n()),
        ensures
            final(self).wf(),
            old(self).n() <= final(self).n(),
            entries_below(final(locals)@, final(self).n()),
            final(self).signatures == old(self).signatures,
            final(self).program == old(self).program,
            final(self).oracle == old(self).oracle,
            final(self).typing.functions == old(self).typing.functions,
            crate::types::model::diags_extend(old(self).typing.diagnostics@, final(self).typing.diagnostics@),
            crate::types::extends(old(self).typing.table@, final(self).typing.table@),
            final(locals)@.len() >= old(locals)@.len(),
            final(locals)@.take(old(locals)@.len() as int) == old(locals)@,
            entry_names(final(locals)@.skip(old(locals)@.len() as int)) == block_binds(block.stmts@, event_params@, old(self).program.structs@),
            block_diags(old(self).typing.diagnostics@, final(self).typing.diagnostics@, block.stmts@, event_params@, old(self).program.structs@),
            block_event_locals(
                final(locals)@.skip(old(locals)@.len() as int),
                block.stmts@,
                event_params@,
                old(self).program.structs@,
                final(self).typing.table@,
            ),
        decreases block,
    {
        let ghost mut lparts: Seq<Seq<(String, TypeId)>> = Seq::empty();
        let ghost mut parts: Seq<Seq<(crate::error::DiagnosticKind, crate::span::Span, Seq<char>)>> = Seq::empty();
        let ghost dg0 = diag_views(self.typing.diagnostics@);
        proof {
            assert(dg0 + flatten_diags(parts) =~= dg0);
        }
        let ghost l0 = locals@;
        let ghost structs = self.program.structs@;
        proof {
            assert(block.stmts@.take(0) =~= Seq::<Stmt>::empty());
            assert(locals@.skip(l0.len() as int) =~= Seq::<(String, TypeId)>::empty());
            assert(entry_names(Seq::<(String, TypeId)>::empty()) =~= Seq::<Seq<char>>::empty());
            assert(locals@.take(l0.len() as int) =~= l0);
        }
        let mut i: usize = 0;
        while i < block.stmts.len()
            invariant
                i <= block.stmts.len(),
                structs == self.program.structs@,
                locals@.len() >= l0.len(),
                locals@.take(l0.len() as int) == l0,
                entry_names(locals@.skip(l0.len() as int)) == block_binds(block.stmts@.take(i as int), event_params@, structs),
                parts.len() == i,
                lparts.len() == i,
                locals@.skip(l0.len() as int) == flatten_locals(lparts),
                forall|k: int| 0 <= k < i ==> event_locals_ok(#[trigger] block.stmts@[k], lparts[k], event_params@, structs, self.typing.table@),
                diag_views(self.typing.diagnostics@) == dg0 + flatten_diags(parts),
                dg0 == diag_views(old(self).typing.diagnostics@),
                forall|k: int| 0 <= k < i ==> (event_diags(#[trigger] block.stmts@[k], event_params@, structs) matches Some(d) ==> parts[k] == d),
                self.wf(),
                old(self).n() <= self.n(),
                entries_below(locals@, self.n()),
                self.signatures == old(self).signatures,
                self.program == old(self).program,
                self.oracle == old(self).oracle,
                self.typing.functions == old(self).typing.functions,
                crate::types::model::diags_extend(old(self).typing.diagnostics@, self.typing.diagnostics@),
                crate::types::extends(old(self).typing.table@, self.typing.table@),
            decreases block.stmts.len() - i,
        {
            proof {
                assert(block.stmts@.take(i + 1).drop_last() =~= block.stmts@.take(i as int));
                assert(block.stmts@.take(i + 1).last() == block.stmts@[i as int]);
            }
            let ghost prev = locals@;
            let ghost dprev = self.typing.diagnostics@;
            let ghost tprev = self.typing.table@;
            match &block.stmts[i] {
                Stmt::Let { pattern, value, .. } => {
                    let event_struct: Option<&String> = match (pattern, value) {
                        (LetPattern::Destructure(_), Expr::Ident(source)) => text_entry_get(event_params, source.node.as_str()),
                        _ => None,
                    };
                    match (pattern, event_struct) {
                        (LetPattern::Destructure(names), Some(struct_name)) => {
                            self.bind_event_fields(struct_name, names, locals);
                            proof {
                                assert(value is Ident && text_lookup(event_params@, value->Ident_0.node@) == Some(struct_name@));
                                if crate::rama_ir::last_struct(structs, struct_name@) is Some {
                                    assert forall|q: int| 0 <= q < names@.len() implies #[trigger] entry_names(locals@.skip(prev.len() as int))[q]
                                        == spanned_names(names@)[q] by {
                                        assert(locals@.skip(prev.len() as int)[q] == locals@[prev.len() + q]);
                                    }
                                    assert(entry_names(locals@.skip(prev.len() as int)) =~= spanned_names(names@));
                                } else {
                                    assert(locals@.skip(prev.len() as int) =~= Seq::<(String, TypeId)>::empty());
                                }
                                assert(entry_names(locals@.skip(prev.len() as int)) =~= stmt_binds(block.stmts@[i as int], event_params@, structs));
                            }
                        }
                        _ => {
                            let ty = self.infer_expr(value, locals);
                            match pattern {
                                LetPattern::Name(name) => {
                                    let label = name.node.clone();
                                    assert(label@ == name.node@);
                                    locals.push((label, ty));
                                    assert(locals@.skip(prev.len() as int) =~= seq![(label, ty)]);
                                    assert(entry_names(locals@.skip(prev.len() as int)) =~= seq![name.node@]);
                                }
                                LetPattern::Destructure(names) => {
                                    let dynamic = self.leaf(Type::Dynamic);
                                    let mut k: usize = 0;
                                    while k < names.len()
                                        invariant
                                            k <= names.len(),
                                            dynamic.0 < self.n(),
                                            entries_below(locals@, self.n()),
                                            locals@.len() == prev.len() + k,
                                            locals@.take(prev.len() as int) == prev,
                                            entry_names(locals@.skip(prev.len() as int)) == spanned_names(names@).take(k as int),
                                        decreases names.len() - k,
                                    {
                                        let label = names[k].node.clone();
                                        assert(label@ == names@[k as int].node@);
                                        let ghost before = locals@;
                                        locals.push((label, dynamic));
                                        proof {
                                            assert(locals@.take(prev.len() as int) =~= before.take(prev.len() as int));
                                            assert(locals@.skip(prev.len() as int) =~= before.skip(prev.len() as int).push((label, dynamic)));
                                            assert(entry_names(locals@.skip(prev.len() as int)) =~= spanned_names(names@).take(k + 1));
                                        }
                                        k += 1;
                                    }
                                    assert(spanned_names(names@).take(names@.len() as int) =~= spanned_names(names@));
                                    assert(!(value is Ident && text_lookup(event_params@, value->Ident_0.node@) is Some));
                                }
                            }
                        }
                    }
                }
                Stmt::Select { pstate, path, target, .. } => {
                    let focus = self.fold_path(pstate, path, locals, PathMode::Select);
                    match target {
                        BindingTarget::Name(name) => {
                            let ty = self.focus_binding_type(&focus);
                            let label = name.node.clone();
                            assert(label@ == name.node@);
                            locals.push((label, ty));
                            assert(locals@.skip(prev.len() as int) =~= seq![(label, ty)]);
                            assert(entry_names(locals@.skip(prev.len() as int)) =~= seq![name.node@]);
                        }
                        BindingTarget::Destructure(names) => {
                            self.bind_destructured_focus(&focus, names, locals);
                            proof {
                                assert forall|q: int| 0 <= q < names@.len() implies #[trigger] entry_names(locals@.skip(prev.len() as int))[q]
                                    == spanned_names(names@)[q] by {
                                    assert(locals@.skip(prev.len() as int)[q] == locals@[prev.len() + q]);
                                }
                                assert(entry_names(locals@.skip(prev.len() as int)) =~= spanned_names(names@));
                            }
                        }
                    }
                }
                Stmt::Transform { pstate, path, .. } => {
                    self.fold_path(pstate, path, locals, PathMode::Transform);
                }
                Stmt::Fail { value, condition, .. } => {
                    self.infer_expr(condition, locals);
                    self.infer_expr(value, locals);
                }
                Stmt::Return { value, .. } => {
                    self.infer_expr(value, locals);
                }
                Stmt::Hash { key, .. } => {
                    self.infer_expr(key, locals);
                }
                Stmt::Effect { value, .. } => {
                    self.infer_expr(value, locals);
                }
                Stmt::If { condition, consequence, alternative, .. } => {
                    self.infer_expr(condition, locals);
                    let mut consequence_locals = copy_entries(locals);
                    self.check_op_block(consequence, &mut consequence_locals, event_params);
                    match alternative {
                        Some(alternative) => {
                            let mut alternative_locals = copy_entries(locals);
                            self.check_op_block(alternative, &mut alternative_locals, event_params);
                        }
                        None => {},
                    }
                }
            }
            proof {
                if locals@ == prev {
                    assert(locals@.skip(prev.len() as int) =~= Seq::<(String, TypeId)>::empty());
                    assert(entry_names(locals@.skip(prev.len() as int)) =~= Seq::<Seq<char>>::empty());
                }
                assert(locals@.len() >= prev.len());
                assert(locals@.take(prev.len() as int) =~= prev);
                assert(entry_names(locals@.skip(prev.len() as int)) == stmt_binds(block.stmts@[i as int], event_params@, structs));
                assert(locals@.take(l0.len() as int) =~= prev.take(l0.len() as int));
                assert(locals@.skip(l0.len() as int) =~= prev.skip(l0.len() as int) + locals@.skip(prev.len() as int));
                assert(entry_names(locals@.skip(l0.len() as int)) =~= entry_names(prev.skip(l0.len() as int)) + entry_names(locals@.skip(prev.len() as int)));
                lemma_diag_views_extend(dprev, self.typing.diagnostics@);
                let part = diag_views(self.typing.diagnostics@).skip(dprev.len() as int);
                assert(flatten_diags(parts.push(part)) == flatten_diags(parts) + part) by {
                    assert(parts.push(part).drop_last() =~= parts);
                }
                assert(dg0 + flatten_diags(parts.push(part)) =~= diag_views(self.typing.diagnostics@));
                parts = parts.push(part);
                let lpart = locals@.skip(prev.len() as int);
                assert(flatten_locals(lparts.push(lpart)) == flatten_locals(lparts) + lpart) by {
                    assert(lparts.push(lpart).drop_last() =~= lparts);
                }
                assert forall|k: int| 0 <= k < i implies event_locals_ok(#[trigger] block.stmts@[k], lparts[k], event_params@, structs, self.typing.table@) by {
                    lemma_event_locals_extend(block.stmts@[k], lparts[k], event_params@, structs, tprev, self.typing.table@);
                }
                assert(event_locals_ok(block.stmts@[i as int], lpart, event_params@, structs, self.typing.table@)) by {
                    if let Stmt::Let { pattern, value, .. } = block.stmts@[i as int] {
                        if let LetPattern::Destructure(names) = pattern {
                            if value is Ident && text_lookup(event_params@, value->Ident_0.node@) is Some {
                                if let Some(d) = crate::rama_ir::last_struct(structs, text_lookup(event_params@, value->Ident_0.node@)->0) {
                                    assert forall|k: int| 0 <= k < lpart.len() implies event_field_bound(self.typing.table@, #[trigger] lpart[k], names@[k].node@, d.fields@) by {
                                        assert(lpart[k] == locals@[prev.len() + k]);
                                    }
                                }
                            }
                        }
                    }
                }
                lparts = lparts.push(lpart);
            }
            i += 1;
        }
        proof {
            assert(block.stmts@.take(block.stmts@.len() as int) =~= block.stmts@);
            assert(block_diags(old(self).typing.diagnostics@, self.typing.diagnostics@, block.stmts@, event_params@, structs));
            assert(block_event_locals(locals@.skip(l0.len() as int), block.stmts@, event_params@, structs, self.typing.table@));
        }
    }

    /// Binds names destructured from an event to its struct's field types.
    #[verifier::loop_isolation(false)]
    pub fn bind_event_fields(
        &mut self,
        struct_name: &String,
        names: &Vec<crate::span::Spanned<String>>,
        locals: &mut Vec<(String, TypeId)>,
    )
        requires
            old(self).wf(),
            entries_below(old(locals)@, old(self).n()),
        ensures
            final(self).wf(),
            old(self).n() <= final(self).n(),
            entries_below(final(locals)@, final(self).n()),
            final(self).signatures == old(self).signatures,
            final(self).program == old(self).program,
            final(self).oracle == old(self).oracle,
            final(self).typing.functions == old(self).typing.functions,
            crate::types::model::diags_extend(old(self).typing.diagnostics@, final(self).typing.diagnostics@),
            crate::types::extends(old(self).typing.table@, final(self).typing.table@),
            match crate::rama_ir::last_struct(old(self).program.structs@, struct_name@) {
                None => final(locals)@ == old(locals)@,
                Some(d) => final(locals)@.len() == old(locals)@.len() + names@.len()
                    && final(locals)@.take(old(locals)@.len() as int) == old(locals)@
                    && forall|k: int| 0 <= k < names@.len() ==> event_field_bound(
                        final(self).typing.table@,
                        #[trigger] final(locals)@[old(locals)@.len() + k],
                        names@[k].node@,
                        d.fields@,
                    ),
            },
            diag_views(final(self).typing.diagnostics@) == diag_views(old(self).typing.diagnostics@) + match crate::rama_ir::last_struct(
                old(self).program.structs@,
                struct_name@,
            ) {
                None => Seq::empty(),
                Some(d) => missing_field_diags(struct_name@, names@, d.fields@),
            },
    {
        let ghost l0 = locals@;
        let ghost d0 = diag_views(self.typing.diagnostics@);
        let fields = match self.struct_fields(struct_name.as_str()) {
            Some(fields) => fields,
            None => {
                return;
            },
        };
        let mut k: usize = 0;
        assert(diag_views(self.typing.diagnostics@) =~= d0 + missing_field_diags(struct_name@, names@.take(0), fields@));
        while k < names.len()
            invariant
                k <= names.len(),
                diag_views(self.typing.diagnostics@) == d0 + missing_field_diags(struct_name@, names@.take(k as int), fields@),
                locals@.len() == l0.len() + k,
                locals@.take(l0.len() as int) == l0,
                crate::types::extends(old(self).typing.table@, self.typing.table@),
                forall|q: int| 0 <= q < k ==> event_field_bound(self.typing.table@, #[trigger] locals@[l0.len() + q], names@[q].node@, fields@),
                self.wf(),
                old(self).n() <= self.n(),
                entries_below(locals@, self.n()),
                self.signatures == old(self).signatures,
                self.program == old(self).program,
                self.oracle == old(self).oracle,
                self.typing.functions == old(self).typing.functions,
                crate::types::model::diags_extend(old(self).typing.diagnostics@, self.typing.diagnostics@),
            decreases names.len() - k,
        {
            let name = &names[k];
            let ghost dk = diag_views(self.typing.diagnostics@);
            let ghost t_before = self.typing.table@;
            let ghost prev = locals@;
            match find_field(fields, name.node.as_str()) {
                Some(schema) => {
                    let ty = self.schema_value_type(schema);
                    let label = name.node.clone();
                    assert(label@ == name.node@);
                    locals.push((label, ty));
                }
                None => {
                    let available = crate::types::paths::field_list(fields);
                    let mut message = owned("event struct `");
                    message.push_str(struct_name.as_str());
                    message.push_str("` has no field `");
                    message.push_str(name.node.as_str());
                    message.push_str("`; available: ");
                    message.push_str(available.as_str());
                    let ghost dv = self.typing.diagnostics@;
                    self.typing.diagnostics.push(Diagnostic::type_error(name.span, message));
                    proof {
                        assert(diag_views(self.typing.diagnostics@) =~= diag_views(dv).push(diag_view(self.typing.diagnostics@.last())));
                    }
                    let unknown = self.leaf(Type::Unknown);
                    let label = name.node.clone();
                    assert(label@ == name.node@);
                    locals.push((label, unknown));
                }
            }
            proof {
                assert(names@.take(k + 1).drop_last() =~= names@.take(k as int));
                assert(names@.take(k + 1).last() == names@[k as int]);
                assert(diag_views(self.typing.diagnostics@) =~= d0 + missing_field_diags(struct_name@, names@.take(k + 1), fields@));
                assert(locals@.take(l0.len() as int) =~= prev.take(l0.len() as int));
                assert forall|q: int| 0 <= q < k + 1 implies event_field_bound(self.typing.table@, #[trigger] locals@[l0.len() + q], names@[q].node@, fields@) by {
                    if q < k {
                        assert(locals@[l0.len() + q] == prev[l0.len() + q]);
                        assert(self.typing.table@[prev[l0.len() + q].1.0 as int] == t_before[prev[l0.len() + q].1.0 as int]);
                    }
                }
            }
            k += 1;
        }
        assert(names@.take(names@.len() as int) =~= names@);
    }

    /// Checks the statements of a typed `fn` body, collecting the types
    /// its `return`s produce.
    #[verifier::loop_isolation(false)]
    pub fn check_block(
        &mut self,
        block: &Block,
        locals: &mut Vec<(String, TypeId)>,
        expected_return: Option<TypeId>,
        returned: &mut Vec<TypeId>,
    )
        requires
            old(self).wf(),
            entries_below(old(locals)@, old(self).n()),
            ids_below(old(returned)@, old(self).n()),
            expected_return matches Some(t) ==> t.0 < old(self).n(),
        ensures
            final(self).wf(),
            old(self).n() <= final(self).n(),
            entries_below(final(locals)@, final(self).n()),
            ids_below(final(returned)@, final(self).n()),
            final(self).signatures == old(self).signatures,
            final(self).program == old(self).program,
            final(self).oracle == old(self).oracle,
            final(self).typing.functions == old(self).typing.functions,
            crate::types::model::diags_extend(old(self).typing.diagnostics@, final(self).typing.diagnostics@),
            crate::types::extends(old(self).typing.table@, final(self).typing.table@),
        decreases block,
    {
        let mut i: usize = 0;
        while i < block.stmts.len()
            invariant
                i <= block.stmts.len(),
                self.wf(),
                old(self).n() <= self.n(),
                entries_below(locals@, self.n()),
                ids_below(returned@, self.n()),
                expected_return matches Some(t) ==> t.0 < self.n(),
                self.signatures == old(self).signatures,
                self.program == old(self).program,
                self.oracle == old(self).oracle,
                self.typing.functions == old(self).typing.functions,
                crate::types::model::diags_extend(old(self).typing.diagnostics@, self.typing.diagnostics@),
                crate::types::extends(old(self).typing.table@, self.typing.table@),
            decreases block.stmts.len() - i,
        {
            match &block.stmts[i] {
                Stmt::Let { pattern, value, .. } => {
                    let value_type = self.infer_expr(value, locals);
                    match pattern {
                        LetPattern::Name(name) => {
                            locals.push((name.node.clone(), value_type));
                        }
                        LetPattern::Destructure(names) => {
                            let unknown = self.leaf(Type::Unknown);
                            let mut k: usize = 0;
                            while k < names.len()
                                invariant
                                    k <= names.len(),
                                    unknown.0 < self.n(),
                                    entries_below(locals@, self.n()),
                                decreases names.len() - k,
                            {
                                locals.push((names[k].node.clone(), unknown));
                                k += 1;
                            }
                        }
                    }
                }
                Stmt::Return { value, span } => {
                    let actual = self.infer_expr(value, locals);
                    match expected_return {
                        Some(expected) => {
                            if !self.assignable(actual, expected) {
                                let shown_actual = self.typing.table.display(actual);
                                let shown_expected = self.typing.table.display(expected);
                                let message = cat(
                                    vec![
                                        "return type `",
                                        shown_actual.as_str(),
                                        "` is not assignable to `",
                                        shown_expected.as_str(),
                                        "`",
                                    ],
                                );
                                self.typing.diagnostics.push(Diagnostic::type_error(*span, message));
                            }
                        }
                        None => {},
                    }
                    returned.push(actual);
                }
                Stmt::Effect { value, .. } => {
                    self.infer_expr(value, locals);
                }
                Stmt::If { condition, consequence, alternative, .. } => {
                    self.infer_expr(condition, locals);
                    let mut consequence_locals = copy_entries(locals);
                    self.check_block(consequence, &mut consequence_locals, expected_return, returned);
                    match alternative {
                        Some(alternative) => {
                            let mut alternative_locals = copy_entries(locals);
                            self.check_block(alternative, &mut alternative_locals, expected_return, returned);
                        }
                        None => {},
                    }
                }
                _ => {},
            }
            i += 1;
        }
    }

    /// Checks a typed `fn` and records its parameter and return types; the
    /// return type is the declared one, else the join of the returned types
    /// (`Nil` when nothing is returned).
    #[verifier::loop_isolation(false)]
    pub fn check_function(&mut self, function: &FnDef)
        requires
            old(self).wf(),
        ensures
            final(self).wf(),
            old(self).n() <= final(self).n(),
            final(self).signatures == old(self).signatures,
            final(self).program == old(self).program,
            final(self).oracle == old(self).oracle,
            typed_function_spec(*function) ==> has_function(final(self).typing.functions@, function.name.node@),
            forall|n: Seq<char>| has_function(old(self).typing.functions@, n) ==> has_function(final(self).typing.functions@, n),
            !typed_function_spec(*function) ==> final(self).typing.functions == old(self).typing.functions,
    {
        let has_contract = is_typed_function(function);
        if !has_contract {
            return;
        }
        let no_vars: Vec<String> = Vec::new();
        let mut params: Vec<(String, TypeId)> = Vec::new();
        let mut i: usize = 0;
        while i < function.params.len()
            invariant
                i <= function.params.len(),
                self.wf(),
                old(self).n() <= self.n(),
                entries_below(params@, self.n()),
                self.signatures == old(self).signatures,
                self.program == old(self).program,
                self.oracle == old(self).oracle,
                self.typing.functions == old(self).typing.functions,
                crate::types::model::diags_extend(old(self).typing.diagnostics@, self.typing.diagnostics@),
                crate::types::extends(old(self).typing.table@, self.typing.table@),
            decreases function.params.len() - i,
        {
            let param = &function.params[i];
            let id = self.resolve_param(param, &no_vars, true);
            params.push((param.name.node.clone(), id));
            i += 1;
        }
        let mut locals = copy_entries(&params);
        let declared_return: Option<TypeId> = match &function.return_ty {
            Some(ty) => Some(self.resolve_type(&ty.node, &no_vars, ty.span)),
            None => None,
        };
        let mut returned: Vec<TypeId> = Vec::new();
        self.check_block(&function.body, &mut locals, declared_return, &mut returned);
        let inferred_return = if returned.len() == 0 {
            self.leaf(Type::Nil)
        } else {
            let mut acc = returned[0];
            let mut r: usize = 1;
            while r < returned.len()
                invariant
                    1 <= r <= returned.len(),
                    self.wf(),
                    old(self).n() <= self.n(),
                    acc.0 < self.n(),
                    ids_below(returned@, self.n()),
                    entries_below(params@, self.n()),
                    declared_return matches Some(t) ==> t.0 < self.n(),
                    self.signatures == old(self).signatures,
                    self.program == old(self).program,
                    self.oracle == old(self).oracle,
                    self.typing.functions == old(self).typing.functions,
                    crate::types::model::diags_extend(old(self).typing.diagnostics@, self.typing.diagnostics@),
                    crate::types::extends(old(self).typing.table@, self.typing.table@),
                decreases returned.len() - r,
            {
                acc = self.join(acc, returned[r]);
                r += 1;
            }
            acc
        };
        let return_type = match declared_return {
            Some(t) => t,
            None => inferred_return,
        };
        let name = function.name.node.clone();
        self.typing.set_function(name, TypedFunction { params, return_type, has_contract });
    }

    /// Registers the built-in Clojure signatures.
    pub fn install_prelude(&mut self)
        requires
            old(self).wf(),
        ensures
            final(self).signatures@.take(old(self).signatures@.len() as int) == old(self).signatures@,
            prelude_views(final(self).signatures@.skip(old(self).signatures@.len() as int)) == seq![
                ("identity"@, 1nat, SignatureSource::Prelude),
                ("nil?"@, 1nat, SignatureSource::Prelude),
                ("seq?"@, 1nat, SignatureSource::Prelude),
                ("some?"@, 1nat, SignatureSource::Prelude),
                ("boolean"@, 1nat, SignatureSource::Prelude),
                ("not"@, 1nat, SignatureSource::Prelude),
                ("inc"@, 1nat, SignatureSource::Prelude),
                ("even?"@, 1nat, SignatureSource::Prelude),
                ("long"@, 1nat, SignatureSource::Prelude),
                ("str"@, 1nat, SignatureSource::Prelude),
                ("vec"@, 1nat, SignatureSource::Prelude),
                ("vec"@, 1nat, SignatureSource::Prelude),
                ("seq"@, 1nat, SignatureSource::Prelude),
                ("seq"@, 1nat, SignatureSource::Prelude),
                ("count"@, 1nat, SignatureSource::Prelude),
                ("count"@, 1nat, SignatureSource::Prelude),
                ("count"@, 1nat, SignatureSource::Prelude),
                ("contains?"@, 2nat, SignatureSource::Prelude),
                ("contains?"@, 2nat, SignatureSource::Prelude),
                ("set"@, 1nat, SignatureSource::Prelude),
                ("disj"@, 2nat, SignatureSource::Prelude),
                ("get"@, 2nat, SignatureSource::Prelude),
                ("first"@, 1nat, SignatureSource::Prelude),
                ("first"@, 1nat, SignatureSource::Prelude),
                ("nth"@, 2nat, SignatureSource::Prelude),
                ("conj"@, 2nat, SignatureSource::Prelude),
                ("conj"@, 2nat, SignatureSource::Prelude),
                ("assoc"@, 3nat, SignatureSource::Prelude),
                ("map"@, 2nat, SignatureSource::Prelude),
                ("map"@, 1nat, SignatureSource::Prelude),
                ("map"@, 3nat, SignatureSource::Prelude),
                ("map"@, 4nat, SignatureSource::Prelude),
                ("filter"@, 2nat, SignatureSource::Prelude),
                ("filter"@, 1nat, SignatureSource::Prelude),
                ("every?"@, 2nat, SignatureSource::Prelude),
                ("some"@, 2nat, SignatureSource::Prelude),
                ("reduce"@, 3nat, SignatureSource::Prelude),
                ("into"@, 2nat, SignatureSource::Prelude),
                ("into"@, 3nat, SignatureSource::Prelude),
                ("into"@, 2nat, SignatureSource::Prelude),
                ("into"@, 3nat, SignatureSource::Prelude),
                ("first"@, 1nat, SignatureSource::Prelude),
                ("seq"@, 1nat, SignatureSource::Prelude),
                ("count"@, 1nat, SignatureSource::Prelude),
                (">"@, 2nat, SignatureSource::Prelude),
                (">="@, 2nat, SignatureSource::Prelude),
                ("<"@, 2nat, SignatureSource::Prelude),
                ("<="@, 2nat, SignatureSource::Prelude),
                ("="@, 2nat, SignatureSource::Prelude),
                ("and"@, 2nat, SignatureSource::Prelude),
                ("and"@, 3nat, SignatureSource::Prelude),
                ("or"@, 2nat, SignatureSource::Prelude),
                ("or"@, 3nat, SignatureSource::Prelude)
            ],
            final(self).wf(),
            final(self).program == old(self).program,
            final(self).oracle == old(self).oracle,
            final(self).typing.functions == old(self).typing.functions,
            crate::types::model::diags_extend(old(self).typing.diagnostics@, final(self).typing.diagnostics@),
            crate::types::extends(old(self).typing.table@, final(self).typing.table@),
    {
        let ghost s0 = self.signatures@;
        self.install_prelude_part1();
        let ghost s1 = self.signatures@;
        self.install_prelude_part2();
        let ghost s2 = self.signatures@;
        proof {
            lemma_prelude_compose(s0, s1, s2);
        }
        self.install_prelude_part3();
        let ghost s3 = self.signatures@;
        proof {
            lemma_prelude_compose(s0, s2, s3);
        }
        self.install_prelude_part4();
        proof {
            lemma_prelude_compose(s0, s3, self.signatures@);
            assert(prelude_views(self.signatures@.skip(s0.len() as int)) =~= seq![
                ("identity"@, 1nat, SignatureSource::Prelude),
                ("nil?"@, 1nat, SignatureSource::Prelude),
                ("seq?"@, 1nat, SignatureSource::Prelude),
                ("some?"@, 1nat, SignatureSource::Prelude),
                ("boolean"@, 1nat, SignatureSource::Prelude),
                ("not"@, 1nat, SignatureSource::Prelude),
                ("inc"@, 1nat, SignatureSource::Prelude),
                ("even?"@, 1nat, SignatureSource::Prelude),
                ("long"@, 1nat, SignatureSource::Prelude),
                ("str"@, 1nat, SignatureSource::Prelude),
                ("vec"@, 1nat, SignatureSource::Prelude),
                ("vec"@, 1nat, SignatureSource::Prelude),
                ("seq"@, 1nat, SignatureSource::Prelude),
                ("seq"@, 1nat, SignatureSource::Prelude),
                ("count"@, 1nat, SignatureSource::Prelude),
                ("count"@, 1nat, SignatureSource::Prelude),
                ("count"@, 1nat, SignatureSource::Prelude),
                ("contains?"@, 2nat, SignatureSource::Prelude),
                ("contains?"@, 2nat, SignatureSource::Prelude),
                ("set"@, 1nat, SignatureSource::Prelude),
                ("disj"@, 2nat, SignatureSource::Prelude),
                ("get"@, 2nat, SignatureSource::Prelude),
                ("first"@, 1nat, SignatureSource::Prelude),
                ("first"@, 1nat, SignatureSource::Prelude),
                ("nth"@, 2nat, SignatureSource::Prelude),
                ("conj"@, 2nat, SignatureSource::Prelude),
                ("conj"@, 2nat, SignatureSource::Prelude),
                ("assoc"@, 3nat, SignatureSource::Prelude),
                ("map"@, 2nat, SignatureSource::Prelude),
                ("map"@, 1nat, SignatureSource::Prelude),
                ("map"@, 3nat, SignatureSource::Prelude),
                ("map"@, 4nat, SignatureSource::Prelude),
                ("filter"@, 2nat, SignatureSource::Prelude),
                ("filter"@, 1nat, SignatureSource::Prelude),
                ("every?"@, 2nat, SignatureSource::Prelude),
                ("some"@, 2nat, SignatureSource::Prelude),
                ("reduce"@, 3nat, SignatureSource::Prelude),
                ("into"@, 2nat, SignatureSource::Prelude),
                ("into"@, 3nat, SignatureSource::Prelude),
                ("into"@, 2nat, SignatureSource::Prelude),
                ("into"@, 3nat, SignatureSource::Prelude),
                ("first"@, 1nat, SignatureSource::Prelude),
                ("seq"@, 1nat, SignatureSource::Prelude),
                ("count"@, 1nat, SignatureSource::Prelude),
                (">"@, 2nat, SignatureSource::Prelude),
                (">="@, 2nat, SignatureSource::Prelude),
                ("<"@, 2nat, SignatureSource::Prelude),
                ("<="@, 2nat, SignatureSource::Prelude),
                ("="@, 2nat, SignatureSource::Prelude),
                ("and"@, 2nat, SignatureSource::Prelude),
                ("and"@, 3nat, SignatureSource::Prelude),
                ("or"@, 2nat, SignatureSource::Prelude),
                ("or"@, 3nat, SignatureSource::Prelude)
            ]);
        }
    }

    /// Registers the prelude signatures of part 1, in order.
    fn install_prelude_part1(&mut self)
        requires
            old(self).wf(),
        ensures
            final(self).wf(),
            old(self).n() <= final(self).n(),
            final(self).program == old(self).program,
            final(self).oracle == old(self).oracle,
            final(self).typing.functions == old(self).typing.functions,
            crate::types::model::diags_extend(old(self).typing.diagnostics@, final(self).typing.diagnostics@),
            crate::types::extends(old(self).typing.table@, final(self).typing.table@),
            final(self).signatures@.take(old(self).signatures@.len() as int) == old(self).signatures@,
            final(self).signatures@.len() >= old(self).signatures@.len(),
            prelude_views(final(self).signatures@.skip(old(self).signatures@.len() as int)) == seq![
                ("identity"@, 1nat, SignatureSource::Prelude),
                ("nil?"@, 1nat, SignatureSource::Prelude),
                ("seq?"@, 1nat, SignatureSource::Prelude),
                ("some?"@, 1nat, SignatureSource::Prelude),
                ("boolean"@, 1nat, SignatureSource::Prelude),
                ("not"@, 1nat, SignatureSource::Prelude),
                ("inc"@, 1nat, SignatureSource::Prelude),
                ("even?"@, 1nat, SignatureSource::Prelude),
                ("long"@, 1nat, SignatureSource::Prelude),
                ("str"@, 1nat, SignatureSource::Prelude),
                ("vec"@, 1nat, SignatureSource::Prelude),
                ("vec"@, 1nat, SignatureSource::Prelude),
                ("seq"@, 1nat, SignatureSource::Prelude),
                ("seq"@, 1nat, SignatureSource::Prelude)
            ],
    {
        let prelude = SignatureSource::Prelude;
        let ghost base = self.signatures@.len() as int;
        let ghost mut prev = self.signatures@;
        let ghost mut acc: Seq<(Seq<char>, nat, SignatureSource)> = Seq::empty();
        proof {
            assert(prelude_views(prev.skip(base)) =~= acc);
            assert(prev.take(base) =~= prev);
        }

        self.generic_signature("identity", vec!["T"], vec![var("T")], var("T"), prelude);
        proof {
            lemma_appended(prev, self.signatures@, base, acc, ("identity"@, 1nat, SignatureSource::Prelude));
            acc = acc.push(("identity"@, 1nat, SignatureSource::Prelude));
            prev = self.signatures@;
        }
        self.signature("nil?", vec![simple("Any")], simple("Boolean"), prelude);
        proof {
            lemma_appended(prev, self.signatures@, base, acc, ("nil?"@, 1nat, SignatureSource::Prelude));
            acc = acc.push(("nil?"@, 1nat, SignatureSource::Prelude));
            prev = self.signatures@;
        }
        self.signature("seq?", vec![simple("Any")], simple("Boolean"), prelude);
        proof {
            lemma_appended(prev, self.signatures@, base, acc, ("seq?"@, 1nat, SignatureSource::Prelude));
            acc = acc.push(("seq?"@, 1nat, SignatureSource::Prelude));
            prev = self.signatures@;
        }
        self.signature("some?", vec![simple("Any")], simple("Boolean"), prelude);
        proof {
            lemma_appended(prev, self.signatures@, base, acc, ("some?"@, 1nat, SignatureSource::Prelude));
            acc = acc.push(("some?"@, 1nat, SignatureSource::Prelude));
            prev = self.signatures@;
        }
        self.signature("boolean", vec![simple("Any")], simple("Boolean"), prelude);
        proof {
            lemma_appended(prev, self.signatures@, base, acc, ("boolean"@, 1nat, SignatureSource::Prelude));
            acc = acc.push(("boolean"@, 1nat, SignatureSource::Prelude));
            prev = self.signatures@;
        }
        self.signature("not", vec![simple("Any")], simple("Boolean"), prelude);
        proof {
            lemma_appended(prev, self.signatures@, base, acc, ("not"@, 1nat, SignatureSource::Prelude));
            acc = acc.push(("not"@, 1nat, SignatureSource::Prelude));
            prev = self.signatures@;
        }
        self.signature("inc", vec![simple("Long")], simple("Long"), prelude);
        proof {
            lemma_appended(prev, self.signatures@, base, acc, ("inc"@, 1nat, SignatureSource::Prelude));
            acc = acc.push(("inc"@, 1nat, SignatureSource::Prelude));
            prev = self.signatures@;
        }
        self.signature("even?", vec![simple("Long")], simple("Boolean"), prelude);
        proof {
            lemma_appended(prev, self.signatures@, base, acc, ("even?"@, 1nat, SignatureSource::Prelude));
            acc = acc.push(("even?"@, 1nat, SignatureSource::Prelude));
            prev = self.signatures@;
        }
        self.signature("long", vec![simple("Any")], simple("Long"), prelude);
        proof {
            lemma_appended(prev, self.signatures@, base, acc, ("long"@, 1nat, SignatureSource::Prelude));
            acc = acc.push(("long"@, 1nat, SignatureSource::Prelude));
            prev = self.signatures@;
        }
        self.signature("str", vec![simple("Any")], simple("String"), prelude);
        proof {
            lemma_appended(prev, self.signatures@, base, acc, ("str"@, 1nat, SignatureSource::Prelude));
            acc = acc.push(("str"@, 1nat, SignatureSource::Prelude));
            prev = self.signatures@;
        }
        self.generic_signature(
            "vec",
            vec!["T"],
            vec![generic("java.lang.Iterable", vec![var("T")])],
            generic("java.util.List", vec![var("T")]),
            prelude,
        );
        proof {
            lemma_appended(prev, self.signatures@, base, acc, ("vec"@, 1nat, SignatureSource::Prelude));
            acc = acc.push(("vec"@, 1nat, SignatureSource::Prelude));
            prev = self.signatures@;
        }
        self.signature("vec", vec![simple("Nil")], generic("java.util.List", vec![simple("Never")]), prelude);
        proof {
            lemma_appended(prev, self.signatures@, base, acc, ("vec"@, 1nat, SignatureSource::Prelude));
            acc = acc.push(("vec"@, 1nat, SignatureSource::Prelude));
            prev = self.signatures@;
        }
        self.generic_signature(
            "seq",
            vec!["T"],
            vec![generic("java.lang.Iterable", vec![var("T")])],
            union(vec![generic("clojure.lang.ISeq", vec![var("T")]), simple("Nil")]),
            prelude,
        );
        proof {
            lemma_appended(prev, self.signatures@, base, acc, ("seq"@, 1nat, SignatureSource::Prelude));
            acc = acc.push(("seq"@, 1nat, SignatureSource::Prelude));
            prev = self.signatures@;
        }
        self.signature("seq", vec![simple("Nil")], simple("Nil"), prelude);
        proof {
            lemma_appended(prev, self.signatures@, base, acc, ("seq"@, 1nat, SignatureSource::Prelude));
            acc = acc.push(("seq"@, 1nat, SignatureSource::Prelude));
            prev = self.signatures@;
        }
        proof {
            assert(acc =~= seq![
                ("identity"@, 1nat, SignatureSource::Prelude),
                ("nil?"@, 1nat, SignatureSource::Prelude),
                ("seq?"@, 1nat, SignatureSource::Prelude),
                ("some?"@, 1nat, SignatureSource::Prelude),
                ("boolean"@, 1nat, SignatureSource::Prelude),
                ("not"@, 1nat, SignatureSource::Prelude),
                ("inc"@, 1nat, SignatureSource::Prelude),
                ("even?"@, 1nat, SignatureSource::Prelude),
                ("long"@, 1nat, SignatureSource::Prelude),
                ("str"@, 1nat, SignatureSource::Prelude),
                ("vec"@, 1nat, SignatureSource::Prelude),
                ("vec"@, 1nat, SignatureSource::Prelude),
                ("seq"@, 1nat, SignatureSource::Prelude),
                ("seq"@, 1nat, SignatureSource::Prelude)
            ]);
        }
    }

    /// Registers the prelude signatures of part 2, in order.
    fn install_prelude_part2(&mut self)
        requires
            old(self).wf(),
        ensures
            final(self).wf(),
            old(self).n() <= final(self).n(),
            final(self).program == old(self).program,
            final(self).oracle == old(self).oracle,
            final(self).typing.functions == old(self).typing.functions,
            crate::types::model::diags_extend(old(self).typing.diagnostics@, final(self).typing.diagnostics@),
            crate::types::extends(old(self).typing.table@, final(self).typing.table@),
            final(self).signatures@.take(old(self).signatures@.len() as int) == old(self).signatures@,
            final(self).signatures@.len() >= old(self).signatures@.len(),
            prelude_views(final(self).signatures@.skip(old(self).signatures@.len() as int)) == seq![
                ("count"@, 1nat, SignatureSource::Prelude),
                ("count"@, 1nat, SignatureSource::Prelude),
                ("count"@, 1nat, SignatureSource::Prelude),
                ("contains?"@, 2nat, SignatureSource::Prelude),
                ("contains?"@, 2nat, SignatureSource::Prelude),
                ("set"@, 1nat, SignatureSource::Prelude),
                ("disj"@, 2nat, SignatureSource::Prelude),
                ("get"@, 2nat, SignatureSource::Prelude),
                ("first"@, 1nat, SignatureSource::Prelude),
                ("first"@, 1nat, SignatureSource::Prelude),
                ("nth"@, 2nat, SignatureSource::Prelude),
                ("conj"@, 2nat, SignatureSource::Prelude),
                ("conj"@, 2nat, SignatureSource::Prelude),
                ("assoc"@, 3nat, SignatureSource::Prelude)
            ],
    {
        let prelude = SignatureSource::Prelude;
        let ghost base = self.signatures@.len() as int;
        let ghost mut prev = self.signatures@;
        let ghost mut acc: Seq<(Seq<char>, nat, SignatureSource)> = Seq::empty();
        proof {
            assert(prelude_views(prev.skip(base)) =~= acc);
            assert(prev.take(base) =~= prev);
        }

        self.generic_signature(
            "count",
            vec!["T"],
            vec![generic("java.util.Collection", vec![var("T")])],
            simple("Long"),
            prelude,
        );
        proof {
            lemma_appended(prev, self.signatures@, base, acc, ("count"@, 1nat, SignatureSource::Prelude));
            acc = acc.push(("count"@, 1nat, SignatureSource::Prelude));
            prev = self.signatures@;
        }
        self.signature("count", vec![simple("String")], simple("Long"), prelude);
        proof {
            lemma_appended(prev, self.signatures@, base, acc, ("count"@, 1nat, SignatureSource::Prelude));
            acc = acc.push(("count"@, 1nat, SignatureSource::Prelude));
            prev = self.signatures@;
        }
        self.signature("count", vec![simple("Nil")], simple("Long"), prelude);
        proof {
            lemma_appended(prev, self.signatures@, base, acc, ("count"@, 1nat, SignatureSource::Prelude));
            acc = acc.push(("count"@, 1nat, SignatureSource::Prelude));
            prev = self.signatures@;
        }
        self.generic_signature(
            "contains?",
            vec!["T"],
            vec![generic("java.util.Set", vec![var("T")]), var("T")],
            simple("Boolean"),
            prelude,
        );
        proof {
            lemma_appended(prev, self.signatures@, base, acc, ("contains?"@, 2nat, SignatureSource::Prelude));
            acc = acc.push(("contains?"@, 2nat, SignatureSource::Prelude));
            prev = self.signatures@;
        }
        self.generic_signature(
            "contains?",
            vec!["K", "V"],
            vec![generic("java.util.Map", vec![var("K"), var("V")]), var("K")],
            simple("Boolean"),
            prelude,
        );
        proof {
            lemma_appended(prev, self.signatures@, base, acc, ("contains?"@, 2nat, SignatureSource::Prelude));
            acc = acc.push(("contains?"@, 2nat, SignatureSource::Prelude));
            prev = self.signatures@;
        }
        self.generic_signature(
            "set",
            vec!["T"],
            vec![generic("java.lang.Iterable", vec![var("T")])],
            generic("java.util.Set", vec![var("T")]),
            prelude,
        );
        proof {
            lemma_appended(prev, self.signatures@, base, acc, ("set"@, 1nat, SignatureSource::Prelude));
            acc = acc.push(("set"@, 1nat, SignatureSource::Prelude));
            prev = self.signatures@;
        }
        self.generic_signature(
            "disj",
            vec!["T"],
            vec![generic("java.util.Set", vec![var("T")]), var("T")],
            generic("java.util.Set", vec![var("T")]),
            prelude,
        );
        proof {
            lemma_appended(prev, self.signatures@, base, acc, ("disj"@, 2nat, SignatureSource::Prelude));
            acc = acc.push(("disj"@, 2nat, SignatureSource::Prelude));
            prev = self.signatures@;
        }
        self.generic_signature(
            "get",
            vec!["K", "V"],
            vec![generic("java.util.Map", vec![var("K"), var("V")]), simple("Any")],
            union(vec![var("V"), simple("Nil")]),
            prelude,
        );
        proof {
            lemma_appended(prev, self.signatures@, base, acc, ("get"@, 2nat, SignatureSource::Prelude));
            acc = acc.push(("get"@, 2nat, SignatureSource::Prelude));
            prev = self.signatures@;
        }
        self.generic_signature(
            "first",
            vec!["T"],
            vec![generic("java.lang.Iterable", vec![var("T")])],
            union(vec![var("T"), simple("Nil")]),
            prelude,
        );
        proof {
            lemma_appended(prev, self.signatures@, base, acc, ("first"@, 1nat, SignatureSource::Prelude));
            acc = acc.push(("first"@, 1nat, SignatureSource::Prelude));
            prev = self.signatures@;
        }
        self.signature("first", vec![simple("Nil")], simple("Nil"), prelude);
        proof {
            lemma_appended(prev, self.signatures@, base, acc, ("first"@, 1nat, SignatureSource::Prelude));
            acc = acc.push(("first"@, 1nat, SignatureSource::Prelude));
            prev = self.signatures@;
        }
        self.generic_signature(
            "nth",
            vec!["T"],
            vec![generic("java.util.List", vec![var("T")]), simple("Long")],
            var("T"),
            prelude,
        );
        proof {
            lemma_appended(prev, self.signatures@, base, acc, ("nth"@, 2nat, SignatureSource::Prelude));
            acc = acc.push(("nth"@, 2nat, SignatureSource::Prelude));
            prev = self.signatures@;
        }
        self.generic_signature(
            "conj",
            vec!["T", "U"],
            vec![generic("java.util.List", vec![var("T")]), var("U")],
            generic("java.util.List", vec![union(vec![var("T"), var("U")])]),
            prelude,
        );
        proof {
            lemma_appended(prev, self.signatures@, base, acc, ("conj"@, 2nat, SignatureSource::Prelude));
            acc = acc.push(("conj"@, 2nat, SignatureSource::Prelude));
            prev = self.signatures@;
        }
        self.generic_signature(
            "conj",
            vec!["T", "U"],
            vec![generic("java.util.Set", vec![var("T")]), var("U")],
            generic("java.util.Set", vec![union(vec![var("T"), var("U")])]),
            prelude,
        );
        proof {
            lemma_appended(prev, self.signatures@, base, acc, ("conj"@, 2nat, SignatureSource::Prelude));
            acc = acc.push(("conj"@, 2nat, SignatureSource::Prelude));
            prev = self.signatures@;
        }
        self.generic_signature(
            "assoc",
            vec!["K", "V", "K2", "V2"],
            vec![generic("java.util.Map", vec![var("K"), var("V")]), var("K2"), var("V2")],
            generic("java.util.Map", vec![union(vec![var("K"), var("K2")]), union(vec![var("V"), var("V2")])]),
            prelude,
        );
        proof {
            lemma_appended(prev, self.signatures@, base, acc, ("assoc"@, 3nat, SignatureSource::Prelude));
            acc = acc.push(("assoc"@, 3nat, SignatureSource::Prelude));
            prev = self.signatures@;
        }
        proof {
            assert(acc =~= seq![
                ("count"@, 1nat, SignatureSource::Prelude),
                ("count"@, 1nat, SignatureSource::Prelude),
                ("count"@, 1nat, SignatureSource::Prelude),
                ("contains?"@, 2nat, SignatureSource::Prelude),
                ("contains?"@, 2nat, SignatureSource::Prelude),
                ("set"@, 1nat, SignatureSource::Prelude),
                ("disj"@, 2nat, SignatureSource::Prelude),
                ("get"@, 2nat, SignatureSource::Prelude),
                ("first"@, 1nat, SignatureSource::Prelude),
                ("first"@, 1nat, SignatureSource::Prelude),
                ("nth"@, 2nat, SignatureSource::Prelude),
                ("conj"@, 2nat, SignatureSource::Prelude),
                ("conj"@, 2nat, SignatureSource::Prelude),
                ("assoc"@, 3nat, SignatureSource::Prelude)
            ]);
        }
    }

    /// Registers the prelude signatures of part 3, in order.
    fn install_prelude_part3(&mut self)
        requires
            old(self).wf(),
        ensures
            final(self).wf(),
            old(self).n() <= final(self).n(),
            final(self).program == old(self).program,
            final(self).oracle == old(self).oracle,
            final(self).typing.functions == old(self).typing.functions,
            crate::types::model::diags_extend(old(self).typing.diagnostics@, final(self).typing.diagnostics@),
            crate::types::extends(old(self).typing.table@, final(self).typing.table@),
            final(self).signatures@.take(old(self).signatures@.len() as int) == old(self).signatures@,
            final(self).signatures@.len() >= old(self).signatures@.len(),
            prelude_views(final(self).signatures@.skip(old(self).signatures@.len() as int)) == seq![
                ("map"@, 2nat, SignatureSource::Prelude),
                ("map"@, 1nat, SignatureSource::Prelude),
                ("map"@, 3nat, SignatureSource::Prelude),
                ("map"@, 4nat, SignatureSource::Prelude),
                ("filter"@, 2nat, SignatureSource::Prelude),
                ("filter"@, 1nat, SignatureSource::Prelude),
                ("every?"@, 2nat, SignatureSource::Prelude),
                ("some"@, 2nat, SignatureSource::Prelude),
                ("reduce"@, 3nat, SignatureSource::Prelude),
                ("into"@, 2nat, SignatureSource::Prelude),
                ("into"@, 3nat, SignatureSource::Prelude),
                ("into"@, 2nat, SignatureSource::Prelude),
                ("into"@, 3nat, SignatureSource::Prelude),
                ("first"@, 1nat, SignatureSource::Prelude)
            ],
    {
        let prelude = SignatureSource::Prelude;
        let ghost base = self.signatures@.len() as int;
        let ghost mut prev = self.signatures@;
        let ghost mut acc: Seq<(Seq<char>, nat, SignatureSource)> = Seq::empty();
        proof {
            assert(prelude_views(prev.skip(base)) =~= acc);
            assert(prev.take(base) =~= prev);
        }

        self.generic_signature(
            "map",
            vec!["A", "B"],
            vec![function(vec![var("A")], var("B")), capability("Seqable", vec![var("A")])],
            generic("clojure.lang.LazySeq", vec![var("B")]),
            prelude,
        );
        proof {
            lemma_appended(prev, self.signatures@, base, acc, ("map"@, 2nat, SignatureSource::Prelude));
            acc = acc.push(("map"@, 2nat, SignatureSource::Prelude));
            prev = self.signatures@;
        }
        self.generic_signature(
            "map",
            vec!["A", "B"],
            vec![function(vec![var("A")], var("B"))],
            capability("Transducer", vec![var("A"), var("B")]),
            prelude,
        );
        proof {
            lemma_appended(prev, self.signatures@, base, acc, ("map"@, 1nat, SignatureSource::Prelude));
            acc = acc.push(("map"@, 1nat, SignatureSource::Prelude));
            prev = self.signatures@;
        }
        self.generic_signature(
            "map",
            vec!["A", "B", "R"],
            vec![
                function(vec![var("A"), var("B")], var("R")),
                capability("Seqable", vec![var("A")]),
                capability("Seqable", vec![var("B")]),
            ],
            generic("clojure.lang.LazySeq", vec![var("R")]),
            prelude,
        );
        proof {
            lemma_appended(prev, self.signatures@, base, acc, ("map"@, 3nat, SignatureSource::Prelude));
            acc = acc.push(("map"@, 3nat, SignatureSource::Prelude));
            prev = self.signatures@;
        }
        self.generic_signature(
            "map",
            vec!["A", "B", "C", "R"],
            vec![
                function(vec![var("A"), var("B"), var("C")], var("R")),
                capability("Seqable", vec![var("A")]),
                capability("Seqable", vec![var("B")]),
                capability("Seqable", vec![var("C")]),
            ],
            generic("clojure.lang.LazySeq", vec![var("R")]),
            prelude,
        );
        proof {
            lemma_appended(prev, self.signatures@, base, acc, ("map"@, 4nat, SignatureSource::Prelude));
            acc = acc.push(("map"@, 4nat, SignatureSource::Prelude));
            prev = self.signatures@;
        }
        self.generic_signature(
            "filter",
            vec!["A", "P"],
            vec![function(vec![var("A")], var("P")), capability("Seqable", vec![var("A")])],
            generic("clojure.lang.LazySeq", vec![var("A")]),
            prelude,
        );
        proof {
            lemma_appended(prev, self.signatures@, base, acc, ("filter"@, 2nat, SignatureSource::Prelude));
            acc = acc.push(("filter"@, 2nat, SignatureSource::Prelude));
            prev = self.signatures@;
        }
        self.generic_signature(
            "filter",
            vec!["A", "P"],
            vec![function(vec![var("A")], var("P"))],
            capability("Transducer", vec![var("A"), var("A")]),
            prelude,
        );
        proof {
            lemma_appended(prev, self.signatures@, base, acc, ("filter"@, 1nat, SignatureSource::Prelude));
            acc = acc.push(("filter"@, 1nat, SignatureSource::Prelude));
            prev = self.signatures@;
        }
        self.generic_signature(
            "every?",
            vec!["A", "P"],
            vec![function(vec![var("A")], var("P")), capability("Seqable", vec![var("A")])],
            simple("Boolean"),
            prelude,
        );
        proof {
            lemma_appended(prev, self.signatures@, base, acc, ("every?"@, 2nat, SignatureSource::Prelude));
            acc = acc.push(("every?"@, 2nat, SignatureSource::Prelude));
            prev = self.signatures@;
        }
        self.generic_signature(
            "some",
            vec!["A", "B"],
            vec![function(vec![var("A")], var("B")), capability("Seqable", vec![var("A")])],
            union(vec![var("B"), simple("Nil")]),
            prelude,
        );
        proof {
            lemma_appended(prev, self.signatures@, base, acc, ("some"@, 2nat, SignatureSource::Prelude));
            acc = acc.push(("some"@, 2nat, SignatureSource::Prelude));
            prev = self.signatures@;
        }
        self.generic_signature(
            "reduce",
            vec!["A", "E"],
            vec![function(vec![var("A"), var("E")], var("A")), var("A"), capability("Reducible", vec![var("E")])],
            var("A"),
            prelude,
        );
        proof {
            lemma_appended(prev, self.signatures@, base, acc, ("reduce"@, 3nat, SignatureSource::Prelude));
            acc = acc.push(("reduce"@, 3nat, SignatureSource::Prelude));
            prev = self.signatures@;
        }
        self.generic_signature(
            "into",
            vec!["A", "E"],
            vec![generic("java.util.List", vec![var("A")]), capability("Reducible", vec![var("E")])],
            generic("java.util.List", vec![union(vec![var("A"), var("E")])]),
            prelude,
        );
        proof {
            lemma_appended(prev, self.signatures@, base, acc, ("into"@, 2nat, SignatureSource::Prelude));
            acc = acc.push(("into"@, 2nat, SignatureSource::Prelude));
            prev = self.signatures@;
        }
        self.generic_signature(
            "into",
            vec!["A", "E", "R"],
            vec![
                generic("java.util.List", vec![var("A")]),
                capability("Transducer", vec![var("E"), var("R")]),
                capability("Reducible", vec![var("E")]),
            ],
            generic("java.util.List", vec![union(vec![var("A"), var("R")])]),
            prelude,
        );
        proof {
            lemma_appended(prev, self.signatures@, base, acc, ("into"@, 3nat, SignatureSource::Prelude));
            acc = acc.push(("into"@, 3nat, SignatureSource::Prelude));
            prev = self.signatures@;
        }
        self.generic_signature(
            "into",
            vec!["A", "E"],
            vec![generic("java.util.Set", vec![var("A")]), capability("Reducible", vec![var("E")])],
            generic("java.util.Set", vec![union(vec![var("A"), var("E")])]),
            prelude,
        );
        proof {
            lemma_appended(prev, self.signatures@, base, acc, ("into"@, 2nat, SignatureSource::Prelude));
            acc = acc.push(("into"@, 2nat, SignatureSource::Prelude));
            prev = self.signatures@;
        }
        self.generic_signature(
            "into",
            vec!["A", "E", "R"],
            vec![
                generic("java.util.Set", vec![var("A")]),
                capability("Transducer", vec![var("E"), var("R")]),
                capability("Reducible", vec![var("E")]),
            ],
            generic("java.util.Set", vec![union(vec![var("A"), var("R")])]),
            prelude,
        );
        proof {
            lemma_appended(prev, self.signatures@, base, acc, ("into"@, 3nat, SignatureSource::Prelude));
            acc = acc.push(("into"@, 3nat, SignatureSource::Prelude));
            prev = self.signatures@;
        }
        self.generic_signature(
            "first",
            vec!["A"],
            vec![capability("Seqable", vec![var("A")])],
            union(vec![var("A"), simple("Nil")]),
            prelude,
        );
        proof {
            lemma_appended(prev, self.signatures@, base, acc, ("first"@, 1nat, SignatureSource::Prelude));
            acc = acc.push(("first"@, 1nat, SignatureSource::Prelude));
            prev = self.signatures@;
        }
        proof {
            assert(acc =~= seq![
                ("map"@, 2nat, SignatureSource::Prelude),
                ("map"@, 1nat, SignatureSource::Prelude),
                ("map"@, 3nat, SignatureSource::Prelude),
                ("map"@, 4nat, SignatureSource::Prelude),
                ("filter"@, 2nat, SignatureSource::Prelude),
                ("filter"@, 1nat, SignatureSource::Prelude),
                ("every?"@, 2nat, SignatureSource::Prelude),
                ("some"@, 2nat, SignatureSource::Prelude),
                ("reduce"@, 3nat, SignatureSource::Prelude),
                ("into"@, 2nat, SignatureSource::Prelude),
                ("into"@, 3nat, SignatureSource::Prelude),
                ("into"@, 2nat, SignatureSource::Prelude),
                ("into"@, 3nat, SignatureSource::Prelude),
                ("first"@, 1nat, SignatureSource::Prelude)
            ]);
        }
    }

    /// Registers the prelude signatures of part 4, in order.
    fn install_prelude_part4(&mut self)
        requires
            old(self).wf(),
        ensures
            final(self).wf(),
            old(self).n() <= final(self).n(),
            final(self).program == old(self).program,
            final(self).oracle == old(self).oracle,
            final(self).typing.functions == old(self).typing.functions,
            crate::types::model::diags_extend(old(self).typing.diagnostics@, final(self).typing.diagnostics@),
            crate::types::extends(old(self).typing.table@, final(self).typing.table@),
            final(self).signatures@.take(old(self).signatures@.len() as int) == old(self).signatures@,
            final(self).signatures@.len() >= old(self).signatures@.len(),
            prelude_views(final(self).signatures@.skip(old(self).signatures@.len() as int)) == seq![
                ("seq"@, 1nat, SignatureSource::Prelude),
                ("count"@, 1nat, SignatureSource::Prelude),
                (">"@, 2nat, SignatureSource::Prelude),
                (">="@, 2nat, SignatureSource::Prelude),
                ("<"@, 2nat, SignatureSource::Prelude),
                ("<="@, 2nat, SignatureSource::Prelude),
                ("="@, 2nat, SignatureSource::Prelude),
                ("and"@, 2nat, SignatureSource::Prelude),
                ("and"@, 3nat, SignatureSource::Prelude),
                ("or"@, 2nat, SignatureSource::Prelude),
                ("or"@, 3nat, SignatureSource::Prelude)
            ],
    {
        let prelude = SignatureSource::Prelude;
        let ghost base = self.signatures@.len() as int;
        let ghost mut prev = self.signatures@;
        let ghost mut acc: Seq<(Seq<char>, nat, SignatureSource)> = Seq::empty();
        proof {
            assert(prelude_views(prev.skip(base)) =~= acc);
            assert(prev.take(base) =~= prev);
        }

        self.generic_signature(
            "seq",
            vec!["A"],
            vec![capability("Seqable", vec![var("A")])],
            union(vec![generic("clojure.lang.ISeq", vec![var("A")]), simple("Nil")]),
            prelude,
        );
        proof {
            lemma_appended(prev, self.signatures@, base, acc, ("seq"@, 1nat, SignatureSource::Prelude));
            acc = acc.push(("seq"@, 1nat, SignatureSource::Prelude));
            prev = self.signatures@;
        }
        self.signature("count", vec![capability("Countable", Vec::new())], simple("Long"), prelude);
        proof {
            lemma_appended(prev, self.signatures@, base, acc, ("count"@, 1nat, SignatureSource::Prelude));
            acc = acc.push(("count"@, 1nat, SignatureSource::Prelude));
            prev = self.signatures@;
        }
        self.signature(">", vec![simple("Number"), simple("Number")], simple("Boolean"), prelude);
        proof {
            lemma_appended(prev, self.signatures@, base, acc, (">"@, 2nat, SignatureSource::Prelude));
            acc = acc.push((">"@, 2nat, SignatureSource::Prelude));
            prev = self.signatures@;
        }
        self.signature(">=", vec![simple("Number"), simple("Number")], simple("Boolean"), prelude);
        proof {
            lemma_appended(prev, self.signatures@, base, acc, (">="@, 2nat, SignatureSource::Prelude));
            acc = acc.push((">="@, 2nat, SignatureSource::Prelude));
            prev = self.signatures@;
        }
        self.signature("<", vec![simple("Number"), simple("Number")], simple("Boolean"), prelude);
        proof {
            lemma_appended(prev, self.signatures@, base, acc, ("<"@, 2nat, SignatureSource::Prelude));
            acc = acc.push(("<"@, 2nat, SignatureSource::Prelude));
            prev = self.signatures@;
        }
        self.signature("<=", vec![simple("Number"), simple("Number")], simple("Boolean"), prelude);
        proof {
            lemma_appended(prev, self.signatures@, base, acc, ("<="@, 2nat, SignatureSource::Prelude));
            acc = acc.push(("<="@, 2nat, SignatureSource::Prelude));
            prev = self.signatures@;
        }
        self.signature("=", vec![simple("Any"), simple("Any")], simple("Boolean"), prelude);
        proof {
            lemma_appended(prev, self.signatures@, base, acc, ("="@, 2nat, SignatureSource::Prelude));
            acc = acc.push(("="@, 2nat, SignatureSource::Prelude));
            prev = self.signatures@;
        }
        self.signature("and", vec![simple("Any"), simple("Any")], simple("Boolean"), prelude);
        proof {
            lemma_appended(prev, self.signatures@, base, acc, ("and"@, 2nat, SignatureSource::Prelude));
            acc = acc.push(("and"@, 2nat, SignatureSource::Prelude));
            prev = self.signatures@;
        }
        self.signature("and", vec![simple("Any"), simple("Any"), simple("Any")], simple("Boolean"), prelude);
        proof {
            lemma_appended(prev, self.signatures@, base, acc, ("and"@, 3nat, SignatureSource::Prelude));
            acc = acc.push(("and"@, 3nat, SignatureSource::Prelude));
            prev = self.signatures@;
        }
        self.signature("or", vec![simple("Any"), simple("Any")], simple("Boolean"), prelude);
        proof {
            lemma_appended(prev, self.signatures@, base, acc, ("or"@, 2nat, SignatureSource::Prelude));
            acc = acc.push(("or"@, 2nat, SignatureSource::Prelude));
            prev = self.signatures@;
        }
        self.signature("or", vec![simple("Any"), simple("Any"), simple("Any")], simple("Boolean"), prelude);
        proof {
            lemma_appended(prev, self.signatures@, base, acc, ("or"@, 3nat, SignatureSource::Prelude));
            acc = acc.push(("or"@, 3nat, SignatureSource::Prelude));
            prev = self.signatures@;
        }
        proof {
            assert(acc =~= seq![
                ("seq"@, 1nat, SignatureSource::Prelude),
                ("count"@, 1nat, SignatureSource::Prelude),
                (">"@, 2nat, SignatureSource::Prelude),
                (">="@, 2nat, SignatureSource::Prelude),
                ("<"@, 2nat, SignatureSource::Prelude),
                ("<="@, 2nat, SignatureSource::Prelude),
                ("="@, 2nat, SignatureSource::Prelude),
                ("and"@, 2nat, SignatureSource::Prelude),
                ("and"@, 3nat, SignatureSource::Prelude),
                ("or"@, 2nat, SignatureSource::Prelude),
                ("or"@, 3nat, SignatureSource::Prelude)
            ]);
        }
    }

}

/// Types the ordinary `fn` forms and annotated ops of `program`; every
/// typed `fn` is recorded.
pub fn analyze(program: &Program<'_>) -> (out: Typing)
    ensures
        out.wf(),
        forall|j: int| 0 <= j < program.source.items@.len() ==> match #[trigger] program.source.items@[j] {
            Item::Fn(f) => typed_function_spec(f) ==> has_function(out.functions@, f.name.node@),
            _ => true,
        },
{
    let checker: Checker<'_, NoOracle> = Checker::new(program, None);
    checker.run()
}

/// As [`analyze`], consulting `oracle` for class assignability and for
/// suggestions when a function is unknown.
pub fn analyze_with_oracle<O: TypeOracle>(program: &Program<'_>, oracle: &O) -> (out: Typing)
    ensures
        out.wf(),
        forall|j: int| 0 <= j < program.source.items@.len() ==> match #[trigger] program.source.items@[j] {
            Item::Fn(f) => typed_function_spec(f) ==> has_function(out.functions@, f.name.node@),
            _ => true,
        },
{
    let checker = Checker::new(program, Some(oracle));
    checker.run()
}

} // verus!
