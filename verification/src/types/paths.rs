//! Op-lite checking: event fields type destructured bindings, and
//! select/transform paths are folded through the pstate's declared schema.

use vstd::prelude::*;
use crate::ast::{Expr, StructDecl, StructField, TypeExpr};
use crate::error::Diagnostic;
use crate::span::Spanned;
use crate::text::{cat, join, join_seq, owned, str_eq, views};
use crate::types::checker::{entries_below, Checker};
use crate::types::model::{ids_below, TypeOracle};
use crate::types::{Type, TypeId, TypeModel};

verus! {

/// Where a select/transform path currently points within a declared schema.
#[derive(Debug, PartialEq)]
pub enum SchemaFocus {
    MapOf { key: TypeId, value: Box<SchemaFocus> },
    Struct(String),
    Leaf(TypeId),
    Dynamic,
}

/// The diagnostics one step down a schema adds, where the step itself
/// decides them: a struct addressed by other than a keyword or string, a
/// field the struct lacks, a step below a leaf. `None` where the step
/// checks a map key or descends into a field's schema.
pub open spec fn descend_key_diags(focus: SchemaFocus, key: Expr, structs: Seq<&StructDecl>, table: Seq<TypeModel>) -> Option<Seq<(crate::error::DiagnosticKind, crate::span::Span, Seq<char>)>> {
    match focus {
        SchemaFocus::Struct(n) => match key {
            Expr::Keyword(f) => descend_field_diags(n@, f, structs),
            Expr::String(f) => descend_field_diags(n@, f, structs),
            _ => Some(seq![(
                crate::error::DiagnosticKind::Type,
                crate::ast::expr_span(key),
                "fields of `"@ + n@ + "` are addressed by keyword, e.g. `:status`"@,
            )]),
        },
        SchemaFocus::Leaf(t) => Some(seq![(
            crate::error::DiagnosticKind::Type,
            crate::ast::expr_span(key),
            "cannot descend into `"@ + crate::types::display_spec(table, t) + "`; the path already reached a leaf value"@,
        )]),
        SchemaFocus::Dynamic => Some(Seq::empty()),
        _ => None,
    }
}

/// The diagnostics of addressing field `f` of struct `n`: none when the
/// struct is unknown, one naming the available fields when it lacks `f`.
pub open spec fn descend_field_diags(n: Seq<char>, f: Spanned<String>, structs: Seq<&StructDecl>) -> Option<Seq<(crate::error::DiagnosticKind, crate::span::Span, Seq<char>)>> {
    match crate::rama_ir::last_struct(structs, n) {
        None => Some(Seq::empty()),
        Some(d) => if field_schema(d.fields@, f.node@) is None {
            Some(seq![(
                crate::error::DiagnosticKind::Type,
                f.span,
                "`"@ + n + "` has no field `"@ + f.node@ + "`; available: "@ + join_seq(field_names(d.fields@), ", "@),
            )])
        } else {
            None
        },
    }
}

impl Clone for SchemaFocus {
    fn clone(&self) -> (out: Self)
        ensures
            out == *self,
        decreases self,
    {
        match self {
            SchemaFocus::MapOf { key, value } => SchemaFocus::MapOf { key: *key, value: Box::new((**value).clone()) },
            SchemaFocus::Struct(name) => SchemaFocus::Struct(name.clone()),
            SchemaFocus::Leaf(t) => SchemaFocus::Leaf(*t),
            SchemaFocus::Dynamic => SchemaFocus::Dynamic,
        }
    }
}

/// The type ids a focus holds, outermost first.
pub open spec fn focus_ids(f: SchemaFocus) -> Seq<TypeId>
    decreases f,
{
    match f {
        SchemaFocus::MapOf { key, value } => seq![key] + focus_ids(*value),
        SchemaFocus::Leaf(t) => seq![t],
        _ => Seq::empty(),
    }
}

proof fn lemma_focus_value(key: TypeId, value: SchemaFocus, n: int)
    requires
        ids_below(focus_ids(SchemaFocus::MapOf { key, value: Box::new(value) }), n),
    ensures
        ids_below(focus_ids(value), n),
        key.0 < n,
{
    let all = focus_ids(SchemaFocus::MapOf { key, value: Box::new(value) });
    assert(all == seq![key] + focus_ids(value));
    assert(all[0] == key);
    assert forall|k: int| 0 <= k < focus_ids(value).len() implies (#[trigger] focus_ids(value)[k]).0 < n by {
        assert(all[k + 1] == focus_ids(value)[k]);
    }
}

proof fn lemma_focus_map(key: TypeId, value: SchemaFocus, n: int)
    requires
        ids_below(focus_ids(value), n),
        key.0 < n,
    ensures
        ids_below(focus_ids(SchemaFocus::MapOf { key, value: Box::new(value) }), n),
{
    let all = focus_ids(SchemaFocus::MapOf { key, value: Box::new(value) });
    assert(all == seq![key] + focus_ids(value));
    assert forall|k: int| 0 <= k < all.len() implies (#[trigger] all[k]).0 < n by {
        if k > 0 {
            assert(all[k] == focus_ids(value)[k - 1]);
        }
    }
}

proof fn lemma_focus_leaf(t: TypeId, n: int)
    requires
        ids_below(focus_ids(SchemaFocus::Leaf(t)), n),
    ensures
        t.0 < n,
{
    assert(focus_ids(SchemaFocus::Leaf(t))[0] == t);
}

#[derive(Debug, Clone, Copy, PartialEq, Eq, Structural)]
pub enum PathMode {
    Select,
    Transform,
}

/// The text bound last to `name`.
pub open spec fn text_lookup(entries: Seq<(String, String)>, name: Seq<char>) -> Option<Seq<char>>
    decreases entries.len(),
{
    if entries.len() == 0 {
        None
    } else if entries.last().0@ == name {
        Some(entries.last().1@)
    } else {
        text_lookup(entries.drop_last(), name)
    }
}

/// The struct named by an event parameter, the last binding of the name.
pub fn text_entry_get<'b>(entries: &'b Vec<(String, String)>, name: &str) -> (out: Option<&'b String>)
    ensures
        out matches Some(v) ==> exists|k: int| 0 <= k < entries@.len() && entries@[k].0@ == name@ && entries@[k].1 == *v,
        out is None ==> forall|k: int| 0 <= k < entries@.len() ==> (#[trigger] entries@[k]).0@ != name@,
        match out {
            Some(v) => text_lookup(entries@, name@) == Some(v@),
            None => text_lookup(entries@, name@) is None,
        },
{
    let mut i = entries.len();
    assert(entries@.take(i as int) =~= entries@);
    while i > 0
        invariant
            i <= entries.len(),
            forall|k: int| i <= k < entries@.len() ==> (#[trigger] entries@[k]).0@ != name@,
            text_lookup(entries@, name@) == text_lookup(entries@.take(i as int), name@),
        decreases i,
    {
        assert(entries@.take(i as int).drop_last() =~= entries@.take(i - 1));
        assert(entries@.take(i as int).last() == entries@[i - 1]);
        if str_eq(entries[i - 1].0.as_str(), name) {
            return Some(&entries[i - 1].1);
        }
        i -= 1;
    }
    None
}

/// The schema of the field `name`.
pub fn find_field<'b>(fields: &'b Vec<StructField>, name: &str) -> (out: Option<&'b TypeExpr>)
    ensures
        out matches Some(t) ==> exists|k: int| 0 <= k < fields@.len() && fields@[k].name.node@ == name@ && fields@[k].ty.node == *t,
        out is None ==> forall|k: int| 0 <= k < fields@.len() ==> (#[trigger] fields@[k]).name.node@ != name@,
        match out {
            Some(t) => field_schema(fields@, name@) == Some(*t),
            None => field_schema(fields@, name@) is None,
        },
{
    let mut i: usize = 0;
    while i < fields.len()
        invariant
            i <= fields.len(),
            forall|k: int| 0 <= k < i ==> (#[trigger] fields@[k]).name.node@ != name@,
        decreases fields.len() - i,
    {
        if str_eq(fields[i].name.node.as_str(), name) {
            proof {
                lemma_field_schema_first(fields@, name@, i as int);
            }
            return Some(&fields[i].ty.node);
        }
        i += 1;
    }
    proof {
        lemma_field_schema_none(fields@, name@);
    }
    None
}

/// The schema of the first field named `name`.
pub open spec fn field_schema(fields: Seq<StructField>, name: Seq<char>) -> Option<TypeExpr>
    decreases fields.len(),
{
    if fields.len() == 0 {
        None
    } else if fields[0].name.node@ == name {
        Some(fields[0].ty.node)
    } else {
        field_schema(fields.drop_first(), name)
    }
}

proof fn lemma_field_schema_first(fields: Seq<StructField>, name: Seq<char>, i: int)
    requires
        0 <= i < fields.len(),
        fields[i].name.node@ == name,
        forall|k: int| 0 <= k < i ==> (#[trigger] fields[k]).name.node@ != name,
    ensures
        field_schema(fields, name) == Some(fields[i].ty.node),
    decreases i,
{
    if i > 0 {
        assert(fields[0].name.node@ != name);
        lemma_field_schema_first(fields.drop_first(), name, i - 1);
    }
}

proof fn lemma_field_schema_none(fields: Seq<StructField>, name: Seq<char>)
    requires
        forall|k: int| 0 <= k < fields.len() ==> (#[trigger] fields[k]).name.node@ != name,
    ensures
        field_schema(fields, name) is None,
    decreases fields.len(),
{
    if fields.len() > 0 {
        assert(fields[0].name.node@ != name);
        lemma_field_schema_none(fields.drop_first(), name);
    }
}

/// The names of the fields, in declaration order.
pub open spec fn field_names(fields: Seq<StructField>) -> Seq<Seq<char>> {
    fields.map_values(|f: StructField| f.name.node@)
}

/// The field names in declaration order, joined with `, `.
pub fn field_list(fields: &Vec<StructField>) -> (out: String)
    ensures
        out@ == join_seq(field_names(fields@), ", "@),
{
    let mut names: Vec<String> = Vec::new();
    let mut i: usize = 0;
    while i < fields.len()
        invariant
            i <= fields.len(),
            views(names@) == field_names(fields@).take(i as int),
        decreases fields.len() - i,
    {
        let name = fields[i].name.node.clone();
        assert(name@ == fields@[i as int].name.node@);
        let ghost prev = names@;
        names.push(name);
        assert(views(names@) =~= views(prev).push(fields@[i as int].name.node@));
        assert(field_names(fields@).take(i + 1) =~= field_names(fields@).take(i as int).push(field_names(fields@)[i as int]));
        assert(views(names@) =~= field_names(fields@).take(i + 1));
        i += 1;
    }
    assert(field_names(fields@).take(fields@.len() as int) =~= field_names(fields@));
    join(&names, ", ")
}

/// The message for a field that a struct does not declare.
fn no_field_message(struct_name: &str, field: &str, fields: &Vec<StructField>) -> (out: String)
    ensures
        out@ == "`"@ + struct_name@ + "` has no field `"@ + field@ + "`; available: "@ + join_seq(field_names(fields@), ", "@),
{
    let available = field_list(fields);
    let mut out = owned("`");
    out.push_str(struct_name);
    out.push_str("` has no field `");
    out.push_str(field);
    out.push_str("`; available: ");
    out.push_str(available.as_str());
    out
}

/// The value type a leaf schema carries: the scalar aliases as their
/// classes, anything else `Dynamic`.
pub open spec fn schema_value_model(schema: TypeExpr) -> TypeModel {
    match schema {
        TypeExpr::Named(n) => if n@ == "String"@ {
            TypeModel::Jvm { class: "java.lang.String"@, args: Seq::empty() }
        } else if n@ == "Long"@ || n@ == "Int"@ || n@ == "Integer"@ {
            TypeModel::Jvm { class: "java.lang.Long"@, args: Seq::empty() }
        } else if n@ == "Boolean"@ {
            TypeModel::Jvm { class: "java.lang.Boolean"@, args: Seq::empty() }
        } else {
            TypeModel::Dynamic
        },
        _ => TypeModel::Dynamic,
    }
}

/// `focus` is the navigable focus of a declared schema: declared structs by
/// name, maps by their key's value type and their value's focus, other
/// names as leaves of their value type, `Object` as dynamic.
pub open spec fn focus_of(table: Seq<TypeModel>, focus: SchemaFocus, schema: TypeExpr, structs: Seq<&StructDecl>) -> bool
    decreases schema,
{
    match schema {
        TypeExpr::Named(n) => if crate::rama_ir::last_struct(structs, n@) is Some {
            focus matches SchemaFocus::Struct(s) && s@ == n@
        } else {
            focus matches SchemaFocus::Leaf(t) && table[t.0 as int] == schema_value_model(schema)
        },
        TypeExpr::Object => focus is Dynamic,
        TypeExpr::MapType { key, value, .. } => focus matches SchemaFocus::MapOf { key: k, value: v } && table[k.0 as int]
            == schema_value_model(*key) && focus_of(table, *v, *value, structs),
    }
}

/// Path segments that leave the focus where it is: `nil->val`, `termval`,
/// `term`, `multi-path`, `NONE>` and `AFTER-ELEM`.
pub open spec fn keeps_focus(segment: Expr) -> bool {
    match segment {
        Expr::Call(c) => c.callee.node@ == "nil->val"@ || c.callee.node@ == "termval"@ || c.callee.node@ == "term"@
            || c.callee.node@ == "multi-path"@,
        Expr::Ident(i) => i.node@ == "NONE>"@ || i.node@ == "AFTER-ELEM"@,
        _ => false,
    }
}

/// Path segments the schema cannot follow: other calls than those and
/// `keypath`, other identifiers, and any other expression but a keyword.
pub open spec fn loses_focus(segment: Expr) -> bool {
    match segment {
        Expr::Call(c) => !keeps_focus(segment) && c.callee.node@ != "keypath"@,
        Expr::Keyword(_) => false,
        _ => !keeps_focus(segment),
    }
}

/// The fields of the declared struct a focus stands on, if it does.
pub open spec fn struct_of_focus(focus: SchemaFocus, structs: Seq<&StructDecl>) -> Option<Seq<StructField>> {
    match focus {
        SchemaFocus::Struct(n) => match crate::rama_ir::last_struct(structs, n@) {
            Some(d) => Some(d.fields@),
            None => None,
        },
        _ => None,
    }
}

/// A destructured name bound to its field's value type (`Unknown` for a
/// field the struct lacks), or to `Dynamic` off a struct.
pub open spec fn destructured_bound(table: Seq<TypeModel>, entry: (String, TypeId), name: Seq<char>, fields: Option<Seq<StructField>>) -> bool {
    &&& entry.0@ == name
    &&& entry.1.0 < table.len()
    &&& table[entry.1.0 as int] == match fields {
        Some(fs) => match field_schema(fs, name) {
            Some(schema) => schema_value_model(schema),
            None => TypeModel::Unknown,
        },
        None => TypeModel::Dynamic,
    }
}

impl<'a, O: TypeOracle> Checker<'a, O> {
    /// The fields of the struct declared under `name`.
    pub fn struct_fields(&self, name: &str) -> (out: Option<&'a Vec<StructField>>)
        ensures
            match out {
                Some(fs) => crate::rama_ir::last_struct(self.program.structs@, name@) matches Some(d) && d.fields == *fs,
                None => crate::rama_ir::last_struct(self.program.structs@, name@) is None,
            },
    {
        let program = self.program;
        match program.struct_decl(name) {
            Some(declaration) => Some(&declaration.fields),
            None => None,
        }
    }

    /// The value type an event field of schema `schema` carries after
    /// boundary validation and coercion.
    pub fn schema_value_type(&mut self, schema: &TypeExpr) -> (out: TypeId)
        requires
            old(self).wf(),
        ensures
            final(self).typing.table@[out.0 as int] == schema_value_model(*schema),
            final(self).typing.diagnostics == old(self).typing.diagnostics,
            crate::types::extends(old(self).typing.table@, final(self).typing.table@),
            final(self).wf(),
            old(self).n() <= final(self).n(),
            out.0 < final(self).n(),
            final(self).signatures == old(self).signatures,
            final(self).program == old(self).program,
            final(self).oracle == old(self).oracle,
            final(self).typing.functions == old(self).typing.functions,
            crate::types::model::diags_extend(old(self).typing.diagnostics@, final(self).typing.diagnostics@),
    {
        match schema {
            TypeExpr::Named(name) => {
                if str_eq(name.as_str(), "String") {
                    self.typing.table.jvm(owned("java.lang.String"), Vec::new())
                } else if str_eq(name.as_str(), "Long") || str_eq(name.as_str(), "Int") || str_eq(name.as_str(), "Integer") {
                    self.typing.table.jvm(owned("java.lang.Long"), Vec::new())
                } else if str_eq(name.as_str(), "Boolean") {
                    self.typing.table.jvm(owned("java.lang.Boolean"), Vec::new())
                } else {
                    self.leaf(Type::Dynamic)
                }
            }
            TypeExpr::Object | TypeExpr::MapType { .. } => self.leaf(Type::Dynamic),
        }
    }

    /// A declared schema type as a navigable focus.
    pub fn schema_focus(&mut self, schema: &TypeExpr) -> (out: SchemaFocus)
        requires
            old(self).wf(),
        ensures
            focus_of(final(self).typing.table@, out, *schema, old(self).program.structs@),
            crate::types::extends(old(self).typing.table@, final(self).typing.table@),
            final(self).wf(),
            old(self).n() <= final(self).n(),
            ids_below(focus_ids(out), final(self).n()),
            final(self).signatures == old(self).signatures,
            final(self).program == old(self).program,
            final(self).oracle == old(self).oracle,
            final(self).typing.functions == old(self).typing.functions,
            crate::types::model::diags_extend(old(self).typing.diagnostics@, final(self).typing.diagnostics@),
        decreases schema,
    {
        match schema {
            TypeExpr::Named(name) => {
                if self.struct_fields(name.as_str()).is_some() {
                    let label = name.clone();
                    assert(label@ == name@);
                    SchemaFocus::Struct(label)
                } else {
                    let t = self.schema_value_type(schema);
                    assert(focus_ids(SchemaFocus::Leaf(t)) == seq![t]);
                    SchemaFocus::Leaf(t)
                }
            }
            TypeExpr::Object => SchemaFocus::Dynamic,
            TypeExpr::MapType { key, value, .. } => {
                let k = self.schema_value_type(key);
                let ghost mid = self.typing.table@;
                let v = self.schema_focus(value);
                proof {
                    lemma_focus_map(k, v, self.n());
                    assert(self.typing.table@[k.0 as int] == mid[k.0 as int]);
                }
                SchemaFocus::MapOf { key: k, value: Box::new(v) }
            }
        }
    }

    /// Folds a select/transform path through the pstate's declared schema,
    /// checking key types, field existence and written values; the final
    /// focus is returned for binding.
    #[verifier::loop_isolation(false)]
    pub fn fold_path(
        &mut self,
        pstate: &Spanned<String>,
        path: &Vec<Expr>,
        locals: &Vec<(String, TypeId)>,
        mode: PathMode,
    ) -> (out: SchemaFocus)
        requires
            old(self).wf(),
            entries_below(locals@, old(self).n()),
        ensures
            final(self).wf(),
            old(self).n() <= final(self).n(),
            ids_below(focus_ids(out), final(self).n()),
            final(self).signatures == old(self).signatures,
            final(self).program == old(self).program,
            final(self).oracle == old(self).oracle,
            final(self).typing.functions == old(self).typing.functions,
            crate::types::model::diags_extend(old(self).typing.diagnostics@, final(self).typing.diagnostics@),
            crate::types::extends(old(self).typing.table@, final(self).typing.table@),
    {
        let program = self.program;
        let declaration = match program.pstate_decl(pstate.node.as_str()) {
            Some(d) => d,
            None => return SchemaFocus::Dynamic,
        };
        let mut focus = self.schema_focus(&declaration.ty.node);
        let mut i: usize = 0;
        while i < path.len()
            invariant
                i <= path.len(),
                self.wf(),
                old(self).n() <= self.n(),
                ids_below(focus_ids(focus), self.n()),
                entries_below(locals@, self.n()),
                self.signatures == old(self).signatures,
                self.program == old(self).program,
                self.oracle == old(self).oracle,
                self.typing.functions == old(self).typing.functions,
                crate::types::model::diags_extend(old(self).typing.diagnostics@, self.typing.diagnostics@),
                crate::types::extends(old(self).typing.table@, self.typing.table@),
            decreases path.len() - i,
        {
            focus = self.fold_segment(focus, &path[i], locals, mode);
            i += 1;
        }
        focus
    }

    /// Diagnoses `actual` where `expected` is declared, with `what` naming
    /// the position.
    fn check_position(&mut self, actual: TypeId, expected: TypeId, before: &str, between: &str, after: &str, span: crate::span::Span)
        requires
            old(self).wf(),
        ensures
            final(self).wf(),
            old(self).n() == final(self).n(),
            final(self).signatures == old(self).signatures,
            final(self).program == old(self).program,
            final(self).oracle == old(self).oracle,
            final(self).typing.functions == old(self).typing.functions,
            crate::types::model::diags_extend(old(self).typing.diagnostics@, final(self).typing.diagnostics@),
            crate::types::extends(old(self).typing.table@, final(self).typing.table@),
            final(self).typing.table == old(self).typing.table,
            final(self).typing.diagnostics@ == old(self).typing.diagnostics@ || (final(self).typing.diagnostics@.len()
                == old(self).typing.diagnostics@.len() + 1 && final(self).typing.diagnostics@.drop_last() == old(self).typing.diagnostics@
                && final(self).typing.diagnostics@.last().kind == crate::error::DiagnosticKind::Type
                && final(self).typing.diagnostics@.last().span == span
                && final(self).typing.diagnostics@.last().message@ == before@ + crate::types::display_spec(old(self).typing.table@, actual)
                    + between@ + crate::types::display_spec(old(self).typing.table@, expected) + after@),
            old(self).oracle is None ==> (final(self).typing.diagnostics@ == old(self).typing.diagnostics@ <==> crate::types::checker::assignable_spec(
                old(self).typing.table@,
                actual,
                expected,
            )),
    {
        if !self.assignable(actual, expected) {
            let shown_actual = self.typing.table.display(actual);
            let shown_expected = self.typing.table.display(expected);
            let mut message = owned(before);
            message.push_str(shown_actual.as_str());
            message.push_str(between);
            message.push_str(shown_expected.as_str());
            message.push_str(after);
            let ghost diags = self.typing.diagnostics@;
            self.typing.diagnostics.push(Diagnostic::type_error(span, message));
            assert(self.typing.diagnostics@.drop_last() =~= diags);
            assert(self.typing.diagnostics@.len() != diags.len());
        }
    }

    #[verifier::loop_isolation(false)]
    pub fn fold_segment(
        &mut self,
        focus: SchemaFocus,
        segment: &Expr,
        locals: &Vec<(String, TypeId)>,
        mode: PathMode,
    ) -> (out: SchemaFocus)
        requires
            old(self).wf(),
            entries_below(locals@, old(self).n()),
            ids_below(focus_ids(focus), old(self).n()),
        ensures
            final(self).wf(),
            old(self).n() <= final(self).n(),
            ids_below(focus_ids(out), final(self).n()),
            final(self).signatures == old(self).signatures,
            final(self).program == old(self).program,
            final(self).oracle == old(self).oracle,
            final(self).typing.functions == old(self).typing.functions,
            crate::types::model::diags_extend(old(self).typing.diagnostics@, final(self).typing.diagnostics@),
            crate::types::extends(old(self).typing.table@, final(self).typing.table@),
            loses_focus(*segment) ==> out is Dynamic,
        decreases segment,
    {
        match segment {
            Expr::Call(call) => {
                let callee = call.callee.node.as_str();
                if str_eq(callee, "keypath") {
                    let mut focus = focus;
                    let mut i: usize = 0;
                    while i < call.args.len()
                        invariant
                            i <= call.args.len(),
                            self.wf(),
                            old(self).n() <= self.n(),
                            ids_below(focus_ids(focus), self.n()),
                            entries_below(locals@, self.n()),
                            self.signatures == old(self).signatures,
                            self.program == old(self).program,
                            self.oracle == old(self).oracle,
                            self.typing.functions == old(self).typing.functions,
                            crate::types::model::diags_extend(old(self).typing.diagnostics@, self.typing.diagnostics@),
                            crate::types::extends(old(self).typing.table@, self.typing.table@),
                        decreases call.args.len() - i,
                    {
                        focus = self.descend_key(focus, &call.args[i], locals);
                        i += 1;
                    }
                    focus
                } else if str_eq(callee, "nil->val") {
                    if call.args.len() > 0 {
                        if let SchemaFocus::Leaf(expected) = focus {
                            proof {
                                lemma_focus_leaf(expected, self.n());
                            }
                            let default = &call.args[0];
                            let actual = self.infer_expr(default, locals);
                            self.check_position(
                                actual,
                                expected,
                                "nil->val default has type `",
                                "`, this position declares `",
                                "`",
                                default.span(),
                            );
                        }
                    }
                    focus
                } else if str_eq(callee, "termval") {
                    if mode == PathMode::Transform && call.args.len() > 0 {
                        self.check_termval(&focus, &call.args[0], locals);
                    }
                    focus
                } else if str_eq(callee, "term") {
                    if mode == PathMode::Transform && call.args.len() > 0 {
                        if let (Expr::Ident(function), SchemaFocus::Leaf(t)) = (&call.args[0], &focus) {
                            if !str_eq(function.node.as_str(), "identity") {
                                let t = *t;
                                let callable = self.infer_function_value(function.node.as_str(), function.span);
                                if let Type::Function { params, ret } = self.typing.table.ty(callable) {
                                    if params.len() == 1 && (!self.assignable(t, params[0]) || !self.assignable(ret, t)) {
                                        let shown_callable = self.typing.table.display(callable);
                                        let shown_position = self.typing.table.display(t);
                                        let message = cat(
                                            vec![
                                                "term function `",
                                                function.node.as_str(),
                                                "` has type `",
                                                shown_callable.as_str(),
                                                "`, incompatible with this position's `",
                                                shown_position.as_str(),
                                                "`",
                                            ],
                                        );
                                        self.typing.diagnostics.push(Diagnostic::type_error(function.span, message));
                                    }
                                }
                            }
                        }
                    }
                    focus
                } else if str_eq(callee, "multi-path") {
                    let mut b: usize = 0;
                    while b < call.args.len()
                        invariant
                            b <= call.args.len(),
                            self.wf(),
                            old(self).n() <= self.n(),
                            ids_below(focus_ids(focus), self.n()),
                            entries_below(locals@, self.n()),
                            self.signatures == old(self).signatures,
                            self.program == old(self).program,
                            self.oracle == old(self).oracle,
                            self.typing.functions == old(self).typing.functions,
                            crate::types::model::diags_extend(old(self).typing.diagnostics@, self.typing.diagnostics@),
                            crate::types::extends(old(self).typing.table@, self.typing.table@),
                        decreases call.args.len() - b,
                    {
                        if let Expr::List { elems, .. } = &call.args[b] {
                            let mut branch_focus = focus.clone();
                            let mut e: usize = 0;
                            while e < elems.len()
                                invariant
                                    e <= elems.len(),
                                    self.wf(),
                                    old(self).n() <= self.n(),
                                    ids_below(focus_ids(focus), self.n()),
                                    ids_below(focus_ids(branch_focus), self.n()),
                                    entries_below(locals@, self.n()),
                                    self.signatures == old(self).signatures,
                                    self.program == old(self).program,
                                    self.oracle == old(self).oracle,
                                    self.typing.functions == old(self).typing.functions,
                                    crate::types::model::diags_extend(old(self).typing.diagnostics@, self.typing.diagnostics@),
                                    crate::types::extends(old(self).typing.table@, self.typing.table@),
                                decreases elems.len() - e,
                            {
                                branch_focus = self.fold_segment(branch_focus, &elems[e], locals, mode);
                                e += 1;
                            }
                        }
                        b += 1;
                    }
                    focus
                } else {
                    SchemaFocus::Dynamic
                }
            }
            Expr::Keyword(_) => self.descend_key(focus, segment, locals),
            Expr::Ident(ident) => {
                if str_eq(ident.node.as_str(), "NONE>") || str_eq(ident.node.as_str(), "AFTER-ELEM") {
                    focus
                } else {
                    SchemaFocus::Dynamic
                }
            }
            _ => SchemaFocus::Dynamic,
        }
    }

    /// Moves the focus one key down the schema.
    pub fn descend_key(&mut self, focus: SchemaFocus, key: &Expr, locals: &Vec<(String, TypeId)>) -> (out: SchemaFocus)
        requires
            old(self).wf(),
            entries_below(locals@, old(self).n()),
            ids_below(focus_ids(focus), old(self).n()),
        ensures
            final(self).wf(),
            old(self).n() <= final(self).n(),
            ids_below(focus_ids(out), final(self).n()),
            final(self).signatures == old(self).signatures,
            final(self).program == old(self).program,
            final(self).oracle == old(self).oracle,
            final(self).typing.functions == old(self).typing.functions,
            crate::types::model::diags_extend(old(self).typing.diagnostics@, final(self).typing.diagnostics@),
            crate::types::extends(old(self).typing.table@, final(self).typing.table@),
            match focus {
                SchemaFocus::MapOf { value, .. } => out == *value,
                SchemaFocus::Struct(n) => match crate::rama_ir::last_struct(old(self).program.structs@, n@) {
                    Some(d) => match *key {
                        Expr::Keyword(f) => match field_schema(d.fields@, f.node@) {
                            Some(ty) => focus_of(final(self).typing.table@, out, ty, old(self).program.structs@),
                            None => out is Dynamic,
                        },
                        Expr::String(f) => match field_schema(d.fields@, f.node@) {
                            Some(ty) => focus_of(final(self).typing.table@, out, ty, old(self).program.structs@),
                            None => out is Dynamic,
                        },
                        _ => out is Dynamic,
                    },
                    None => out is Dynamic,
                },
                _ => out is Dynamic,
            },
            descend_key_diags(focus, *key, old(self).program.structs@, old(self).typing.table@) matches Some(added)
                ==> crate::types::run::diag_views(final(self).typing.diagnostics@) == crate::types::run::diag_views(old(self).typing.diagnostics@) + added,
    {
        let ghost d0 = self.typing.diagnostics@;
        proof {
            assert(crate::types::run::diag_views(d0) + Seq::empty() =~= crate::types::run::diag_views(d0));
        }
        match focus {
            SchemaFocus::MapOf { key: key_type, value } => {
                proof {
                    lemma_focus_value(key_type, *value, self.n());
                }
                if !matches!(key, Expr::Keyword(_)) {
                    let actual = self.infer_expr(key, locals);
                    self.check_position(
                        actual,
                        key_type,
                        "map key has type `",
                        "`, the schema declares `",
                        "`",
                        key.span(),
                    );
                }
                *value
            }
            SchemaFocus::Struct(struct_name) => {
                let field_name = match key {
                    Expr::Keyword(name) => name,
                    Expr::String(name) => name,
                    _ => {
                        let mut message = owned("fields of `");
                        message.push_str(struct_name.as_str());
                        message.push_str("` are addressed by keyword, e.g. `:status`");
                        self.typing.diagnostics.push(Diagnostic::type_error(key.span(), message));
                        proof {
                            assert(crate::types::run::diag_views(self.typing.diagnostics@) =~= crate::types::run::diag_views(d0) + seq![
                                crate::types::run::diag_view(self.typing.diagnostics@.last()),
                            ]);
                        }
                        return SchemaFocus::Dynamic;
                    }
                };
                let fields = match self.struct_fields(struct_name.as_str()) {
                    Some(fields) => fields,
                    None => return SchemaFocus::Dynamic,
                };
                match find_field(fields, field_name.node.as_str()) {
                    Some(schema) => self.schema_focus(schema),
                    None => {
                        let message = no_field_message(struct_name.as_str(), field_name.node.as_str(), fields);
                        self.typing.diagnostics.push(Diagnostic::type_error(field_name.span, message));
                        proof {
                            assert(crate::types::run::diag_views(self.typing.diagnostics@) =~= crate::types::run::diag_views(d0) + seq![
                                crate::types::run::diag_view(self.typing.diagnostics@.last()),
                            ]);
                        }
                        SchemaFocus::Dynamic
                    }
                }
            }
            SchemaFocus::Leaf(t) => {
                let shown = self.typing.table.display(t);
                let mut message = owned("cannot descend into `");
                message.push_str(shown.as_str());
                message.push_str("`; the path already reached a leaf value");
                self.typing.diagnostics.push(Diagnostic::type_error(key.span(), message));
                proof {
                    assert(crate::types::run::diag_views(self.typing.diagnostics@) =~= crate::types::run::diag_views(d0) + seq![
                        crate::types::run::diag_view(self.typing.diagnostics@.last()),
                    ]);
                }
                SchemaFocus::Dynamic
            }
            SchemaFocus::Dynamic => SchemaFocus::Dynamic,
        }
    }

    /// Checks the value a `termval` writes against the focused schema.
    #[verifier::loop_isolation(false)]
    pub fn check_termval(&mut self, focus: &SchemaFocus, value: &Expr, locals: &Vec<(String, TypeId)>)
        requires
            old(self).wf(),
            entries_below(locals@, old(self).n()),
        ensures
            final(self).wf(),
            old(self).n() <= final(self).n(),
            final(self).signatures == old(self).signatures,
            final(self).program == old(self).program,
            final(self).oracle == old(self).oracle,
            final(self).typing.functions == old(self).typing.functions,
            crate::types::model::diags_extend(old(self).typing.diagnostics@, final(self).typing.diagnostics@),
            crate::types::extends(old(self).typing.table@, final(self).typing.table@),
    {
        match focus {
            SchemaFocus::Leaf(expected) => {
                if let Expr::Ident(ident) = value {
                    if str_eq(ident.node.as_str(), "nil") {
                        return;
                    }
                }
                let actual = self.infer_expr(value, locals);
                self.check_position(
                    actual,
                    *expected,
                    "termval writes `",
                    "` where the schema declares `",
                    "`",
                    value.span(),
                );
            }
            SchemaFocus::Struct(struct_name) => {
                let entries = match value {
                    Expr::MapLit { entries, .. } => entries,
                    _ => {
                        self.infer_expr(value, locals);
                        return;
                    }
                };
                let fields = match self.struct_fields(struct_name.as_str()) {
                    Some(fields) => fields,
                    None => return,
                };
                let mut i: usize = 0;
                while i < entries.len()
                    invariant
                        i <= entries.len(),
                        self.wf(),
                        old(self).n() <= self.n(),
                        entries_below(locals@, self.n()),
                        self.signatures == old(self).signatures,
                        self.program == old(self).program,
                        self.oracle == old(self).oracle,
                        self.typing.functions == old(self).typing.functions,
                        crate::types::model::diags_extend(old(self).typing.diagnostics@, self.typing.diagnostics@),
                        crate::types::extends(old(self).typing.table@, self.typing.table@),
                    decreases entries.len() - i,
                {
                    if let Expr::Keyword(key) = &entries[i].key {
                        match find_field(fields, key.node.as_str()) {
                            Some(schema) => {
                                let expected = self.schema_value_type(schema);
                                if let Some(entry_value) = &entries[i].value {
                                    let actual = self.infer_expr(entry_value, locals);
                                    if !self.assignable(actual, expected) {
                                        let shown_expected = self.typing.table.display(expected);
                                        let shown_actual = self.typing.table.display(actual);
                                        let message = cat(
                                            vec![
                                                "field `",
                                                key.node.as_str(),
                                                "` of `",
                                                struct_name.as_str(),
                                                "` declares `",
                                                shown_expected.as_str(),
                                                "`, got `",
                                                shown_actual.as_str(),
                                                "`",
                                            ],
                                        );
                                        self.typing.diagnostics.push(Diagnostic::type_error(entry_value.span(), message));
                                    }
                                }
                            }
                            None => {
                                let message = no_field_message(struct_name.as_str(), key.node.as_str(), fields);
                                self.typing.diagnostics.push(Diagnostic::type_error(key.span, message));
                            }
                        }
                    }
                    i += 1;
                }
            }
            SchemaFocus::MapOf { .. } | SchemaFocus::Dynamic => {
                self.infer_expr(value, locals);
            }
        }
    }

    /// The type a single select target binds: the leaf's type, else
    /// `Dynamic`.
    pub fn focus_binding_type(&mut self, focus: &SchemaFocus) -> (out: TypeId)
        requires
            old(self).wf(),
            ids_below(focus_ids(*focus), old(self).n()),
        ensures
            final(self).wf(),
            old(self).n() <= final(self).n(),
            out.0 < final(self).n(),
            final(self).signatures == old(self).signatures,
            final(self).program == old(self).program,
            final(self).oracle == old(self).oracle,
            final(self).typing.functions == old(self).typing.functions,
            crate::types::model::diags_extend(old(self).typing.diagnostics@, final(self).typing.diagnostics@),
            crate::types::extends(old(self).typing.table@, final(self).typing.table@),
    {
        match focus {
            SchemaFocus::Leaf(t) => {
                proof {
                    lemma_focus_leaf(*t, self.n());
                }
                *t
            }
            _ => self.leaf(Type::Dynamic),
        }
    }

    /// Binds destructured select targets to the focused struct's field
    /// types.
    #[verifier::loop_isolation(false)]
    pub fn bind_destructured_focus(
        &mut self,
        focus: &SchemaFocus,
        names: &Vec<Spanned<String>>,
        locals: &mut Vec<(String, TypeId)>,
    )
        requires
            old(self).wf(),
            entries_below(old(locals)@, old(self).n()),
        ensures
            final(self).wf(),
            old(self).n() <= final(self).n(),
            entries_below(final(locals)@, final(self).n()),
            final(self).signatures == old(self).signatures,
            final(self).program == old(self).program,
            final(self).oracle == old(self).oracle,
            final(self).typing.functions == old(self).typing.functions,
            crate::types::model::diags_extend(old(self).typing.diagnostics@, final(self).typing.diagnostics@),
            crate::types::extends(old(self).typing.table@, final(self).typing.table@),
            final(locals)@.len() == old(locals)@.len() + names@.len(),
            final(locals)@.take(old(locals)@.len() as int) == old(locals)@,
            forall|k: int| 0 <= k < names@.len() ==> destructured_bound(
                final(self).typing.table@,
                #[trigger] final(locals)@[old(locals)@.len() + k],
                names@[k].node@,
                struct_of_focus(*focus, old(self).program.structs@),
            ),
    {
        let ghost l0 = locals@;
        let ghost t0 = self.typing.table@;
        let fields = match focus {
            SchemaFocus::Struct(struct_name) => self.struct_fields(struct_name.as_str()),
            _ => None,
        };
        match (focus, fields) {
            (SchemaFocus::Struct(struct_name), Some(fields)) => {
                let mut i: usize = 0;
                while i < names.len()
                    invariant
                        i <= names.len(),
                        locals@.len() == l0.len() + i,
                        locals@.take(l0.len() as int) == l0,
                        crate::types::extends(t0, self.typing.table@),
                        struct_of_focus(*focus, self.program.structs@) == Some(fields@),
                        forall|q: int| 0 <= q < i ==> destructured_bound(self.typing.table@, #[trigger] locals@[l0.len() + q], names@[q].node@, Some(fields@)),
                        self.wf(),
                        old(self).n() <= self.n(),
                        entries_below(locals@, self.n()),
                        self.signatures == old(self).signatures,
                        self.program == old(self).program,
                        self.oracle == old(self).oracle,
                        self.typing.functions == old(self).typing.functions,
                        crate::types::model::diags_extend(old(self).typing.diagnostics@, self.typing.diagnostics@),
                        crate::types::extends(old(self).typing.table@, self.typing.table@),
                    decreases names.len() - i,
                {
                    let name = &names[i];
                    let ghost t_before = self.typing.table@;
                    let ghost prev = locals@;
                    match find_field(fields, name.node.as_str()) {
                        Some(schema) => {
                            let ty = self.schema_value_type(schema);
                            let label = name.node.clone();
                            assert(label@ == name.node@);
                            locals.push((label, ty));
                        }
                        None => {
                            let message = no_field_message(struct_name.as_str(), name.node.as_str(), fields);
                            self.typing.diagnostics.push(Diagnostic::type_error(name.span, message));
                            let unknown = self.leaf(Type::Unknown);
                            let label = name.node.clone();
                            assert(label@ == name.node@);
                            locals.push((label, unknown));
                        }
                    }
                    proof {
                        assert(locals@.take(l0.len() as int) =~= prev.take(l0.len() as int));
                        assert forall|q: int| 0 <= q < i + 1 implies destructured_bound(self.typing.table@, #[trigger] locals@[l0.len() + q], names@[q].node@, Some(fields@)) by {
                            if q < i {
                                assert(locals@[l0.len() + q] == prev[l0.len() + q]);
                                assert(self.typing.table@[prev[l0.len() + q].1.0 as int] == t_before[prev[l0.len() + q].1.0 as int]);
                            }
                        }
                    }
                    i += 1;
                }
            }
            _ => {
                let dynamic = self.leaf(Type::Dynamic);
                assert(struct_of_focus(*focus, self.program.structs@) is None);
                let mut i: usize = 0;
                while i < names.len()
                    invariant
                        i <= names.len(),
                        dynamic.0 < self.n(),
                        self.typing.table@[dynamic.0 as int] == TypeModel::Dynamic,
                        entries_below(locals@, self.n()),
                        locals@.len() == l0.len() + i,
                        locals@.take(l0.len() as int) == l0,
                        forall|q: int| 0 <= q < i ==> destructured_bound(self.typing.table@, #[trigger] locals@[l0.len() + q], names@[q].node@, None),
                    decreases names.len() - i,
                {
                    let ghost prev = locals@;
                    let label = names[i].node.clone();
                    assert(label@ == names@[i as int].node@);
                    locals.push((label, dynamic));
                    proof {
                        assert(locals@.take(l0.len() as int) =~= prev.take(l0.len() as int));
                        assert forall|q: int| 0 <= q < i + 1 implies destructured_bound(self.typing.table@, #[trigger] locals@[l0.len() + q], names@[q].node@, None) by {
                            if q < i {
                                assert(locals@[l0.len() + q] == prev[l0.len() + q]);
                            }
                        }
                    }
                    i += 1;
                }
            }
        }
    }
}

} // verus!
