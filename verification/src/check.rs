//! Semantic checks and Rama rule execution.

use vstd::prelude::*;
use crate::ast::{SourceFile, TypeExpr};
use crate::error::{Diagnostic, DiagnosticKind};
use crate::rama_ir::Program;
use crate::span::Span;
use crate::rules::{check_program, Violation};

use crate::types::{self, TypeOracle};

verus! {

#[derive(Debug, Clone, PartialEq)]
pub struct CheckResult {
    pub diagnostics: Vec<Diagnostic>,
}

impl CheckResult {
    /// A check passes when it found nothing.
    pub fn ok(&self) -> (r: bool)
        ensures
            r == (self.diagnostics@.len() == 0),
    {
        self.diagnostics.len() == 0
    }
}

/// Declared pstate schemas and struct fields by name.
#[derive(Debug)]
pub struct TypeEnv {
    pub pstates: Vec<(String, TypeExpr)>,
    pub structs: Vec<(String, Vec<(String, TypeExpr)>)>,
}

/// Where `name` stands among the entries.
fn position<V>(entries: &Vec<(String, V)>, name: &str) -> (out: Option<usize>)
    ensures
        out matches Some(i) ==> i < entries@.len() && entries@[i as int].0@ == name@,
        out is None ==> forall|j: int| 0 <= j < entries@.len() ==> (#[trigger] entries@[j]).0@ != name@,
{
    crate::types::model::find_name(entries, name)
}

/// Some pstate of the program is declared under `name`.
pub open spec fn declares_pstates(program: &Program<'_>, name: Seq<char>) -> bool {
    exists|j: int| 0 <= j < program.pstates@.len() && (#[trigger] program.pstates@[j]).name.node@ == name
}

/// Some struct of the program is declared under `name`.
pub open spec fn declares_structs(program: &Program<'_>, name: Seq<char>) -> bool {
    exists|j: int| 0 <= j < program.structs@.len() && (#[trigger] program.structs@[j]).name.node@ == name
}

/// Some entry is named `name`.
pub open spec fn has_entry<V>(entries: Seq<(String, V)>, name: Seq<char>) -> bool {
    exists|i: int| 0 <= i < entries.len() && (#[trigger] entries[i]).0@ == name
}

/// One entry per declared pstate name, holding its last declaration.
fn pstate_entries(program: &Program<'_>) -> (out: Vec<(String, TypeExpr)>)
    ensures
        forall|i: int| 0 <= i < out@.len() ==> declares_pstates(program, (#[trigger] out@[i]).0@),
        forall|j: int| 0 <= j < program.pstates@.len() ==> has_entry(out@, (#[trigger] program.pstates@[j]).name.node@),
{
    let mut out: Vec<(String, TypeExpr)> = Vec::new();
    let mut i = program.pstates.len();
    while i > 0
        invariant
            i <= program.pstates.len(),
            forall|a: int| 0 <= a < out@.len() ==> declares_pstates(program, (#[trigger] out@[a]).0@),
            forall|j: int| i <= j < program.pstates@.len() ==> has_entry(out@, (#[trigger] program.pstates@[j]).name.node@),
        decreases i,
    {
        i -= 1;
        let decl = program.pstates[i];
        let ghost before = out@;
        match position(&out, decl.name.node.as_str()) {
            Some(at) => {
                assert(out@[at as int].0@ == program.pstates@[i as int].name.node@);
                assert(has_entry(out@, program.pstates@[i as int].name.node@));
            }
            None => {
                out.push((decl.name.node.clone(), decl.ty.node.clone()));
                proof {
                    assert(out@[before.len() as int].0@ == program.pstates@[i as int].name.node@);
                    assert forall|a: int| 0 <= a < out@.len() implies declares_pstates(program, (#[trigger] out@[a]).0@) by {
                        if a < before.len() {
                            assert(out@[a] == before[a]);
                        } else {
                            assert(out@[a].0@ == program.pstates@[i as int].name.node@);
                        }
                    }
                    assert forall|j: int| i <= j < program.pstates@.len() implies has_entry(out@, (#[trigger] program.pstates@[j]).name.node@) by {
                        if j > i {
                            assert(has_entry(before, program.pstates@[j].name.node@));
                            let a = choose|a: int| 0 <= a < before.len() && before[a].0@ == program.pstates@[j].name.node@;
                            assert(out@[a] == before[a]);
                        } else {
                            assert(out@[before.len() as int].0@ == program.pstates@[j].name.node@);
                        }
                    }
                }
            }
        }
    }
    out
}

/// One entry per declared struct name, with the fields of its last
/// declaration.
fn struct_entries(program: &Program<'_>) -> (out: Vec<(String, Vec<(String, TypeExpr)>)>)
    ensures
        forall|i: int| 0 <= i < out@.len() ==> declares_structs(program, (#[trigger] out@[i]).0@),
        forall|j: int| 0 <= j < program.structs@.len() ==> has_entry(out@, (#[trigger] program.structs@[j]).name.node@),
{
    let mut out: Vec<(String, Vec<(String, TypeExpr)>)> = Vec::new();
    let mut i = program.structs.len();
    while i > 0
        invariant
            i <= program.structs.len(),
            forall|a: int| 0 <= a < out@.len() ==> declares_structs(program, (#[trigger] out@[a]).0@),
            forall|j: int| i <= j < program.structs@.len() ==> has_entry(out@, (#[trigger] program.structs@[j]).name.node@),
        decreases i,
    {
        i -= 1;
        let decl = program.structs[i];
        let ghost before = out@;
        match position(&out, decl.name.node.as_str()) {
            Some(at) => {
                assert(out@[at as int].0@ == program.structs@[i as int].name.node@);
                assert(has_entry(out@, program.structs@[i as int].name.node@));
            }
            None => {
                let mut fields: Vec<(String, TypeExpr)> = Vec::new();
                let mut f: usize = 0;
                while f < decl.fields.len()
                    invariant
                        f <= decl.fields.len(),
                    decreases decl.fields.len() - f,
                {
                    fields.push((decl.fields[f].name.node.clone(), decl.fields[f].ty.node.clone()));
                    f += 1;
                }
                out.push((decl.name.node.clone(), fields));
                proof {
                    assert(out@[before.len() as int].0@ == program.structs@[i as int].name.node@);
                    assert forall|a: int| 0 <= a < out@.len() implies declares_structs(program, (#[trigger] out@[a]).0@) by {
                        if a < before.len() {
                            assert(out@[a] == before[a]);
                        } else {
                            assert(out@[a].0@ == program.structs@[i as int].name.node@);
                        }
                    }
                    assert forall|j: int| i <= j < program.structs@.len() implies has_entry(out@, (#[trigger] program.structs@[j]).name.node@) by {
                        if j > i {
                            assert(has_entry(before, program.structs@[j].name.node@));
                            let a = choose|a: int| 0 <= a < before.len() && before[a].0@ == program.structs@[j].name.node@;
                            assert(out@[a] == before[a]);
                        } else {
                            assert(out@[before.len() as int].0@ == program.structs@[j].name.node@);
                        }
                    }
                }
            }
        }
    }
    out
}

impl TypeEnv {
    /// One entry per declared name, holding its last declaration.
    pub fn from_program(program: &Program<'_>) -> (out: Self)
        ensures
            forall|i: int| 0 <= i < out.pstates@.len() ==> declares_pstates(program, (#[trigger] out.pstates@[i]).0@),
            forall|j: int| 0 <= j < program.pstates@.len() ==> has_entry(out.pstates@, (#[trigger] program.pstates@[j]).name.node@),
            forall|i: int| 0 <= i < out.structs@.len() ==> declares_structs(program, (#[trigger] out.structs@[i]).0@),
            forall|j: int| 0 <= j < program.structs@.len() ==> has_entry(out.structs@, (#[trigger] program.structs@[j]).name.node@),
    {
        TypeEnv { pstates: pstate_entries(program), structs: struct_entries(program) }
    }
}

/// The diagnostic a rule violation is reported as:
/// `[id] title — message (because: reason)`.
pub fn violation_diagnostic(violation: &Violation) -> (out: Diagnostic)
    ensures
        out.kind == DiagnosticKind::Rule,
        out.span == violation.span,
        out.message@ == "["@ + violation.rule_id@ + "] "@ + violation.title@ + " — "@ + violation.message@
            + " (because: "@ + violation.because@ + ")"@,
{
    let mut message = String::new();
    message.push_str("[");
    message.push_str(violation.rule_id);
    message.push_str("] ");
    message.push_str(violation.title);
    message.push_str(" — ");
    message.push_str(violation.message.as_str());
    message.push_str(" (because: ");
    message.push_str(violation.because);
    message.push_str(")");
    assert(message@ =~= "["@ + violation.rule_id@ + "] "@ + violation.title@ + " — "@ + violation.message@
        + " (because: "@ + violation.because@ + ")"@);
    Diagnostic::rule(violation.span, message)
}

/// The rule violations come first, as `Rule` diagnostics; the typing
/// diagnostics follow, as `Type` diagnostics.
pub open spec fn rules_then_types(diagnostics: Seq<Diagnostic>) -> bool {
    exists|n: int| #[trigger] rules_before(diagnostics, n)
}

/// The first `n` diagnostics are rule diagnostics and the rest type
/// diagnostics.
pub open spec fn rules_before(diagnostics: Seq<Diagnostic>, n: int) -> bool {
    &&& 0 <= n <= diagnostics.len()
    &&& forall|k: int| 0 <= k < n ==> (#[trigger] diagnostics[k]).kind == DiagnosticKind::Rule
    &&& forall|k: int| n <= k < diagnostics.len() ==> (#[trigger] diagnostics[k]).kind == DiagnosticKind::Type
}

/// Checks the program built from `file`: its rule findings come first.
pub fn check(file: &SourceFile) -> (out: CheckResult)
    ensures
        rules_then_types(out.diagnostics@),
        exists|p: Program| #[trigger] crate::rama_ir::built_from(p, *file) && reports_findings(out.diagnostics@, p),
{
    let program = Program::from_ast(file);
    let out = check_program_ir(&program);
    assert(crate::rama_ir::built_from(program, *file) && reports_findings(out.diagnostics@, program));
    out
}

/// The first diagnostics report, in order, every finding of the Rama rules.
pub open spec fn reports_findings(diagnostics: Seq<Diagnostic>, program: Program) -> bool {
    &&& diagnostics.len() >= rama_findings(program).len()
    &&& forall|k: int| 0 <= k < rama_findings(program).len() ==> finding_reported(#[trigger] diagnostics[k], rama_findings(program)[k])
}

pub fn check_program_ir(program: &Program<'_>) -> (out: CheckResult)
    ensures
        rules_then_types(out.diagnostics@),
        out.diagnostics@.len() >= rama_findings(*program).len(),
        forall|k: int| 0 <= k < rama_findings(*program).len() ==> finding_reported(#[trigger] out.diagnostics@[k], rama_findings(*program)[k]),
{
    check_program_ir_with_oracle::<types::NoOracle>(program, None)
}

/// What every Rama rule finds in the program, rule by rule.
pub open spec fn rama_findings(program: Program) -> Seq<(Seq<char>, Seq<char>, Seq<char>, Seq<char>, Span)> {
    crate::rules::engine::all_findings(
        seq![
            crate::rules::RamaRule::KnownPState,
            crate::rules::RamaRule::NavigatorOutsideKeypath,
            crate::rules::RamaRule::TransformHasWriteTerm,
            crate::rules::RamaRule::FnNoDataflow,
            crate::rules::RamaRule::ShallowOpIf,
        ],
        program,
    )
}

/// The diagnostic a finding is reported as.
pub open spec fn finding_reported(d: Diagnostic, f: (Seq<char>, Seq<char>, Seq<char>, Seq<char>, Span)) -> bool {
    &&& d.kind == DiagnosticKind::Rule
    &&& d.span == f.4
    &&& d.message@ == "["@ + f.0 + "] "@ + f.1 + " — "@ + f.2 + " (because: "@ + f.3 + ")"@
}

/// The rule violations, as diagnostics in rule order, followed by the
/// typing diagnostics.
pub fn check_program_ir_with_oracle<O: TypeOracle>(program: &Program<'_>, oracle: Option<&O>) -> (out: CheckResult)
    ensures
        rules_then_types(out.diagnostics@),
        out.diagnostics@.len() >= rama_findings(*program).len(),
        forall|k: int| 0 <= k < rama_findings(*program).len() ==> finding_reported(#[trigger] out.diagnostics@[k], rama_findings(*program)[k]),
{
    let violations = check_program(program);
    let mut diagnostics: Vec<Diagnostic> = Vec::new();
    let mut i: usize = 0;
    while i < violations.len()
        invariant
            i <= violations.len(),
            diagnostics@.len() == i,
            forall|k: int| 0 <= k < i ==> (#[trigger] diagnostics@[k]).kind == DiagnosticKind::Rule,
            forall|k: int| 0 <= k < i ==> finding_reported(#[trigger] diagnostics@[k], crate::rules::engine::violation_views(violations@)[k]),
        decreases violations.len() - i,
    {
        diagnostics.push(violation_diagnostic(&violations[i]));
        i += 1;
    }
    let ghost rules_part = diagnostics@;
    let mut typing = match oracle {
        Some(oracle) => types::analyze_with_oracle(program, oracle),
        None => types::analyze(program),
    };
    let ghost n = diagnostics@.len() as int;
    let ghost typed = typing.diagnostics@;
    diagnostics.append(&mut typing.diagnostics);
    proof {
        assert forall|k: int| n <= k < diagnostics@.len() implies (#[trigger] diagnostics@[k]).kind == DiagnosticKind::Type by {
            assert(diagnostics@[k] == typed[k - n]);
        }
        assert(rules_before(diagnostics@, n));
        assert(rules_then_types(diagnostics@));
        assert forall|k: int| 0 <= k < rama_findings(*program).len() implies finding_reported(#[trigger] diagnostics@[k], rama_findings(*program)[k]) by {
            assert(diagnostics@[k] == rules_part[k]);
        }
    }
    CheckResult { diagnostics }
}

} // verus!
