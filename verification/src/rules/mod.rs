//! Static, user-facing rules over semantic `.rama` IR.
//!
//! Target-emission invariants belong in `clj_verify`, not here.

pub mod engine;
pub mod rama;

use vstd::prelude::*;
pub use engine::{Engine, Rule, Violation};
pub use rama::{rama_engine, RamaRule};
use crate::rama_ir::Program;

verus! {

/// Violations of every Rama rule, rule by rule.
pub fn check_program(program: &Program<'_>) -> (out: Vec<Violation>)
    ensures
        engine::violation_views(out@) == engine::all_findings(
            seq![
                RamaRule::KnownPState,
                RamaRule::NavigatorOutsideKeypath,
                RamaRule::TransformHasWriteTerm,
                RamaRule::FnNoDataflow,
                RamaRule::ShallowOpIf,
            ],
            *program,
        ),
{
    rama_engine().check(program)
}

} // verus!
