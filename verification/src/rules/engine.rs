//! Tiny rules engine over semantic Rama IR.

use vstd::prelude::*;
use crate::rama_ir::Program;
use crate::span::Span;

verus! {

#[derive(Debug, Clone, PartialEq, Eq)]
pub struct Violation {
    pub rule_id: &'static str,
    pub title: &'static str,
    pub message: String,
    pub because: &'static str,
    pub span: Span,
}

/// A violation as plain values: id, title, message, reason and span.
pub open spec fn violation_view(v: Violation) -> (Seq<char>, Seq<char>, Seq<char>, Seq<char>, Span) {
    (v.rule_id@, v.title@, v.message@, v.because@, v.span)
}

pub open spec fn violation_views(vs: Seq<Violation>) -> Seq<(Seq<char>, Seq<char>, Seq<char>, Seq<char>, Span)> {
    vs.map_values(|v: Violation| violation_view(v))
}

/// One static check over a semantic `.rama` program.
pub trait Rule {
    /// What the rule finds in a program, in order.
    spec fn findings(&self, program: Program) -> Seq<(Seq<char>, Seq<char>, Seq<char>, Seq<char>, Span)>;

    fn id(&self) -> &'static str;

    fn title(&self) -> &'static str;

    fn because(&self) -> &'static str;

    fn check(&self, program: &Program<'_>) -> (out: Vec<Violation>)
        ensures
            violation_views(out@) == self.findings(*program),
    ;
}

/// What `rules` find, rule by rule.
pub open spec fn all_findings<R: Rule>(rules: Seq<R>, program: Program) -> Seq<(Seq<char>, Seq<char>, Seq<char>, Seq<char>, Span)>
    decreases rules.len(),
{
    if rules.len() == 0 {
        Seq::empty()
    } else {
        all_findings(rules.drop_last(), program) + rules.last().findings(program)
    }
}

pub struct Engine<R: Rule> {
    rules: Vec<R>,
}

impl<R: Rule> Engine<R> {
    /// The rules this engine runs, in order.
    pub closed spec fn rule_list(&self) -> Seq<R> {
        self.rules@
    }

    pub fn new(rules: Vec<R>) -> (out: Self)
        ensures
            out.rule_list() == rules@,
    {
        Engine { rules }
    }

    /// Violations of each rule in order, concatenated.
    pub fn check(&self, program: &Program<'_>) -> (out: Vec<Violation>)
        ensures
            violation_views(out@) == all_findings(self.rule_list(), *program),
    {
        let mut out: Vec<Violation> = Vec::new();
        let mut i: usize = 0;
        assert(violation_views(out@) =~= all_findings(self.rules@.take(0), *program));
        while i < self.rules.len()
            invariant
                i <= self.rules.len(),
                violation_views(out@) == all_findings(self.rules@.take(i as int), *program),
            decreases self.rules.len() - i,
        {
            proof {
                assert(self.rules@.take(i + 1).drop_last() =~= self.rules@.take(i as int));
                assert(self.rules@.take(i + 1).last() == self.rules@[i as int]);
            }
            let ghost before = out@;
            let mut found = self.rules[i].check(program);
            let ghost got = found@;
            out.append(&mut found);
            assert(violation_views(out@) =~= violation_views(before) + violation_views(got));
            i += 1;
        }
        assert(self.rules@.take(self.rules@.len() as int) =~= self.rules@);
        out
    }
}

impl Violation {
    pub fn new<R: Rule>(rule: &R, span: Span, message: String) -> (out: Self)
        ensures
            out.span == span,
            out.message == message,
    {
        Violation {
            rule_id: rule.id(),
            title: rule.title(),
            message,
            because: rule.because(),
            span,
        }
    }

    /// `[id] title: message` and the reason on the next line.
    pub fn render(&self) -> (out: String)
        ensures
            out@ == seq!['['] + self.rule_id@ + "] "@ + self.title@ + ": "@ + self.message@
                + "\n  because: "@ + self.because@,
    {
        let mut out = String::new();
        out.push('[');
        out.push_str(self.rule_id);
        out.push_str("] ");
        out.push_str(self.title);
        out.push_str(": ");
        out.push_str(self.message.as_str());
        out.push_str("\n  because: ");
        out.push_str(self.because);
        assert(out@ =~= seq!['['] + self.rule_id@ + "] "@ + self.title@ + ": "@ + self.message@
            + "\n  because: "@ + self.because@);
        out
    }
}

} // verus!
