//! The Rama rules: what a `.rama` author must not write.

use vstd::prelude::*;
use crate::ast::{expr_span, Block, Expr, Stmt};
use crate::rama_ir::{Body, BodyKind, Program};
use crate::rules::engine::{violation_view, violation_views, Engine, Rule, Violation};
use crate::span::Span;
use crate::text::{owned, str_eq};

verus! {

/// Nesting depth of op `if`s beyond which Rama's `<<if` continuations
/// overflow its compiler.
pub const MAX_OP_IF_DEPTH: usize = 3;

#[derive(Debug, Clone, Copy, PartialEq, Eq, Structural)]
pub enum RamaRule {
    KnownPState,
    NavigatorOutsideKeypath,
    TransformHasWriteTerm,
    FnNoDataflow,
    ShallowOpIf,
}

/// Every Rama rule, in reporting order.
pub fn rama_engine() -> (out: Engine<RamaRule>)
    ensures
        out.rule_list() == seq![
            RamaRule::KnownPState,
            RamaRule::NavigatorOutsideKeypath,
            RamaRule::TransformHasWriteTerm,
            RamaRule::FnNoDataflow,
            RamaRule::ShallowOpIf,
        ],
{
    let mut rules = Vec::new();
    rules.push(RamaRule::KnownPState);
    rules.push(RamaRule::NavigatorOutsideKeypath);
    rules.push(RamaRule::TransformHasWriteTerm);
    rules.push(RamaRule::FnNoDataflow);
    rules.push(RamaRule::ShallowOpIf);
    assert(rules@ =~= seq![
        RamaRule::KnownPState,
        RamaRule::NavigatorOutsideKeypath,
        RamaRule::TransformHasWriteTerm,
        RamaRule::FnNoDataflow,
        RamaRule::ShallowOpIf,
    ]);
    Engine::new(rules)
}

/// The id of a rule.
pub open spec fn rule_id_spec(rule: RamaRule) -> Seq<char> {
    match rule {
        RamaRule::KnownPState => "rama/known-pstate"@,
        RamaRule::NavigatorOutsideKeypath => "rama/navigator-outside-keypath"@,
        RamaRule::TransformHasWriteTerm => "rama/transform-has-write-term"@,
        RamaRule::FnNoDataflow => "rama/fn-no-dataflow"@,
        RamaRule::ShallowOpIf => "rama/shallow-op-if"@,
    }
}

/// The title of a rule.
pub open spec fn rule_title_spec(rule: RamaRule) -> Seq<char> {
    match rule {
        RamaRule::KnownPState => "unknown pstate"@,
        RamaRule::NavigatorOutsideKeypath => "navigator inside keypath"@,
        RamaRule::TransformHasWriteTerm => "transform without a write"@,
        RamaRule::FnNoDataflow => "dataflow in fn"@,
        RamaRule::ShallowOpIf => "deep op if"@,
    }
}

/// Why a rule holds.
pub open spec fn rule_because_spec(rule: RamaRule) -> Seq<char> {
    match rule {
        RamaRule::KnownPState => "an undeclared `$$` name cannot resolve in the module"@,
        RamaRule::NavigatorOutsideKeypath => "a navigator inside `keypath` is treated as a key; `AFTER-ELEM` there can kill a worker with `Key must be integer`"@,
        RamaRule::TransformHasWriteTerm => "`nil->val` is a view; writes must end in `term`, `termval`, `multi-path`, or `NONE>`"@,
        RamaRule::FnNoDataflow => "plain `fn` lowers to Clojure and cannot select/transform PStates, `fail`, or `|hash`"@,
        RamaRule::ShallowOpIf => "deep `<<if` trees can overflow `clojure.algo.monads`; use `fn` predicates or `fail` guards"@,
    }
}


/// The violation of `rule` with `message` at `span`.
pub open spec fn found(rule: RamaRule, message: Seq<char>, span: Span) -> (Seq<char>, Seq<char>, Seq<char>, Seq<char>, Span) {
    (rule_id_spec(rule), rule_title_spec(rule), message, rule_because_spec(rule), span)
}

/// Navigators among the keys of one `keypath`.
pub open spec fn key_violations(rule: RamaRule, keys: Seq<Expr>) -> Seq<(Seq<char>, Seq<char>, Seq<char>, Seq<char>, Span)>
    decreases keys.len(),
{
    if keys.len() == 0 {
        Seq::empty()
    } else {
        key_violations(rule, keys.drop_last()) + if is_navigator_spec(keys.last()) {
            seq![found(rule, "navigator used as a keypath key; make it a sibling path segment"@, expr_span(keys.last()))]
        } else {
            Seq::empty()
        }
    }
}

/// Navigators used as keys in the `keypath` segments of a path.
pub open spec fn path_violations(rule: RamaRule, path: Seq<Expr>) -> Seq<(Seq<char>, Seq<char>, Seq<char>, Seq<char>, Span)>
    decreases path.len(),
{
    if path.len() == 0 {
        Seq::empty()
    } else {
        path_violations(rule, path.drop_last()) + match path.last() {
            Expr::Call(c) => if c.callee.node@ == "keypath"@ { key_violations(rule, c.args@) } else { Seq::empty() },
            _ => Seq::empty(),
        }
    }
}

/// What `rule` finds in one statement itself, not in nested blocks.
#[verifier::opaque]
pub open spec fn own_violations(rule: RamaRule, program: Program, kind: BodyKind, stmt: Stmt) -> Seq<(Seq<char>, Seq<char>, Seq<char>, Seq<char>, Span)> {
    match rule {
        RamaRule::FnNoDataflow => if kind == BodyKind::Fn {
            match dataflow_word(stmt) {
                Some(w) => seq![
                    found(rule, "`"@ + w + "` is dataflow and cannot appear in a plain `fn`; move it into an `op`"@, stmt_span_spec(stmt)),
                ],
                None => Seq::empty(),
            }
        } else {
            Seq::empty()
        },
        RamaRule::KnownPState => match stmt {
            Stmt::Select { pstate, .. } => if !program_declares(program, pstate.node@) {
                seq![found(rule, "`$$"@ + pstate.node@ + "` is not declared in this module"@, pstate.span)]
            } else {
                Seq::empty()
            },
            Stmt::Transform { pstate, .. } => if !program_declares(program, pstate.node@) {
                seq![found(rule, "`$$"@ + pstate.node@ + "` is not declared in this module"@, pstate.span)]
            } else {
                Seq::empty()
            },
            _ => Seq::empty(),
        },
        RamaRule::NavigatorOutsideKeypath => match stmt {
            Stmt::Select { path, .. } => path_violations(rule, path@),
            Stmt::Transform { path, .. } => path_violations(rule, path@),
            _ => Seq::empty(),
        },
        RamaRule::TransformHasWriteTerm => match stmt {
            Stmt::Transform { pstate, path, span } => if !(path@.len() > 0 && is_write_terminal_spec(path@.last())) {
                seq![found(rule, "transform of `$$"@ + pstate.node@ + "` does not end in a write (`term`, `termval`, `multi-path`, or `NONE>`)"@, span)]
            } else {
                Seq::empty()
            },
            _ => Seq::empty(),
        },
        RamaRule::ShallowOpIf => Seq::empty(),
    }
}

/// The word for a dataflow-only statement.
pub open spec fn dataflow_word(stmt: Stmt) -> Option<Seq<char>> {
    match stmt {
        Stmt::Select { .. } => Some("select"@),
        Stmt::Transform { .. } => Some("transform"@),
        Stmt::Fail { .. } => Some("fail"@),
        Stmt::Hash { .. } => Some("|hash"@),
        _ => None,
    }
}

/// Whether the program declares the pstate `name`.
pub open spec fn program_declares(program: Program, name: Seq<char>) -> bool {
    exists|i: int| 0 <= i < program.pstates@.len() && program.pstates@[i].name.node@ == name
}

/// What `rule` finds in a statement and in the blocks of an `if`.
pub open spec fn stmt_violations(rule: RamaRule, program: Program, kind: BodyKind, stmt: Stmt) -> Seq<(Seq<char>, Seq<char>, Seq<char>, Seq<char>, Span)>
    decreases stmt,
{
    own_violations(rule, program, kind, stmt) + match stmt {
        Stmt::If { consequence, alternative, .. } => stmts_violations(rule, program, kind, consequence.stmts@) + match alternative {
            Some(b) => stmts_violations(rule, program, kind, b.stmts@),
            None => Seq::empty(),
        },
        _ => Seq::empty(),
    }
}

/// What `rule` finds in statements, in order.
pub open spec fn stmts_violations(rule: RamaRule, program: Program, kind: BodyKind, stmts: Seq<Stmt>) -> Seq<(Seq<char>, Seq<char>, Seq<char>, Seq<char>, Span)>
    decreases stmts,
{
    if stmts.len() == 0 {
        Seq::empty()
    } else {
        stmts_violations(rule, program, kind, stmts.drop_last()) + stmt_violations(rule, program, kind, stmts.last())
    }
}

/// One more level of `if` nesting, kept where it would overflow.
pub open spec fn one_deeper(depth: usize) -> usize {
    if depth < usize::MAX { (depth + 1) as usize } else { depth }
}

/// The `if`s of `stmts` nested exactly one level past the limit, the
/// enclosing depth being `depth`.
pub open spec fn deep_if_violations(rule: RamaRule, stmts: Seq<Stmt>, depth: usize) -> Seq<(Seq<char>, Seq<char>, Seq<char>, Seq<char>, Span)>
    decreases stmts,
{
    if stmts.len() == 0 {
        Seq::empty()
    } else {
        deep_if_violations(rule, stmts.drop_last(), depth) + deep_if_in(rule, stmts.last(), depth)
    }
}

pub open spec fn deep_if_in(rule: RamaRule, stmt: Stmt, depth: usize) -> Seq<(Seq<char>, Seq<char>, Seq<char>, Seq<char>, Span)>
    decreases stmt,
{
    match stmt {
        Stmt::If { consequence, alternative, span, .. } => {
            let here = one_deeper(depth);
            (if here == MAX_OP_IF_DEPTH + 1 {
                seq![found(rule, "op `if` nested too deeply; use `fn` predicates or `fail` guards"@, span)]
            } else {
                Seq::empty()
            }) + deep_if_violations(rule, consequence.stmts@, here) + match alternative {
                Some(b) => deep_if_violations(rule, b.stmts@, here),
                None => Seq::empty(),
            }
        },
        _ => Seq::empty(),
    }
}

/// What `rule` finds in one body of the program.
pub open spec fn body_violations(rule: RamaRule, program: Program, body: Body) -> Seq<(Seq<char>, Seq<char>, Seq<char>, Seq<char>, Span)> {
    match rule {
        RamaRule::ShallowOpIf => if body.kind == BodyKind::Op {
            deep_if_violations(rule, body.block.stmts@, 0)
        } else {
            Seq::empty()
        },
        _ => stmts_violations(rule, program, body.kind, body.block.stmts@),
    }
}

/// What `rule` finds in the bodies, in order.
pub open spec fn bodies_violations(rule: RamaRule, program: Program, bodies: Seq<Body>) -> Seq<(Seq<char>, Seq<char>, Seq<char>, Seq<char>, Span)>
    decreases bodies.len(),
{
    if bodies.len() == 0 {
        Seq::empty()
    } else {
        bodies_violations(rule, program, bodies.drop_last()) + body_violations(rule, program, bodies.last())
    }
}

impl RamaRule {
    pub fn rule_id(&self) -> (out: &'static str)
        ensures
            out@ == rule_id_spec(*self),
            *self == RamaRule::KnownPState ==> out@ == "rama/known-pstate"@,
            *self == RamaRule::NavigatorOutsideKeypath ==> out@ == "rama/navigator-outside-keypath"@,
            *self == RamaRule::TransformHasWriteTerm ==> out@ == "rama/transform-has-write-term"@,
            *self == RamaRule::FnNoDataflow ==> out@ == "rama/fn-no-dataflow"@,
            *self == RamaRule::ShallowOpIf ==> out@ == "rama/shallow-op-if"@,
    {
        match self {
            RamaRule::KnownPState => "rama/known-pstate",
            RamaRule::NavigatorOutsideKeypath => "rama/navigator-outside-keypath",
            RamaRule::TransformHasWriteTerm => "rama/transform-has-write-term",
            RamaRule::FnNoDataflow => "rama/fn-no-dataflow",
            RamaRule::ShallowOpIf => "rama/shallow-op-if",
        }
    }

    pub fn rule_title(&self) -> (out: &'static str)
        ensures
            out@ == rule_title_spec(*self),
            *self == RamaRule::KnownPState ==> out@ == "unknown pstate"@,
            *self == RamaRule::NavigatorOutsideKeypath ==> out@ == "navigator inside keypath"@,
            *self == RamaRule::TransformHasWriteTerm ==> out@ == "transform without a write"@,
            *self == RamaRule::FnNoDataflow ==> out@ == "dataflow in fn"@,
            *self == RamaRule::ShallowOpIf ==> out@ == "deep op if"@,
    {
        match self {
            RamaRule::KnownPState => "unknown pstate",
            RamaRule::NavigatorOutsideKeypath => "navigator inside keypath",
            RamaRule::TransformHasWriteTerm => "transform without a write",
            RamaRule::FnNoDataflow => "dataflow in fn",
            RamaRule::ShallowOpIf => "deep op if",
        }
    }

    pub fn rule_because(&self) -> (out: &'static str)
        ensures
            out@ == rule_because_spec(*self),
            *self == RamaRule::KnownPState ==> out@ == "an undeclared `$$` name cannot resolve in the module"@,
            *self == RamaRule::NavigatorOutsideKeypath ==> out@ == "a navigator inside `keypath` is treated as a key; `AFTER-ELEM` there can kill a worker with `Key must be integer`"@,
            *self == RamaRule::TransformHasWriteTerm ==> out@ == "`nil->val` is a view; writes must end in `term`, `termval`, `multi-path`, or `NONE>`"@,
            *self == RamaRule::FnNoDataflow ==> out@ == "plain `fn` lowers to Clojure and cannot select/transform PStates, `fail`, or `|hash`"@,
            *self == RamaRule::ShallowOpIf ==> out@ == "deep `<<if` trees can overflow `clojure.algo.monads`; use `fn` predicates or `fail` guards"@,
    {
        match self {
            RamaRule::KnownPState => "an undeclared `$$` name cannot resolve in the module",
            RamaRule::NavigatorOutsideKeypath => "a navigator inside `keypath` is treated as a key; `AFTER-ELEM` there can kill a worker with `Key must be integer`",
            RamaRule::TransformHasWriteTerm => "`nil->val` is a view; writes must end in `term`, `termval`, `multi-path`, or `NONE>`",
            RamaRule::FnNoDataflow => "plain `fn` lowers to Clojure and cannot select/transform PStates, `fail`, or `|hash`",
            RamaRule::ShallowOpIf => "deep `<<if` trees can overflow `clojure.algo.monads`; use `fn` predicates or `fail` guards",
        }
    }

    pub fn violations(&self, program: &Program<'_>) -> (out: Vec<Violation>)
        ensures
            violation_views(out@) == bodies_violations(*self, *program, program.bodies@),
    {
        let mut out: Vec<Violation> = Vec::new();
        let mut i: usize = 0;
        assert(violation_views(out@) =~= bodies_violations(*self, *program, program.bodies@.take(0)));
        while i < program.bodies.len()
            invariant
                i <= program.bodies.len(),
                violation_views(out@) == bodies_violations(*self, *program, program.bodies@.take(i as int)),
            decreases program.bodies.len() - i,
        {
            proof {
                assert(program.bodies@.take(i + 1).drop_last() =~= program.bodies@.take(i as int));
                assert(program.bodies@.take(i + 1).last() == program.bodies@[i as int]);
            }
            let ghost mid = violation_views(out@);
            let body = program.bodies[i];
            match self {
                RamaRule::ShallowOpIf => {
                    if body.kind == BodyKind::Op {
                        check_if_depth(self, body.block, 0, &mut out);
                    }
                }
                _ => {
                    check_block(self, program, body.kind, body.block, &mut out);
                }
            }
            assert(violation_views(out@) =~= mid + body_violations(*self, *program, body));
            i += 1;
        }
        assert(program.bodies@.take(program.bodies@.len() as int) =~= program.bodies@);
        out
    }
}

impl Rule for RamaRule {
    open spec fn findings(&self, program: Program) -> Seq<(Seq<char>, Seq<char>, Seq<char>, Seq<char>, Span)> {
        bodies_violations(*self, program, program.bodies@)
    }

    fn id(&self) -> &'static str {
        self.rule_id()
    }

    fn title(&self) -> &'static str {
        self.rule_title()
    }

    fn because(&self) -> &'static str {
        self.rule_because()
    }

    fn check(&self, program: &Program<'_>) -> (out: Vec<Violation>) {
        self.violations(program)
    }
}

fn violation(rule: &RamaRule, span: crate::span::Span, message: String) -> (out: Violation)
    ensures
        out.span == span,
        out.message == message,
        violation_view(out) == found(*rule, message@, span),
{
    Violation {
        rule_id: rule.rule_id(),
        title: rule.rule_title(),
        message,
        because: rule.rule_because(),
        span,
    }
}

/// Navigators: `AFTER-ELEM`, `NONE>`, and calls of the path builders.
pub open spec fn is_navigator_spec(e: Expr) -> bool {
    match e {
        Expr::Ident(i) => i.node@ == "AFTER-ELEM"@ || i.node@ == "NONE>"@,
        Expr::Call(c) => c.callee.node@ == "nil->val"@ || c.callee.node@ == "termval"@ || c.callee.node@ == "term"@
            || c.callee.node@ == "multi-path"@ || c.callee.node@ == "keypath"@,
        _ => false,
    }
}

/// Path segments that write: `NONE>`, `term`, `termval`, `multi-path`.
pub open spec fn is_write_terminal_spec(e: Expr) -> bool {
    match e {
        Expr::Ident(i) => i.node@ == "NONE>"@,
        Expr::Call(c) => c.callee.node@ == "term"@ || c.callee.node@ == "termval"@ || c.callee.node@ == "multi-path"@,
        _ => false,
    }
}

/// The span of a statement.
pub open spec fn stmt_span_spec(stmt: Stmt) -> crate::span::Span {
    match stmt {
        Stmt::Let { span, .. } => span,
        Stmt::Select { span, .. } => span,
        Stmt::Transform { span, .. } => span,
        Stmt::Fail { span, .. } => span,
        Stmt::Return { span, .. } => span,
        Stmt::Hash { span, .. } => span,
        Stmt::Effect { span, .. } => span,
        Stmt::If { span, .. } => span,
    }
}

fn is_navigator(e: &Expr) -> (r: bool)
    ensures
        r == is_navigator_spec(*e),
{
    match e {
        Expr::Ident(i) => str_eq(i.node.as_str(), "AFTER-ELEM") || str_eq(i.node.as_str(), "NONE>"),
        Expr::Call(c) => {
            let n = c.callee.node.as_str();
            str_eq(n, "nil->val") || str_eq(n, "termval") || str_eq(n, "term") || str_eq(n, "multi-path")
                || str_eq(n, "keypath")
        }
        _ => false,
    }
}

fn is_write_terminal(e: &Expr) -> (r: bool)
    ensures
        r == is_write_terminal_spec(*e),
{
    match e {
        Expr::Ident(i) => str_eq(i.node.as_str(), "NONE>"),
        Expr::Call(c) => {
            let n = c.callee.node.as_str();
            str_eq(n, "term") || str_eq(n, "termval") || str_eq(n, "multi-path")
        }
        _ => false,
    }
}

proof fn lemma_views_push(vs: Seq<Violation>, v: Violation)
    ensures
        violation_views(vs.push(v)) == violation_views(vs).push(violation_view(v)),
{
    assert(violation_views(vs.push(v)) =~= violation_views(vs).push(violation_view(v)));
}

fn check_path(rule: &RamaRule, path: &Vec<Expr>, out: &mut Vec<Violation>)
    ensures
        violation_views(final(out)@) == violation_views(old(out)@) + path_violations(*rule, path@),
{
    let ghost start = violation_views(out@);
    let mut i: usize = 0;
    assert(violation_views(out@) =~= start + path_violations(*rule, path@.take(0)));
    while i < path.len()
        invariant
            i <= path.len(),
            violation_views(out@) == start + path_violations(*rule, path@.take(i as int)),
        decreases path.len() - i,
    {
        proof {
            assert(path@.take(i + 1).drop_last() =~= path@.take(i as int));
            assert(path@.take(i + 1).last() == path@[i as int]);
        }
        let ghost mid = violation_views(out@);
        match &path[i] {
            Expr::Call(c) => {
                if str_eq(c.callee.node.as_str(), "keypath") {
                    let mut j: usize = 0;
                    assert(violation_views(out@) =~= mid + key_violations(*rule, c.args@.take(0)));
                    while j < c.args.len()
                        invariant
                            j <= c.args.len(),
                            violation_views(out@) == mid + key_violations(*rule, c.args@.take(j as int)),
                        decreases c.args.len() - j,
                    {
                        proof {
                            assert(c.args@.take(j + 1).drop_last() =~= c.args@.take(j as int));
                            assert(c.args@.take(j + 1).last() == c.args@[j as int]);
                        }
                        let ghost before = out@;
                        if is_navigator(&c.args[j]) {
                            let v = violation(rule, c.args[j].span(),
                                owned("navigator used as a keypath key; make it a sibling path segment"));
                            out.push(v);
                            proof {
                                lemma_views_push(before, v);
                            }
                        }
                        assert(violation_views(out@) =~= mid + key_violations(*rule, c.args@.take(j + 1)));
                        j += 1;
                    }
                    assert(c.args@.take(c.args@.len() as int) =~= c.args@);
                }
            }
            _ => {}
        }
        assert(violation_views(out@) =~= start + path_violations(*rule, path@.take(i + 1)));
        i += 1;
    }
    assert(path@.take(path@.len() as int) =~= path@);
}

/// What `rule` finds in `stmt` itself.
fn check_own(rule: &RamaRule, program: &Program<'_>, kind: BodyKind, stmt: &Stmt, out: &mut Vec<Violation>)
    ensures
        violation_views(final(out)@) == violation_views(old(out)@) + own_violations(*rule, *program, kind, *stmt),
{
    reveal(own_violations);
    let ghost before = out@;
    match rule {
        RamaRule::FnNoDataflow => {
            if kind == BodyKind::Fn {
                let what: Option<&str> = match stmt {
                    Stmt::Select { .. } => Some("select"),
                    Stmt::Transform { .. } => Some("transform"),
                    Stmt::Fail { .. } => Some("fail"),
                    Stmt::Hash { .. } => Some("|hash"),
                    _ => None,
                };
                match what {
                    Some(w) => {
                        let mut message = owned("`");
                        message.push_str(w);
                        message.push_str("` is dataflow and cannot appear in a plain `fn`; move it into an `op`");
                        let v = violation(rule, stmt_span(stmt), message);
                        out.push(v);
                        proof {
                            lemma_views_push(before, v);
                            assert(violation_views(out@) =~= violation_views(before) + own_violations(*rule, *program, kind, *stmt));
                        }
                        return;
                    }
                    None => {}
                }
            }
        }
        RamaRule::KnownPState => {
            match stmt {
                Stmt::Select { pstate, .. } | Stmt::Transform { pstate, .. } => {
                    if !program.has_pstate(pstate.node.as_str()) {
                        let mut message = owned("`$$");
                        message.push_str(pstate.node.as_str());
                        message.push_str("` is not declared in this module");
                        let v = violation(rule, pstate.span, message);
                        out.push(v);
                        proof {
                            lemma_views_push(before, v);
                            assert(violation_views(out@) =~= violation_views(before) + own_violations(*rule, *program, kind, *stmt));
                        }
                        return;
                    }
                }
                _ => {}
            }
        }
        RamaRule::NavigatorOutsideKeypath => {
            match stmt {
                Stmt::Select { path, .. } | Stmt::Transform { path, .. } => {
                    check_path(rule, path, out);
                    return;
                }
                _ => {}
            }
        }
        RamaRule::TransformHasWriteTerm => {
            match stmt {
                Stmt::Transform { pstate, path, span } => {
                    let ok = path.len() > 0 && is_write_terminal(&path[path.len() - 1]);
                    if !ok {
                        let mut message = owned("transform of `$$");
                        message.push_str(pstate.node.as_str());
                        message.push_str("` does not end in a write (`term`, `termval`, `multi-path`, or `NONE>`)");
                        let v = violation(rule, *span, message);
                        out.push(v);
                        proof {
                            lemma_views_push(before, v);
                            assert(violation_views(out@) =~= violation_views(before) + own_violations(*rule, *program, kind, *stmt));
                        }
                        return;
                    }
                }
                _ => {}
            }
        }
        RamaRule::ShallowOpIf => {}
    }
    assert(violation_views(out@) =~= violation_views(before) + own_violations(*rule, *program, kind, *stmt));
}

#[verifier::loop_isolation(false)]
#[verifier::rlimit(40)]
fn check_block(rule: &RamaRule, program: &Program<'_>, kind: BodyKind, block: &Block, out: &mut Vec<Violation>)
    ensures
        violation_views(final(out)@) == violation_views(old(out)@) + stmts_violations(*rule, *program, kind, block.stmts@),
    decreases block,
{
    let ghost start = violation_views(out@);
    let mut i: usize = 0;
    assert(violation_views(out@) =~= start + stmts_violations(*rule, *program, kind, block.stmts@.take(0)));
    while i < block.stmts.len()
        invariant
            i <= block.stmts.len(),
            violation_views(out@) == start + stmts_violations(*rule, *program, kind, block.stmts@.take(i as int)),
        decreases block.stmts.len() - i,
    {
        proof {
            assert(block.stmts@.take(i + 1).drop_last() =~= block.stmts@.take(i as int));
            assert(block.stmts@.take(i + 1).last() == block.stmts@[i as int]);
        }
        let stmt = &block.stmts[i];
        let ghost mid = violation_views(out@);
        check_own(rule, program, kind, stmt, out);
        match stmt {
            Stmt::If { consequence, alternative, .. } => {
                check_block(rule, program, kind, consequence, out);
                match alternative {
                    Some(b) => { check_block(rule, program, kind, b, out); }
                    None => {}
                }
            }
            _ => {}
        }
        assert(violation_views(out@) =~= mid + stmt_violations(*rule, *program, kind, *stmt));
        assert(violation_views(out@) =~= start + stmts_violations(*rule, *program, kind, block.stmts@.take(i + 1)));
        i += 1;
    }
    assert(block.stmts@.take(block.stmts@.len() as int) =~= block.stmts@);
}

/// Reports each `if` nested deeper than [`MAX_OP_IF_DEPTH`].
#[verifier::loop_isolation(false)]
fn check_if_depth(rule: &RamaRule, block: &Block, depth: usize, out: &mut Vec<Violation>)
    ensures
        violation_views(final(out)@) == violation_views(old(out)@) + deep_if_violations(*rule, block.stmts@, depth),
    decreases block,
{
    let ghost start = violation_views(out@);
    let mut i: usize = 0;
    assert(violation_views(out@) =~= start + deep_if_violations(*rule, block.stmts@.take(0), depth));
    while i < block.stmts.len()
        invariant
            i <= block.stmts.len(),
            violation_views(out@) == start + deep_if_violations(*rule, block.stmts@.take(i as int), depth),
        decreases block.stmts.len() - i,
    {
        proof {
            assert(block.stmts@.take(i + 1).drop_last() =~= block.stmts@.take(i as int));
            assert(block.stmts@.take(i + 1).last() == block.stmts@[i as int]);
        }
        let ghost mid = violation_views(out@);
        match &block.stmts[i] {
            Stmt::If { consequence, alternative, span, .. } => {
                let here = if depth < usize::MAX { depth + 1 } else { depth };
                let ghost before = out@;
                if here == MAX_OP_IF_DEPTH + 1 {
                    let v = violation(rule, *span,
                        owned("op `if` nested too deeply; use `fn` predicates or `fail` guards"));
                    out.push(v);
                    proof {
                        lemma_views_push(before, v);
                    }
                }
                let ghost marked = violation_views(out@);
                assert(marked =~= mid + (if here == MAX_OP_IF_DEPTH + 1 {
                    seq![found(*rule, "op `if` nested too deeply; use `fn` predicates or `fail` guards"@, *span)]
                } else {
                    Seq::empty()
                }));
                check_if_depth(rule, consequence, here, out);
                match alternative {
                    Some(b) => { check_if_depth(rule, b, here, out); }
                    None => {}
                }
            }
            _ => {}
        }
        assert(violation_views(out@) =~= mid + deep_if_in(*rule, block.stmts@[i as int], depth));
        assert(violation_views(out@) =~= start + deep_if_violations(*rule, block.stmts@.take(i + 1), depth));
        i += 1;
    }
    assert(block.stmts@.take(block.stmts@.len() as int) =~= block.stmts@);
}

pub fn stmt_span(stmt: &Stmt) -> (out: crate::span::Span)
    ensures
        out == stmt_span_spec(*stmt),
{
    match stmt {
        Stmt::Let { span, .. } => *span,
        Stmt::Select { span, .. } => *span,
        Stmt::Transform { span, .. } => *span,
        Stmt::Fail { span, .. } => *span,
        Stmt::Return { span, .. } => *span,
        Stmt::Hash { span, .. } => *span,
        Stmt::Effect { span, .. } => *span,
        Stmt::If { span, .. } => *span,
    }
}

} // verus!
