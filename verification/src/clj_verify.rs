//! Compiler-internal verification of generated Clojure IR.
//!
//! These are not user-facing Rama language rules. A failure means lowering
//! produced an invalid target shape and is therefore a compiler bug.

use vstd::prelude::*;
use crate::clj::{Document, Form};
use crate::text::{debug_quote, debug_quoted, decimal, is_prefix, lemma_sorted_unique_determined, seq_lt, sorted_unique, i64_to_string, insert_sorted, owned, starts_with, str_eq, views};

verus! {

#[derive(Debug, Clone, PartialEq, Eq)]
pub struct Issue {
    pub invariant: &'static str,
    pub message: String,
}

#[derive(Clone, Copy, PartialEq, Eq, Structural)]
enum Context {
    Clj,
    Dataflow,
}

/// An issue as plain text: the invariant's name and the message.
pub open spec fn issue_view(issue: Issue) -> (Seq<char>, Seq<char>) {
    (issue.invariant@, issue.message@)
}

pub open spec fn issue_views(issues: Seq<Issue>) -> Seq<(Seq<char>, Seq<char>)> {
    issues.map_values(|issue: Issue| issue_view(issue))
}

/// The symbol that heads a list, if it is headed by one.
pub open spec fn head_name(xs: Seq<Form>) -> Option<Seq<char>> {
    if xs.len() > 0 && xs[0] is Symbol {
        Some(xs[0]->Symbol_0@)
    } else {
        None
    }
}

/// Whether the children of a list are dataflow code: dataflow heads open
/// it, `defn` and `fn` close it, anything else inherits the parent's.
pub open spec fn children_in_dataflow(xs: Seq<Form>, dataflow: bool) -> bool {
    let h = head_name(xs);
    if h == Some("deframaop"@) || h == Some("<<sources"@) || h == Some("<<if"@) || h == Some("<<switch"@) {
        true
    } else if h == Some("defn"@) || h == Some("fn"@) {
        false
    } else {
        dataflow
    }
}

/// Clojure control macros that must not stand in dataflow code.
pub open spec fn is_control_macro(n: Seq<char>) -> bool {
    n == "and"@ || n == "or"@ || n == "if"@ || n == "cond"@ || n == "let*"@ || n == "if-let"@ || n == "when-let"@
}

/// `<<if` with a bare `else>` symbol among its arguments.
pub open spec fn bare_else_issues(xs: Seq<Form>) -> Seq<(Seq<char>, Seq<char>)> {
    if head_name(xs) == Some("<<if"@) && exists|i: int| 1 <= i < xs.len() && #[trigger] xs[i] is Symbol && xs[i]->Symbol_0@ == "else>"@ {
        seq![("clj/else-marker-is-form"@, "generated <<if contains bare `else>`; expected `(else>)`"@)]
    } else {
        Seq::empty()
    }
}

/// A control macro heading a list inside dataflow code.
pub open spec fn control_issues(xs: Seq<Form>, dataflow: bool) -> Seq<(Seq<char>, Seq<char>)> {
    match head_name(xs) {
        Some(n) => if dataflow && is_control_macro(n) {
            seq![(
                "clj/no-clojure-control-in-dataflow"@,
                "generated dataflow contains Clojure control macro `"@ + n + "`; lift it to a top-level defn"@,
            )]
        } else {
            Seq::empty()
        },
        None => Seq::empty(),
    }
}

/// `hash-by` whose first argument is not a symbol.
pub open spec fn hash_by_issues(xs: Seq<Form>) -> Seq<(Seq<char>, Seq<char>)> {
    if head_name(xs) == Some("hash-by"@) && !(xs.len() > 1 && xs[1] is Symbol) {
        seq![("clj/hash-by-symbol"@, "generated hash-by must reference a top-level defn symbol"@)]
    } else {
        Seq::empty()
    }
}

/// One issue per key of a fixed-keys schema map that is not a string.
pub open spec fn key_issues(es: Seq<(Form, Form)>) -> Seq<(Seq<char>, Seq<char>)>
    decreases es.len(),
{
    if es.len() == 0 {
        Seq::empty()
    } else {
        let key = es[es.len() - 1].0;
        key_issues(es.subrange(0, es.len() - 1)) + if key is String {
            Seq::empty()
        } else {
            seq![(
                "clj/rest-fixed-key-strings"@,
                "generated REST fixed-keys-schema key is not a string: "@ + debug_form_spec(key),
            )]
        }
    }
}

pub open spec fn fixed_keys_issues(xs: Seq<Form>) -> Seq<(Seq<char>, Seq<char>)> {
    if head_name(xs) == Some("fixed-keys-schema"@) && xs.len() > 1 && xs[1] is MapLit {
        key_issues(xs[1]->MapLit_0@)
    } else {
        Seq::empty()
    }
}

/// Every `$$…` symbol anywhere inside a form.
pub open spec fn pstate_symbols(f: Form) -> Set<Seq<char>>
    decreases f,
{
    match f {
        Form::Symbol(s) => if is_prefix("$$"@, s@) { set![s@] } else { Set::empty() },
        Form::List(xs) => forms_pstate_symbols(xs@),
        Form::Vector(xs) => forms_pstate_symbols(xs@),
        Form::MapLit(es) => entries_pstate_symbols(es@),
        _ => Set::empty(),
    }
}

pub open spec fn forms_pstate_symbols(xs: Seq<Form>) -> Set<Seq<char>>
    decreases xs,
{
    if xs.len() == 0 {
        Set::empty()
    } else {
        forms_pstate_symbols(xs.subrange(0, xs.len() - 1)).union(pstate_symbols(xs[xs.len() - 1]))
    }
}

pub open spec fn entries_pstate_symbols(es: Seq<(Form, Form)>) -> Set<Seq<char>>
    decreases es,
{
    if es.len() == 0 {
        Set::empty()
    } else {
        entries_pstate_symbols(es.subrange(0, es.len() - 1)).union(pstate_symbols(es[es.len() - 1].0)).union(
            pstate_symbols(es[es.len() - 1].1),
        )
    }
}

/// Whether `p` is a `$$…` symbol among the first `n` forms of `ps`.
pub open spec fn declares_pstate(ps: Seq<Form>, n: int, p: Seq<char>) -> bool {
    is_prefix("$$"@, p) && exists|j: int| 0 <= j < n && #[trigger] ps[j] is Symbol && ps[j]->Symbol_0@ == p
}

/// The `$$…` symbols of a `deframaop`'s parameter vector.
pub open spec fn declared_pstates(xs: Seq<Form>) -> Set<Seq<char>> {
    if xs.len() > 2 && xs[2] is Vector {
        Set::new(|p: Seq<char>| declares_pstate(xs[2]->Vector_0@, xs[2]->Vector_0@.len() as int, p))
    } else {
        Set::empty()
    }
}

/// The `$$…` symbols used in a `deframaop`'s body.
pub open spec fn used_pstates(xs: Seq<Form>) -> Set<Seq<char>> {
    if xs.len() > 3 {
        forms_pstate_symbols(xs.subrange(3, xs.len() as int))
    } else {
        Set::empty()
    }
}

/// The texts of a set in ascending order.
pub open spec fn ascending(s: Set<Seq<char>>) -> Seq<Seq<char>> {
    choose|q: Seq<Seq<char>>| sorted_unique(q) && forall|x: Seq<char>| q.contains(x) <==> s.contains(x)
}

/// One issue per pstate a `deframaop` uses without taking it as a
/// parameter, in ascending order of name.
pub open spec fn pstate_parameter_issues(xs: Seq<Form>) -> Seq<(Seq<char>, Seq<char>)> {
    if head_name(xs) == Some("deframaop"@) {
        ascending(used_pstates(xs).difference(declared_pstates(xs))).map_values(
            |m: Seq<char>|
                ("clj/deframaop-pstate-parameter"@, "generated deframaop references "@ + m + " without declaring it as a parameter"@),
        )
    } else {
        Seq::empty()
    }
}

/// The issues a list raises itself, before those of its children.
pub open spec fn own_issues(xs: Seq<Form>, dataflow: bool) -> Seq<(Seq<char>, Seq<char>)> {
    bare_else_issues(xs) + control_issues(xs, dataflow) + hash_by_issues(xs) + fixed_keys_issues(xs)
        + pstate_parameter_issues(xs)
}

/// Every issue of a form in document order: a list's own issues, then
/// those of its arguments; vectors and maps are walked in the context
/// they stand in.
pub open spec fn form_issues(f: Form, dataflow: bool) -> Seq<(Seq<char>, Seq<char>)>
    decreases f,
{
    match f {
        Form::List(xs) => own_issues(xs@, dataflow) + if xs@.len() > 0 {
            forms_issues(xs@.subrange(1, xs@.len() as int), children_in_dataflow(xs@, dataflow))
        } else {
            Seq::empty()
        },
        Form::Vector(xs) => forms_issues(xs@, dataflow),
        Form::MapLit(es) => entries_issues(es@, dataflow),
        _ => Seq::empty(),
    }
}

pub open spec fn forms_issues(xs: Seq<Form>, dataflow: bool) -> Seq<(Seq<char>, Seq<char>)>
    decreases xs,
{
    if xs.len() == 0 {
        Seq::empty()
    } else {
        forms_issues(xs.subrange(0, xs.len() - 1), dataflow) + form_issues(xs[xs.len() - 1], dataflow)
    }
}

pub open spec fn entries_issues(es: Seq<(Form, Form)>, dataflow: bool) -> Seq<(Seq<char>, Seq<char>)>
    decreases es,
{
    if es.len() == 0 {
        Seq::empty()
    } else {
        entries_issues(es.subrange(0, es.len() - 1), dataflow) + form_issues(es[es.len() - 1].0, dataflow)
            + form_issues(es[es.len() - 1].1, dataflow)
    }
}

/// Every invariant violation in the document, in document order.
pub fn verify(doc: &Document) -> (out: Vec<Issue>)
    ensures
        issue_views(out@) == forms_issues(doc.forms@, false),
{
    let mut issues: Vec<Issue> = Vec::new();
    let mut i: usize = 0;
    proof {
        assert(issue_views(issues@) =~= forms_issues(doc.forms@.subrange(0, 0), false));
    }
    while i < doc.forms.len()
        invariant
            i <= doc.forms.len(),
            issue_views(issues@) == forms_issues(doc.forms@.subrange(0, i as int), false),
        decreases doc.forms.len() - i,
    {
        verify_form(&doc.forms[i], Context::Clj, &mut issues);
        proof {
            let next = doc.forms@.subrange(0, i + 1);
            assert(next.subrange(0, i as int) =~= doc.forms@.subrange(0, i as int));
            assert(next[i as int] == doc.forms@[i as int]);
        }
        i += 1;
    }
    proof {
        assert(doc.forms@.subrange(0, doc.forms.len() as int) =~= doc.forms@);
    }
    issues
}

fn head(xs: &Vec<Form>) -> (out: Option<&String>)
    ensures
        match out {
            Some(h) => head_name(xs@) == Some(h@),
            None => head_name(xs@) is None,
        },
{
    if xs.len() > 0 {
        match &xs[0] {
            Form::Symbol(s) => Some(s),
            _ => None,
        }
    } else {
        None
    }
}

fn head_is(h: Option<&String>, name: &str) -> (r: bool)
    ensures
        r == (h matches Some(s) && s@ == name@),
{
    match h {
        Some(s) => str_eq(s.as_str(), name),
        None => false,
    }
}

fn push_issue(out: &mut Vec<Issue>, rule: &'static str, message: String)
    ensures
        issue_views(final(out)@) == issue_views(old(out)@).push((rule@, message@)),
{
    out.push(Issue { invariant: rule, message });
    proof {
        assert(issue_views(final(out)@) =~= issue_views(old(out)@).push((rule@, message@)));
    }
}

/// `<<if` must not hold a bare `else>` symbol.
fn check_bare_else(xs: &Vec<Form>, out: &mut Vec<Issue>)
    ensures
        issue_views(final(out)@) == issue_views(old(out)@) + bare_else_issues(xs@),
{
    if head_is(head(xs), "<<if") {
        let mut bare = false;
        let mut i: usize = 1;
        while i < xs.len()
            invariant
                1 <= i,
                i <= xs.len() || xs.len() == 0,
                bare == exists|j: int| 1 <= j < i && #[trigger] xs@[j] is Symbol && xs@[j]->Symbol_0@ == "else>"@,
            decreases xs.len() - i,
        {
            match &xs[i] {
                Form::Symbol(s) => {
                    if str_eq(s.as_str(), "else>") {
                        bare = true;
                    }
                }
                _ => {}
            }
            i += 1;
        }
        if bare {
            push_issue(out, "clj/else-marker-is-form", owned("generated <<if contains bare `else>`; expected `(else>)`"));
            return;
        }
    }
    proof {
        assert(issue_views(out@) =~= issue_views(out@) + Seq::<(Seq<char>, Seq<char>)>::empty());
    }
}

/// Control macros must not head a list inside dataflow code.
fn check_control(xs: &Vec<Form>, context: Context, out: &mut Vec<Issue>)
    ensures
        issue_views(final(out)@) == issue_views(old(out)@) + control_issues(xs@, context is Dataflow),
{
    if context == Context::Dataflow {
        match head(xs) {
            Some(name) => {
                let n = name.as_str();
                if str_eq(n, "and") || str_eq(n, "or") || str_eq(n, "if") || str_eq(n, "cond") || str_eq(n, "let*")
                    || str_eq(n, "if-let") || str_eq(n, "when-let") {
                    let mut message = owned("generated dataflow contains Clojure control macro `");
                    message.push_str(n);
                    message.push_str("`; lift it to a top-level defn");
                    push_issue(out, "clj/no-clojure-control-in-dataflow", message);
                    return;
                }
            }
            None => {}
        }
    }
    proof {
        assert(issue_views(out@) =~= issue_views(out@) + Seq::<(Seq<char>, Seq<char>)>::empty());
    }
}

/// `hash-by` must name its function by a symbol.
fn check_hash_by(xs: &Vec<Form>, out: &mut Vec<Issue>)
    ensures
        issue_views(final(out)@) == issue_views(old(out)@) + hash_by_issues(xs@),
{
    if head_is(head(xs), "hash-by") {
        let ok = xs.len() > 1 && matches!(xs[1], Form::Symbol(_));
        if !ok {
            push_issue(out, "clj/hash-by-symbol", owned("generated hash-by must reference a top-level defn symbol"));
            return;
        }
    }
    proof {
        assert(issue_views(out@) =~= issue_views(out@) + Seq::<(Seq<char>, Seq<char>)>::empty());
    }
}

/// The keys of a fixed-keys schema map must be strings.
fn check_fixed_keys(xs: &Vec<Form>, out: &mut Vec<Issue>)
    ensures
        issue_views(final(out)@) == issue_views(old(out)@) + fixed_keys_issues(xs@),
{
    let ghost start = issue_views(out@);
    if head_is(head(xs), "fixed-keys-schema") && xs.len() > 1 {
        match &xs[1] {
            Form::MapLit(entries) => {
                let mut i: usize = 0;
                proof {
                    assert(issue_views(out@) =~= start + key_issues(entries@.subrange(0, 0)));
                }
                while i < entries.len()
                    invariant
                        i <= entries.len(),
                        issue_views(out@) == start + key_issues(entries@.subrange(0, i as int)),
                    decreases entries.len() - i,
                {
                    let ghost before = issue_views(out@);
                    let key = &entries[i].0;
                    if !matches!(key, Form::String(_)) {
                        let mut message = owned("generated REST fixed-keys-schema key is not a string: ");
                        message.push_str(debug_form(key).as_str());
                        push_issue(out, "clj/rest-fixed-key-strings", message);
                    }
                    proof {
                        let next = entries@.subrange(0, i + 1);
                        assert(next.subrange(0, i as int) =~= entries@.subrange(0, i as int));
                        assert(next[i as int] == entries@[i as int]);
                        assert(issue_views(out@) =~= start + key_issues(next));
                    }
                    i += 1;
                }
                proof {
                    assert(entries@.subrange(0, entries.len() as int) =~= entries@);
                }
                return;
            }
            _ => {}
        }
    }
    proof {
        assert(issue_views(out@) =~= issue_views(out@) + Seq::<(Seq<char>, Seq<char>)>::empty());
    }
}

/// The `$$…` parameters of a `deframaop`, ascending.
fn declared_pstate_params(xs: &Vec<Form>) -> (params: Vec<String>)
    ensures
        sorted_unique(views(params@)),
        forall|x: Seq<char>| views(params@).contains(x) <==> declared_pstates(xs@).contains(x),
{
    let mut params: Vec<String> = Vec::new();
    if xs.len() > 2 {
        match &xs[2] {
            Form::Vector(ps) => {
                let mut i: usize = 0;
                while i < ps.len()
                    invariant
                        i <= ps.len(),
                        xs@[2] == Form::Vector(*ps),
                        sorted_unique(views(params@)),
                        forall|x: Seq<char>|
                            #![trigger views(params@).contains(x)]
                            views(params@).contains(x) <==> declares_pstate(ps@, i as int, x),
                    decreases ps.len() - i,
                {
                    let ghost prev = views(params@);
                    let mut added = false;
                    match &ps[i] {
                        Form::Symbol(s) => {
                            if starts_with(s.as_str(), "$$") {
                                let t = s.clone();
                                assert(t@ == s@);
                                insert_sorted(&mut params, t);
                                added = true;
                            }
                        }
                        _ => {}
                    }
                    proof {
                        assert forall|x: Seq<char>|
                            #![trigger views(params@).contains(x)]
                            views(params@).contains(x) <==> declares_pstate(ps@, i + 1, x) by {
                            assert(prev.contains(x) <==> declares_pstate(ps@, i as int, x));
                            if declares_pstate(ps@, i + 1, x) {
                                let j = choose|j: int| 0 <= j < i + 1 && #[trigger] ps@[j] is Symbol && ps@[j]->Symbol_0@ == x;
                                if j < i {
                                    assert(declares_pstate(ps@, i as int, x));
                                } else {
                                    assert(added);
                                }
                            }
                            if declares_pstate(ps@, i as int, x) {
                                let j = choose|j: int| 0 <= j < i && #[trigger] ps@[j] is Symbol && ps@[j]->Symbol_0@ == x;
                                assert(ps@[j] is Symbol);
                            }
                            if views(params@).contains(x) && !prev.contains(x) {
                                assert(ps@[i as int] is Symbol && ps@[i as int]->Symbol_0@ == x);
                            }
                        }
                    }
                    i += 1;
                }
                proof {
                    assert forall|x: Seq<char>| views(params@).contains(x) <==> declared_pstates(xs@).contains(x) by {
                        assert(xs@[2]->Vector_0@ == ps@);
                    }
                }
                return params;
            }
            _ => {}
        }
    }
    proof {
        assert forall|x: Seq<char>| views(params@).contains(x) <==> declared_pstates(xs@).contains(x) by {
            assert(views(params@) =~= Seq::<Seq<char>>::empty());
        }
    }
    params
}

/// A `deframaop` must take every pstate it uses as a parameter.
fn check_pstate_parameters(xs: &Vec<Form>, out: &mut Vec<Issue>)
    ensures
        issue_views(final(out)@) == issue_views(old(out)@) + pstate_parameter_issues(xs@),
{
    if !head_is(head(xs), "deframaop") {
        proof {
            assert(issue_views(out@) =~= issue_views(out@) + Seq::<(Seq<char>, Seq<char>)>::empty());
        }
        return;
    }
    let params = declared_pstate_params(xs);
    let mut used: Vec<String> = Vec::new();
    let mut i: usize = 3;
    while i < xs.len()
        invariant
            3 <= i,
            i <= xs.len() || xs.len() <= 3,
            xs.len() <= 3 ==> i == 3,
            sorted_unique(views(used@)),
            forall|x: Seq<char>|
                #![trigger views(used@).contains(x)]
                views(used@).contains(x) <==> (i > 3 && forms_pstate_symbols(xs@.subrange(3, i as int)).contains(x)),
        decreases xs.len() - i,
    {
        let ghost prev = views(used@);
        collect_pstate_symbols(&xs[i], &mut used);
        proof {
            let next = xs@.subrange(3, i + 1);
            assert(next.subrange(0, next.len() - 1) =~= xs@.subrange(3, i as int));
            assert(next[next.len() - 1] == xs@[i as int]);
            if i == 3 {
                assert(xs@.subrange(3, 3) =~= Seq::<Form>::empty());
            }
            assert(forms_pstate_symbols(next) == forms_pstate_symbols(xs@.subrange(3, i as int)).union(pstate_symbols(xs@[i as int])));
            assert forall|x: Seq<char>|
                #![trigger views(used@).contains(x)]
                views(used@).contains(x) <==> forms_pstate_symbols(next).contains(x) by {
                assert(prev.contains(x) <==> (i > 3 && forms_pstate_symbols(xs@.subrange(3, i as int)).contains(x)));
                assert(views(used@).contains(x) <==> (prev.contains(x) || pstate_symbols(xs@[i as int]).contains(x)));
            }
        }
        i += 1;
    }
    proof {
        assert forall|x: Seq<char>| views(used@).contains(x) <==> used_pstates(xs@).contains(x) by {
            assert(views(used@).contains(x) <==> (i > 3 && forms_pstate_symbols(xs@.subrange(3, i as int)).contains(x)));
            if xs.len() > 3 {
                assert(i == xs.len());
            }
        }
    }
    let ghost start = issue_views(out@);
    let ghost declared = declared_pstates(xs@);
    let ghost mut picked: Seq<Seq<char>> = Seq::empty();
    let ghost mut at: Seq<int> = Seq::empty();
    let mut k: usize = 0;
    while k < used.len()
        invariant
            k <= used.len(),
            sorted_unique(views(used@)),
            forall|x: Seq<char>| views(params@).contains(x) <==> declared.contains(x),
            picked.len() == at.len(),
            forall|t: int| 0 <= t < at.len() ==> 0 <= #[trigger] at[t] < k && picked[t] == views(used@)[at[t]],
            forall|t: int, u: int| 0 <= t < u < at.len() ==> #[trigger] at[t] < #[trigger] at[u],
            forall|x: Seq<char>| picked.contains(x) <==> (!declared.contains(x) && exists|m: int|
                0 <= m < k && #[trigger] views(used@)[m] == x),
            issue_views(out@) == start + picked.map_values(
                |m: Seq<char>|
                    ("clj/deframaop-pstate-parameter"@, "generated deframaop references "@ + m + " without declaring it as a parameter"@),
            ),
        decreases used.len() - k,
    {
        let name = used[k].as_str();
        if !contains_str(&params, name) {
            let mut message = owned("generated deframaop references ");
            message.push_str(name);
            message.push_str(" without declaring it as a parameter");
            push_issue(out, "clj/deframaop-pstate-parameter", message);
            proof {
                let old_picked = picked;
                picked = picked.push(name@);
                at = at.push(k as int);
                assert(picked.map_values(
                    |m: Seq<char>|
                        ("clj/deframaop-pstate-parameter"@, "generated deframaop references "@ + m + " without declaring it as a parameter"@),
                ) =~= old_picked.map_values(
                    |m: Seq<char>|
                        ("clj/deframaop-pstate-parameter"@, "generated deframaop references "@ + m + " without declaring it as a parameter"@),
                ).push((
                    "clj/deframaop-pstate-parameter"@,
                    "generated deframaop references "@ + name@ + " without declaring it as a parameter"@,
                )));
                assert(picked[at.len() - 1] == views(used@)[k as int]);
                assert forall|x: Seq<char>| picked.contains(x) <==> (!declared.contains(x) && exists|m: int|
                    0 <= m < k + 1 && #[trigger] views(used@)[m] == x) by {
                    if picked.contains(x) {
                        let t = choose|t: int| 0 <= t < picked.len() && picked[t] == x;
                        if t < old_picked.len() {
                            assert(old_picked[t] == x);
                            assert(old_picked.contains(x));
                        }
                    }
                    if !declared.contains(x) && exists|m: int| 0 <= m < k + 1 && #[trigger] views(used@)[m] == x {
                        let m = choose|m: int| 0 <= m < k + 1 && #[trigger] views(used@)[m] == x;
                        if m < k {
                            assert(old_picked.contains(x));
                            let t = choose|t: int| 0 <= t < old_picked.len() && old_picked[t] == x;
                            assert(picked[t] == x);
                        } else {
                            assert(picked[picked.len() - 1] == x);
                        }
                    }
                }
            }
        } else {
            proof {
                assert forall|x: Seq<char>| picked.contains(x) <==> (!declared.contains(x) && exists|m: int|
                    0 <= m < k + 1 && #[trigger] views(used@)[m] == x) by {
                    if !declared.contains(x) && exists|m: int| 0 <= m < k + 1 && #[trigger] views(used@)[m] == x {
                        let m = choose|m: int| 0 <= m < k + 1 && #[trigger] views(used@)[m] == x;
                        if m == k {
                            assert(views(params@).contains(name@));
                        }
                    }
                }
            }
        }
        k += 1;
    }
    proof {
        let diff = used_pstates(xs@).difference(declared);
        assert(sorted_unique(picked)) by {
            assert forall|p: int, q: int| 0 <= p < q < picked.len() implies seq_lt(#[trigger] picked[p], #[trigger] picked[q]) by {
                assert(at[p] < at[q]);
            }
        }
        assert forall|x: Seq<char>| picked.contains(x) <==> diff.contains(x) by {
            if diff.contains(x) {
                assert(views(used@).contains(x));
            }
        }
        let chosen = ascending(diff);
        assert(sorted_unique(chosen) && forall|x: Seq<char>| chosen.contains(x) <==> diff.contains(x));
        lemma_sorted_unique_determined(chosen, picked);
    }
}

/// The issues a list raises itself.
fn check_list(xs: &Vec<Form>, context: Context, out: &mut Vec<Issue>)
    ensures
        issue_views(final(out)@) == issue_views(old(out)@) + own_issues(xs@, context is Dataflow),
{
    let ghost start = issue_views(out@);
    check_bare_else(xs, out);
    check_control(xs, context, out);
    check_hash_by(xs, out);
    check_fixed_keys(xs, out);
    check_pstate_parameters(xs, out);
    proof {
        assert(issue_views(out@) =~= start + own_issues(xs@, context is Dataflow));
    }
}

/// Every invariant violation inside `form`, appended to `out` in document
/// order.
#[verifier::loop_isolation(false)]
#[verifier::rlimit(60)]
fn verify_form(form: &Form, context: Context, out: &mut Vec<Issue>)
    ensures
        issue_views(final(out)@) == issue_views(old(out)@) + form_issues(*form, context is Dataflow),
    decreases form,
{
    let ghost start = issue_views(out@);
    let ghost dataflow = context is Dataflow;
    match form {
        Form::List(xs) => {
            let h = head(xs);
            let next = if head_is(h, "deframaop") || head_is(h, "<<sources") || head_is(h, "<<if")
                || head_is(h, "<<switch") {
                Context::Dataflow
            } else if head_is(h, "defn") || head_is(h, "fn") {
                Context::Clj
            } else {
                context
            };
            assert((next is Dataflow) == children_in_dataflow(xs@, dataflow));
            check_list(xs, context, out);
            let ghost own = issue_views(out@);
            if xs.len() == 0 {
                proof {
                    assert(issue_views(out@) =~= start + form_issues(*form, dataflow));
                }
                return;
            }
            let mut i: usize = 1;
            proof {
                assert(issue_views(out@) =~= own + forms_issues(xs@.subrange(1, 1), next is Dataflow));
            }
            while i < xs.len()
                invariant
                    1 <= i <= xs.len(),
                    issue_views(out@) == own + forms_issues(xs@.subrange(1, i as int), next is Dataflow),
                decreases xs.len() - i,
            {
                verify_form(&xs[i], next, out);
                proof {
                    let more = xs@.subrange(1, i + 1);
                    assert(more.subrange(0, more.len() - 1) =~= xs@.subrange(1, i as int));
                    assert(more[more.len() - 1] == xs@[i as int]);
                    assert(issue_views(out@) =~= own + forms_issues(more, next is Dataflow));
                }
                i += 1;
            }
            proof {
                assert(issue_views(out@) =~= start + form_issues(*form, dataflow));
            }
        }
        Form::Vector(xs) => {
            let mut i: usize = 0;
            proof {
                assert(issue_views(out@) =~= start + forms_issues(xs@.subrange(0, 0), dataflow));
            }
            while i < xs.len()
                invariant
                    i <= xs.len(),
                    issue_views(out@) == start + forms_issues(xs@.subrange(0, i as int), dataflow),
                decreases xs.len() - i,
            {
                verify_form(&xs[i], context, out);
                proof {
                    let more = xs@.subrange(0, i + 1);
                    assert(more.subrange(0, i as int) =~= xs@.subrange(0, i as int));
                    assert(more[i as int] == xs@[i as int]);
                    assert(issue_views(out@) =~= start + forms_issues(more, dataflow));
                }
                i += 1;
            }
            proof {
                assert(xs@.subrange(0, xs.len() as int) =~= xs@);
            }
        }
        Form::MapLit(entries) => {
            let mut i: usize = 0;
            proof {
                assert(issue_views(out@) =~= start + entries_issues(entries@.subrange(0, 0), dataflow));
            }
            while i < entries.len()
                invariant
                    i <= entries.len(),
                    issue_views(out@) == start + entries_issues(entries@.subrange(0, i as int), dataflow),
                decreases entries.len() - i,
            {
                verify_form(&entries[i].0, context, out);
                verify_form(&entries[i].1, context, out);
                proof {
                    let more = entries@.subrange(0, i + 1);
                    assert(more.subrange(0, i as int) =~= entries@.subrange(0, i as int));
                    assert(more[i as int] == entries@[i as int]);
                    assert(issue_views(out@) =~= start + entries_issues(more, dataflow));
                }
                i += 1;
            }
            proof {
                assert(entries@.subrange(0, entries.len() as int) =~= entries@);
            }
        }
        _ => {
            proof {
                assert(issue_views(out@) =~= start + form_issues(*form, dataflow));
            }
        }
    }
}

/// Whether `set` holds a string equal to `s`.
pub fn contains_str(set: &Vec<String>, s: &str) -> (r: bool)
    ensures
        r == views(set@).contains(s@),
{
    let mut i: usize = 0;
    while i < set.len()
        invariant
            i <= set.len(),
            forall|j: int| 0 <= j < i ==> views(set@)[j] != s@,
        decreases set.len() - i,
    {
        if str_eq(set[i].as_str(), s) {
            assert(views(set@)[i as int] == s@);
            return true;
        }
        i += 1;
    }
    false
}

/// Every `$$…` symbol anywhere inside `form`, added to the sorted set `out`.
#[verifier::loop_isolation(false)]
fn collect_pstate_symbols(form: &Form, out: &mut Vec<String>)
    ensures
        sorted_unique(views(old(out)@)) ==> sorted_unique(views(final(out)@)),
        forall|x: Seq<char>|
            #![trigger views(final(out)@).contains(x)]
            #![trigger views(old(out)@).contains(x)]
            #![trigger pstate_symbols(*form).contains(x)]
            views(final(out)@).contains(x) <==> (views(old(out)@).contains(x) || pstate_symbols(*form).contains(x)),
    decreases form,
{
    let ghost start = views(out@);
    match form {
        Form::Symbol(s) => {
            if starts_with(s.as_str(), "$$") {
                let t = s.clone();
                assert(t@ == s@);
                insert_sorted(out, t);
                assert(pstate_symbols(*form) == set![s@]);
                assert forall|x: Seq<char>| views(out@).contains(x) <==> (start.contains(x) || pstate_symbols(*form).contains(x)) by {
                    if x == s@ {
                        assert(views(out@).contains(x));
                    }
                }
            } else {
                assert(pstate_symbols(*form) =~= Set::<Seq<char>>::empty());
            }
        }
        Form::List(xs) | Form::Vector(xs) => {
            let mut i: usize = 0;
            while i < xs.len()
                invariant
                    i <= xs.len(),
                    sorted_unique(start) ==> sorted_unique(views(out@)),
                    forall|x: Seq<char>|
                        #![trigger views(out@).contains(x)]
                        #![trigger forms_pstate_symbols(xs@.subrange(0, i as int)).contains(x)]
                        views(out@).contains(x) <==> (start.contains(x) || forms_pstate_symbols(xs@.subrange(0, i as int)).contains(x)),
                decreases xs.len() - i,
            {
                let ghost prev = views(out@);
                collect_pstate_symbols(&xs[i], out);
                proof {
                    let more = xs@.subrange(0, i + 1);
                    assert(more.subrange(0, i as int) =~= xs@.subrange(0, i as int));
                    assert(more[i as int] == xs@[i as int]);
                    assert(forms_pstate_symbols(more) == forms_pstate_symbols(xs@.subrange(0, i as int)).union(pstate_symbols(xs@[i as int])));
                    assert forall|x: Seq<char>| views(out@).contains(x) <==> (start.contains(x) || forms_pstate_symbols(more).contains(x)) by {
                        assert(views(out@).contains(x) <==> (prev.contains(x) || pstate_symbols(xs@[i as int]).contains(x)));
                    }
                }
                i += 1;
            }
            proof {
                assert(xs@.subrange(0, xs.len() as int) =~= xs@);
            }
        }
        Form::MapLit(entries) => {
            let mut i: usize = 0;
            while i < entries.len()
                invariant
                    i <= entries.len(),
                    sorted_unique(start) ==> sorted_unique(views(out@)),
                    forall|x: Seq<char>|
                        #![trigger views(out@).contains(x)]
                        #![trigger entries_pstate_symbols(entries@.subrange(0, i as int)).contains(x)]
                        views(out@).contains(x) <==> (start.contains(x) || entries_pstate_symbols(entries@.subrange(0, i as int)).contains(x)),
                decreases entries.len() - i,
            {
                collect_pstate_symbols(&entries[i].0, out);
                collect_pstate_symbols(&entries[i].1, out);
                proof {
                    let more = entries@.subrange(0, i + 1);
                    assert(more.subrange(0, i as int) =~= entries@.subrange(0, i as int));
                    assert(more[i as int] == entries@[i as int]);
                }
                i += 1;
            }
            proof {
                assert(entries@.subrange(0, entries.len() as int) =~= entries@);
            }
        }
        _ => {}
    }
}

/// `Form`'s `Debug` text: the variant's name, with strings quoted as
/// `{:?}` quotes them and children comma-separated inside `([..])`.
pub open spec fn debug_form_spec(f: Form) -> Seq<char>
    decreases f,
{
    match f {
        Form::Nil => "Nil"@,
        Form::Bool(b) => if b { "Bool(true)"@ } else { "Bool(false)"@ },
        Form::Int(n) => "Int("@ + decimal(n as int) + ")"@,
        Form::String(s) => "String("@ + debug_quoted(s@) + ")"@,
        Form::Symbol(s) => "Symbol("@ + debug_quoted(s@) + ")"@,
        Form::Keyword(s) => "Keyword("@ + debug_quoted(s@) + ")"@,
        Form::Comment(s) => "Comment("@ + debug_quoted(s@) + ")"@,
        Form::List(xs) => "List(["@ + debug_forms_spec(xs@) + "])"@,
        Form::Vector(xs) => "Vector(["@ + debug_forms_spec(xs@) + "])"@,
        Form::MapLit(es) => "MapLit(["@ + debug_entries_spec(es@) + "])"@,
    }
}

/// The `Debug` texts of `xs`, joined with `", "`.
pub open spec fn debug_forms_spec(xs: Seq<Form>) -> Seq<char>
    decreases xs,
{
    if xs.len() == 0 {
        Seq::empty()
    } else {
        let init = xs.subrange(0, xs.len() - 1);
        (if init.len() == 0 { Seq::empty() } else { debug_forms_spec(init) + ", "@ }) + debug_form_spec(xs[xs.len() - 1])
    }
}

/// The `Debug` texts of `es` as `(key, value)` pairs, joined with `", "`.
pub open spec fn debug_entries_spec(es: Seq<(Form, Form)>) -> Seq<char>
    decreases es,
{
    if es.len() == 0 {
        Seq::empty()
    } else {
        let init = es.subrange(0, es.len() - 1);
        let last = es[es.len() - 1];
        (if init.len() == 0 { Seq::empty() } else { debug_entries_spec(init) + ", "@ }) + "("@ + debug_form_spec(last.0)
            + ", "@ + debug_form_spec(last.1) + ")"@
    }
}

/// The form as `{:?}` prints it.
#[verifier::loop_isolation(false)]
#[verifier::rlimit(20)]
pub fn debug_form(form: &Form) -> (out: String)
    ensures
        out@ == debug_form_spec(*form),
    decreases form,
{
    match form {
        Form::Nil => owned("Nil"),
        Form::Bool(b) => if *b { owned("Bool(true)") } else { owned("Bool(false)") },
        Form::Int(n) => {
            let mut out = owned("Int(");
            out.push_str(i64_to_string(*n).as_str());
            out.push(')');
            proof {
                reveal_strlit(")");
                assert(out@ =~= "Int("@ + decimal(*n as int) + ")"@);
            }
            out
        }
        Form::String(s) => wrap("String(", s.as_str()),
        Form::Symbol(s) => wrap("Symbol(", s.as_str()),
        Form::Keyword(s) => wrap("Keyword(", s.as_str()),
        Form::Comment(s) => wrap("Comment(", s.as_str()),
        Form::List(xs) | Form::Vector(xs) => {
            let mut out = if matches!(form, Form::List(_)) { owned("List([") } else { owned("Vector([") };
            let ghost open = out@;
            let mut i: usize = 0;
            while i < xs.len()
                invariant
                    i <= xs.len(),
                    out@ == open + debug_forms_spec(xs@.subrange(0, i as int)),
                decreases xs.len() - i,
            {
                if i > 0 {
                    out.push_str(", ");
                }
                let item = debug_form(&xs[i]);
                out.push_str(item.as_str());
                proof {
                    let next = xs@.subrange(0, i + 1);
                    assert(next.subrange(0, i as int) =~= xs@.subrange(0, i as int));
                    assert(next[i as int] == xs@[i as int]);
                    assert(out@ =~= open + debug_forms_spec(next));
                }
                i += 1;
            }
            out.push_str("])");
            proof {
                assert(xs@.subrange(0, xs.len() as int) =~= xs@);
                assert(out@ =~= open + debug_forms_spec(xs@) + "])"@);
            }
            out
        }
        Form::MapLit(entries) => {
            let mut out = owned("MapLit([");
            let ghost open = out@;
            let mut i: usize = 0;
            while i < entries.len()
                invariant
                    i <= entries.len(),
                    out@ == open + debug_entries_spec(entries@.subrange(0, i as int)),
                decreases entries.len() - i,
            {
                if i > 0 {
                    out.push_str(", ");
                }
                out.push('(');
                let k = debug_form(&entries[i].0);
                out.push_str(k.as_str());
                out.push_str(", ");
                let v = debug_form(&entries[i].1);
                out.push_str(v.as_str());
                out.push(')');
                proof {
                    let next = entries@.subrange(0, i + 1);
                    assert(next.subrange(0, i as int) =~= entries@.subrange(0, i as int));
                    assert(next[i as int] == entries@[i as int]);
                    reveal_strlit("(");
                    reveal_strlit(")");
                    assert(out@ =~= open + debug_entries_spec(next));
                }
                i += 1;
            }
            out.push_str("])");
            proof {
                assert(entries@.subrange(0, entries.len() as int) =~= entries@);
                assert(out@ =~= open + debug_entries_spec(entries@) + "])"@);
            }
            out
        }
    }
}

fn wrap(prefix: &str, s: &str) -> (out: String)
    ensures
        out@ == prefix@ + debug_quoted(s@) + ")"@,
{
    let mut out = owned(prefix);
    out.push_str(debug_quote(s).as_str());
    out.push(')');
    proof {
        reveal_strlit(")");
        assert(out@ =~= prefix@ + debug_quoted(s@) + ")"@);
    }
    out
}

} // verus!
