//! Turn runtime contract violations back into source edits.
//!
//! Generated contracts append `path \t expected \t actual` lines to a tape
//! file. `rama-check learn` reads that tape, matches each violation against
//! the parsed `.rama` source, and proposes (or applies) precise fixes. This
//! closes the loop: runtime facts become explicit, reviewable program text.

use vstd::prelude::*;
use crate::ast::{Item, SourceFile};
use crate::span::{byte_len, byte_len_fits, byte_slice, lemma_encode_len, Span};
use crate::text::{
    cat, chars_of, decimal_digits, lemma_lt_irreflexive, lemma_lt_total, lemma_lt_transitive, seq_lt, find_char, find_from, is_prefix, is_suffix, lemma_find_from_bounds, lines, lines_from, owned,
    starts_with, ends_with, str_eq, str_lt, substring, usize_to_string, views,
};

verus! {

#[derive(Debug, Clone, PartialEq, Eq)]
pub struct TapeViolation {
    pub path: String,
    pub expected: String,
    pub actual: String,
}

/// A violation as its three texts.
pub open spec fn violation_model(v: TapeViolation) -> (Seq<char>, Seq<char>, Seq<char>) {
    (v.path@, v.expected@, v.actual@)
}

/// A line split at its first two tabs; the third field keeps later tabs.
/// Lines with fewer than two tabs carry no violation.
pub open spec fn split_tab3(line: Seq<char>) -> Option<(Seq<char>, Seq<char>, Seq<char>)> {
    let t1 = find_from(line, '\t', 0);
    let t2 = find_from(line, '\t', t1 + 1);
    if t1 >= line.len() || t2 >= line.len() {
        None
    } else {
        Some((line.subrange(0, t1), line.subrange(t1 + 1, t2), line.subrange(t2 + 1, line.len() as int)))
    }
}

/// The violations the lines carry, in order.
pub open spec fn tape_spec(lines: Seq<Seq<char>>) -> Seq<(Seq<char>, Seq<char>, Seq<char>)>
    decreases lines.len(),
{
    if lines.len() == 0 {
        Seq::empty()
    } else {
        let rest = tape_spec(lines.drop_last());
        match split_tab3(lines.last()) {
            Some(t) => rest.push(t),
            None => rest,
        }
    }
}

/// The violation one tape line records.
pub fn parse_tape_line(line: &str) -> (out: Option<TapeViolation>)
    ensures
        out matches Some(v) ==> split_tab3(line@) == Some(violation_model(v)),
        out is None ==> split_tab3(line@) is None,
{
    let cs = chars_of(line);
    let t1 = find_char(&cs, '\t', 0);
    proof {
        lemma_find_from_bounds(cs@, '\t', 0);
    }
    if t1 >= cs.len() {
        return None;
    }
    let t2 = find_char(&cs, '\t', t1 + 1);
    proof {
        lemma_find_from_bounds(cs@, '\t', t1 + 1);
    }
    if t2 >= cs.len() {
        return None;
    }
    let path = substring(cs.as_slice(), 0, t1);
    let expected = substring(cs.as_slice(), t1 + 1, t2);
    let actual = substring(cs.as_slice(), t2 + 1, cs.len());
    Some(TapeViolation { path, expected, actual })
}

/// The violations a tape records, one per line of at least three
/// tab-separated fields, in order.
pub fn parse_tape(tape: &str) -> (out: Vec<TapeViolation>)
    ensures
        out@.map_values(|v: TapeViolation| violation_model(v)) == tape_spec(lines_from(tape@, 0)),
{
    let ls = lines(tape);
    let mut out: Vec<TapeViolation> = Vec::new();
    let mut i: usize = 0;
    while i < ls.len()
        invariant
            i <= ls.len(),
            views(ls@) == lines_from(tape@, 0),
            out@.map_values(|v: TapeViolation| violation_model(v)) == tape_spec(views(ls@).take(i as int)),
        decreases ls.len() - i,
    {
        let ghost before = out@;
        proof {
            assert(views(ls@).take(i + 1).drop_last() =~= views(ls@).take(i as int));
            assert(views(ls@).take(i + 1).last() == ls@[i as int]@);
        }
        match parse_tape_line(ls[i].as_str()) {
            Some(v) => {
                out.push(v);
                proof {
                    assert(out@.map_values(|v: TapeViolation| violation_model(v)) =~= before.map_values(
                        |v: TapeViolation| violation_model(v),
                    ).push(violation_model(v)));
                }
            }
            None => {},
        }
        i += 1;
    }
    assert(views(ls@).take(ls.len() as int) =~= views(ls@));
    out
}

#[derive(Debug, Clone, PartialEq, Eq)]
pub struct Suggestion {
    pub message: String,
    /// Precise replacement of a source span, when the fix is mechanical.
    pub fix: Option<(Span, String)>,
}

/// The extern whose return a contract path names: `extern `NAME` return`.
pub open spec fn extern_return_spec(path: Seq<char>) -> Option<Seq<char>> {
    let p = "extern `"@;
    let s = "` return"@;
    if is_prefix(p, path) && is_suffix(s, path.skip(p.len() as int)) {
        Some(path.subrange(p.len() as int, path.len() - s.len()))
    } else {
        None
    }
}

pub fn extern_return_name(path: &str) -> (out: Option<String>)
    ensures
        out matches Some(n) ==> extern_return_spec(path@) == Some(n@),
        out is None ==> extern_return_spec(path@) is None,
{
    proof {
        reveal_strlit("extern `");
        reveal_strlit("` return");
    }
    let cs = chars_of(path);
    if !starts_with(path, "extern `") {
        return None;
    }
    let rest = substring(cs.as_slice(), 8, cs.len());
    assert(rest@ =~= path@.skip(8));
    if !ends_with(rest.as_str(), "` return") {
        return None;
    }
    let name = substring(cs.as_slice(), 8, cs.len() - 8);
    Some(name)
}

/// The position of the first occurrence of `p` in `s` at or after `from`.
fn find_text(s: &Vec<char>, p: &Vec<char>, from: usize) -> (out: Option<usize>)
    ensures
        out matches Some(i) ==> from <= i && crate::text::occurs_at(p@, s@, i as int)
            && forall|j: int| from <= j < i ==> !crate::text::occurs_at(p@, s@, j),
        out is None ==> forall|j: int| from <= j ==> !crate::text::occurs_at(p@, s@, j),
{
    let mut i = from;
    while i < s.len()
        invariant
            from <= i,
            forall|j: int| from <= j < i ==> !crate::text::occurs_at(p@, s@, j),
        decreases s.len() - i,
    {
        if crate::text::seq_occurs_at(s.as_slice(), p.as_slice(), i) {
            return Some(i);
        }
        i += 1;
    }
    if crate::text::seq_occurs_at(s.as_slice(), p.as_slice(), i) {
        return Some(i);
    }
    None
}

/// Where ` argument `` first occurs in `path`.
pub open spec fn first_argument_marker(path: Seq<char>) -> int {
    choose|i: int| crate::text::occurs_at(" argument `"@, path, i) && forall|j: int| 0 <= j < i ==> !crate::text::occurs_at(" argument `"@, path, j)
}

/// The function and parameter a contract path names: what comes before
/// the first ` argument `` and, without the closing backquote, after it.
pub open spec fn fn_argument_spec(path: Seq<char>) -> Option<(Seq<char>, Seq<char>)> {
    if !crate::text::contains_seq(path, " argument `"@) {
        None
    } else {
        let i = first_argument_marker(path);
        let rest = path.subrange(i + " argument `"@.len(), path.len() as int);
        if rest.len() > 0 && rest.last() == '`' {
            Some((path.subrange(0, i), rest.drop_last()))
        } else {
            None
        }
    }
}

/// The function and parameter a contract path names:
/// `FUNCTION argument `PARAM``, split at the first ` argument ``.
pub fn fn_argument_target(path: &str) -> (out: Option<(String, String)>)
    ensures
        out matches Some((f, a)) ==> path@ == f@ + " argument `"@ + a@ + seq!['`']
            && forall|j: int| 0 <= j < f@.len() ==> !crate::text::occurs_at(" argument `"@, path@, j),
        match out {
            Some((f, a)) => fn_argument_spec(path@) == Some((f@, a@)),
            None => fn_argument_spec(path@) is None,
        },
{
    let cs = chars_of(path);
    let sep = chars_of(" argument `");
    let at = match find_text(&cs, &sep, 0) {
        Some(at) => at,
        None => {
            proof {
                assert forall|j: int| !crate::text::occurs_at(sep@, path@, j) by {
                    if j >= 0 {
                        assert(!crate::text::occurs_at(sep@, cs@, j));
                    }
                }
            }
            return None;
        },
    };
    let n = cs.len();
    let width = sep.len();
    assert(crate::text::occurs_at(sep@, cs@, at as int));
    assert(at + width <= n);
    let start = at + width;
    if start >= cs.len() || cs[cs.len() - 1] != '`' {
        proof {
            if start < cs.len() {
                assert(path@.skip(path@.len() - 1) =~= seq![path@.last()]);
                assert(path@.last() == cs@[cs@.len() - 1]);
                if crate::text::is_suffix(seq!['`'], path@) {
                    assert(path@.skip(path@.len() - 1)[0] == '`');
                }
            } else {
                assert(crate::text::occurs_at(" argument `"@, path@, at as int));
            }
        }
        return None;
    }
    let f = substring(cs.as_slice(), 0, at);
    let a = substring(cs.as_slice(), start, cs.len() - 1);
    proof {
        assert(path@ =~= f@ + sep@ + a@ + seq!['`']);
    }
    Some((f, a))
}

/// The source alias of a JVM class where one exists.
pub open spec fn source_alias_spec(class: Seq<char>) -> Seq<char> {
    if class == "java.lang.String"@ {
        "String"@
    } else if class == "java.lang.Long"@ {
        "Long"@
    } else if class == "java.lang.Integer"@ {
        "Int"@
    } else if class == "java.lang.Boolean"@ {
        "Boolean"@
    } else if class == "java.lang.Object"@ {
        "Object"@
    } else {
        class
    }
}

/// A repinned alias means the class it came from: resolving the short name
/// written into the source gives back the observed runtime class, for every
/// class that is not itself written as a short alias.
pub proof fn law_source_alias_resolves(class: Seq<char>)
    requires
        !crate::types::model::builtin_alias_spec(class),
    ensures
        crate::contracts::class_of(source_alias_spec(class)) == class,
{
    reveal_strlit("java.lang.String");
    assert("java.lang.String"@.len() == 16);
    assert("java.lang.String"@[0] == 'j');
    assert("java.lang.String"@[1] == 'a');
    assert("java.lang.String"@[10] == 'S');
    reveal_strlit("java.lang.Long");
    assert("java.lang.Long"@.len() == 14);
    assert("java.lang.Long"@[0] == 'j');
    assert("java.lang.Long"@[1] == 'a');
    assert("java.lang.Long"@[10] == 'L');
    reveal_strlit("java.lang.Integer");
    assert("java.lang.Integer"@.len() == 17);
    assert("java.lang.Integer"@[0] == 'j');
    assert("java.lang.Integer"@[1] == 'a');
    assert("java.lang.Integer"@[10] == 'I');
    reveal_strlit("java.lang.Boolean");
    assert("java.lang.Boolean"@.len() == 17);
    assert("java.lang.Boolean"@[0] == 'j');
    assert("java.lang.Boolean"@[1] == 'a');
    assert("java.lang.Boolean"@[10] == 'B');
    reveal_strlit("java.lang.Object");
    assert("java.lang.Object"@.len() == 16);
    assert("java.lang.Object"@[0] == 'j');
    assert("java.lang.Object"@[1] == 'a');
    assert("java.lang.Object"@[10] == 'O');
    reveal_strlit("String");
    assert("String"@.len() == 6);
    assert("String"@[0] == 'S');
    assert("String"@[1] == 't');
    reveal_strlit("Long");
    assert("Long"@.len() == 4);
    assert("Long"@[0] == 'L');
    assert("Long"@[1] == 'o');
    reveal_strlit("Int");
    assert("Int"@.len() == 3);
    assert("Int"@[0] == 'I');
    assert("Int"@[1] == 'n');
    reveal_strlit("Integer");
    assert("Integer"@.len() == 7);
    assert("Integer"@[0] == 'I');
    assert("Integer"@[1] == 'n');
    reveal_strlit("Boolean");
    assert("Boolean"@.len() == 7);
    assert("Boolean"@[0] == 'B');
    assert("Boolean"@[1] == 'o');
    reveal_strlit("Object");
    assert("Object"@.len() == 6);
    assert("Object"@[0] == 'O');
    assert("Object"@[1] == 'b');
    reveal_strlit("Number");
    assert("Number"@.len() == 6);
    assert("Number"@[0] == 'N');
    assert("Number"@[1] == 'u');
    reveal_strlit("List");
    assert("List"@.len() == 4);
    assert("List"@[0] == 'L');
    assert("List"@[1] == 'i');
    reveal_strlit("Set");
    assert("Set"@.len() == 3);
    assert("Set"@[0] == 'S');
    assert("Set"@[1] == 'e');
    reveal_strlit("Map");
    assert("Map"@.len() == 3);
    assert("Map"@[0] == 'M');
    assert("Map"@[1] == 'a');
}

pub fn source_alias(class: &str) -> (out: String)
    ensures
        out@ == source_alias_spec(class@),
{
    if str_eq(class, "java.lang.String") {
        owned("String")
    } else if str_eq(class, "java.lang.Long") {
        owned("Long")
    } else if str_eq(class, "java.lang.Integer") {
        owned("Int")
    } else if str_eq(class, "java.lang.Boolean") {
        owned("Boolean")
    } else if str_eq(class, "java.lang.Object") {
        owned("Object")
    } else {
        owned(class)
    }
}

pub type Triple = (Seq<char>, Seq<char>, Seq<char>);

/// `(path, expected, actual)` ordered field by field.
pub open spec fn triple_lt_spec(a: Triple, b: Triple) -> bool {
    seq_lt(a.0, b.0) || (a.0 == b.0 && (seq_lt(a.1, b.1) || (a.1 == b.1 && seq_lt(a.2, b.2))))
}

/// The three texts of a group.
pub open spec fn group_key(g: (String, String, String, usize)) -> Triple {
    (g.0@, g.1@, g.2@)
}

/// How many of `vs` are the violation `t`.
pub open spec fn occurrences(vs: Seq<TapeViolation>, t: Triple) -> nat
    decreases vs.len(),
{
    if vs.len() == 0 {
        0
    } else {
        occurrences(vs.drop_last(), t) + if violation_model(vs.last()) == t { 1nat } else { 0nat }
    }
}

/// Groups in strictly ascending order of their texts.
pub open spec fn groups_ascending(gs: Seq<(String, String, String, usize)>) -> bool {
    forall|a: int, b: int| 0 <= a < b < gs.len() ==> triple_lt_spec(group_key(#[trigger] gs[a]), group_key(#[trigger] gs[b]))
}

/// Each group counts its violations, and every violation has its group.
pub open spec fn groups_count(gs: Seq<(String, String, String, usize)>, vs: Seq<TapeViolation>) -> bool {
    &&& forall|k: int| 0 <= k < gs.len() ==> (#[trigger] gs[k]).3 == occurrences(vs, group_key(gs[k])) && gs[k].3 >= 1
    &&& forall|i: int| 0 <= i < vs.len() ==> exists|k: int| 0 <= k < gs.len() && group_key(#[trigger] gs[k]) == violation_model(#[trigger] vs[i])
}

/// A group as plain values: its texts and its count.
pub open spec fn group_model(g: (String, String, String, usize)) -> (Triple, nat) {
    (group_key(g), g.3 as nat)
}

pub open spec fn group_models(gs: Seq<(String, String, String, usize)>) -> Seq<(Triple, nat)> {
    gs.map_values(|g: (String, String, String, usize)| group_model(g))
}

/// `gs` lists each distinct violation of `vs` once, in ascending order of
/// its texts, with how often it occurs.
pub open spec fn tallies(gs: Seq<(Triple, nat)>, vs: Seq<TapeViolation>) -> bool {
    &&& forall|a: int, b: int| 0 <= a < b < gs.len() ==> triple_lt_spec((#[trigger] gs[a]).0, (#[trigger] gs[b]).0)
    &&& forall|k: int| 0 <= k < gs.len() ==> (#[trigger] gs[k]).1 == occurrences(vs, gs[k].0) && gs[k].1 >= 1
    &&& forall|i: int| 0 <= i < vs.len() ==> exists|k: int| 0 <= k < gs.len() && (#[trigger] gs[k]).0 == violation_model(#[trigger] vs[i])
}

/// The tally of the violations of a tape.
pub open spec fn tape_tally(vs: Seq<TapeViolation>) -> Seq<(Triple, nat)> {
    choose|gs: Seq<(Triple, nat)>| tallies(gs, vs)
}

/// Whether some entry of `gs` has the texts `t`.
pub open spec fn has_key(gs: Seq<(Triple, nat)>, t: Triple) -> bool {
    exists|k: int| 0 <= k < gs.len() && (#[trigger] gs[k]).0 == t
}

proof fn lemma_sorted_keys_determined(a: Seq<(Triple, nat)>, b: Seq<(Triple, nat)>)
    requires
        forall|x: int, y: int| 0 <= x < y < a.len() ==> triple_lt_spec((#[trigger] a[x]).0, (#[trigger] a[y]).0),
        forall|x: int, y: int| 0 <= x < y < b.len() ==> triple_lt_spec((#[trigger] b[x]).0, (#[trigger] b[y]).0),
        forall|t: Triple| has_key(a, t) <==> has_key(b, t),
    ensures
        a.len() == b.len(),
        forall|k: int| 0 <= k < a.len() ==> (#[trigger] a[k]).0 == b[k].0,
    decreases a.len(),
{
    if a.len() == 0 {
        if b.len() > 0 {
            assert(has_key(b, b[0].0));
        }
    } else {
        assert(has_key(a, a[0].0));
        let j = choose|j: int| 0 <= j < b.len() && (#[trigger] b[j]).0 == a[0].0;
        assert(has_key(b, b[0].0));
        let k = choose|k: int| 0 <= k < a.len() && (#[trigger] a[k]).0 == b[0].0;
        if j > 0 {
            assert(triple_lt_spec(b[0].0, b[j].0));
            if k > 0 {
                assert(triple_lt_spec(a[0].0, a[k].0));
                lemma_triple_lt_transitive(a[0].0, a[k].0, a[0].0);
            }
            lemma_triple_lt_irreflexive(a[0].0);
        }
        let a1 = a.drop_first();
        let b1 = b.drop_first();
        assert forall|t: Triple| has_key(a1, t) <==> has_key(b1, t) by {
            if has_key(a1, t) {
                let i = choose|i: int| 0 <= i < a1.len() && (#[trigger] a1[i]).0 == t;
                assert(a[i + 1].0 == t);
                assert(triple_lt_spec(a[0].0, a[i + 1].0));
                lemma_triple_lt_irreflexive(t);
                assert(has_key(a, t));
                let m = choose|m: int| 0 <= m < b.len() && (#[trigger] b[m]).0 == t;
                assert(m != 0);
                assert(b1[m - 1].0 == t);
            }
            if has_key(b1, t) {
                let i = choose|i: int| 0 <= i < b1.len() && (#[trigger] b1[i]).0 == t;
                assert(b[i + 1].0 == t);
                assert(triple_lt_spec(b[0].0, b[i + 1].0));
                lemma_triple_lt_irreflexive(t);
                assert(has_key(b, t));
                let m = choose|m: int| 0 <= m < a.len() && (#[trigger] a[m]).0 == t;
                assert(m != 0);
                assert(a1[m - 1].0 == t);
            }
        }
        assert forall|x: int, y: int| 0 <= x < y < a1.len() implies triple_lt_spec((#[trigger] a1[x]).0, (#[trigger] a1[y]).0) by {
            assert(a1[x] == a[x + 1] && a1[y] == a[y + 1]);
        }
        assert forall|x: int, y: int| 0 <= x < y < b1.len() implies triple_lt_spec((#[trigger] b1[x]).0, (#[trigger] b1[y]).0) by {
            assert(b1[x] == b[x + 1] && b1[y] == b[y + 1]);
        }
        lemma_sorted_keys_determined(a1, b1);
        assert forall|i: int| 0 <= i < a.len() implies (#[trigger] a[i]).0 == b[i].0 by {
            if i > 0 {
                assert(a[i] == a1[i - 1] && b[i] == b1[i - 1]);
            }
        }
    }
}

/// A tape has one tally.
proof fn lemma_tallies_determined(a: Seq<(Triple, nat)>, b: Seq<(Triple, nat)>, vs: Seq<TapeViolation>)
    requires
        tallies(a, vs),
        tallies(b, vs),
    ensures
        a == b,
{
    assert forall|t: Triple| has_key(a, t) implies has_key(b, t) by {
        let k = choose|k: int| 0 <= k < a.len() && (#[trigger] a[k]).0 == t;
        lemma_occurrences_found(vs, t);
        let i = choose|i: int| 0 <= i < vs.len() && violation_model(vs[i]) == t;
        let m = choose|m: int| 0 <= m < b.len() && (#[trigger] b[m]).0 == violation_model(#[trigger] vs[i]);
        assert(b[m].0 == t);
    }
    assert forall|t: Triple| has_key(b, t) implies has_key(a, t) by {
        let k = choose|k: int| 0 <= k < b.len() && (#[trigger] b[k]).0 == t;
        lemma_occurrences_found(vs, t);
        let i = choose|i: int| 0 <= i < vs.len() && violation_model(vs[i]) == t;
        let m = choose|m: int| 0 <= m < a.len() && (#[trigger] a[m]).0 == violation_model(#[trigger] vs[i]);
        assert(a[m].0 == t);
    }
    lemma_sorted_keys_determined(a, b);
    assert forall|k: int| 0 <= k < a.len() implies #[trigger] a[k] == b[k] by {
        assert(a[k].0 == b[k].0);
    }
    assert(a =~= b);
}

proof fn lemma_triple_lt_irreflexive(a: Triple)
    ensures
        !triple_lt_spec(a, a),
{
    lemma_lt_irreflexive(a.0);
    lemma_lt_irreflexive(a.1);
    lemma_lt_irreflexive(a.2);
}

proof fn lemma_triple_lt_transitive(a: Triple, b: Triple, c: Triple)
    requires
        triple_lt_spec(a, b),
        triple_lt_spec(b, c),
    ensures
        triple_lt_spec(a, c),
{
    if seq_lt(a.0, b.0) && seq_lt(b.0, c.0) {
        lemma_lt_transitive(a.0, b.0, c.0);
    } else if a.0 == b.0 && b.0 == c.0 {
        if seq_lt(a.1, b.1) && seq_lt(b.1, c.1) {
            lemma_lt_transitive(a.1, b.1, c.1);
        } else if a.1 == b.1 && b.1 == c.1 {
            lemma_lt_transitive(a.2, b.2, c.2);
        }
    }
}

proof fn lemma_triple_lt_total(a: Triple, b: Triple)
    requires
        a != b,
    ensures
        triple_lt_spec(a, b) || triple_lt_spec(b, a),
{
    if a.0 != b.0 {
        lemma_lt_total(a.0, b.0);
    } else if a.1 != b.1 {
        lemma_lt_total(a.1, b.1);
    } else {
        assert(a.2 != b.2);
        lemma_lt_total(a.2, b.2);
    }
}

proof fn lemma_occurrences_found(vs: Seq<TapeViolation>, t: Triple)
    requires
        occurrences(vs, t) > 0,
    ensures
        exists|i: int| 0 <= i < vs.len() && violation_model(vs[i]) == t,
    decreases vs.len(),
{
    if violation_model(vs.last()) != t {
        lemma_occurrences_found(vs.drop_last(), t);
        let i = choose|i: int| 0 <= i < vs.drop_last().len() && violation_model(vs.drop_last()[i]) == t;
        assert(vs[i] == vs.drop_last()[i]);
    } else {
        assert(violation_model(vs[vs.len() - 1]) == t);
    }
}

proof fn lemma_occurrences_bound(vs: Seq<TapeViolation>, t: Triple)
    ensures
        occurrences(vs, t) <= vs.len(),
    decreases vs.len(),
{
    if vs.len() > 0 {
        lemma_occurrences_bound(vs.drop_last(), t);
    }
}

fn triple_lt(a: &(String, String, String, usize), b: &TapeViolation) -> (r: bool)
    ensures
        r == triple_lt_spec(group_key(*a), violation_model(*b)),
{
    if str_lt(a.0.as_str(), b.path.as_str()) {
        return true;
    }
    if !str_eq(a.0.as_str(), b.path.as_str()) {
        return false;
    }
    if str_lt(a.1.as_str(), b.expected.as_str()) {
        return true;
    }
    if !str_eq(a.1.as_str(), b.expected.as_str()) {
        return false;
    }
    str_lt(a.2.as_str(), b.actual.as_str())
}

fn triple_eq(a: &(String, String, String, usize), b: &TapeViolation) -> (r: bool)
    ensures
        r == (group_key(*a) == violation_model(*b)),
{
    str_eq(a.0.as_str(), b.path.as_str()) && str_eq(a.1.as_str(), b.expected.as_str()) && str_eq(
        a.2.as_str(),
        b.actual.as_str(),
    )
}

/// The distinct violations in `(path, expected, actual)` order, each with
/// how often it occurred.
pub fn group_violations(violations: &Vec<TapeViolation>) -> (out: Vec<(String, String, String, usize)>)
    ensures
        out@.len() <= violations@.len(),
        groups_ascending(out@),
        groups_count(out@, violations@),
        group_models(out@) == tape_tally(violations@),
{
    let mut groups: Vec<(String, String, String, usize)> = Vec::new();
    let mut i: usize = 0;
    while i < violations.len()
        invariant
            i <= violations.len(),
            groups@.len() <= i,
            groups_ascending(groups@),
            groups_count(groups@, violations@.take(i as int)),
        decreases violations.len() - i,
    {
        let v = &violations[i];
        let ghost t = violation_model(*v);
        let ghost prefix = violations@.take(i as int);
        let ghost next = violations@.take(i + 1);
        proof {
            assert(next.drop_last() =~= prefix);
            assert(next.last() == *v);
        }
        let mut at: usize = 0;
        while at < groups.len() && triple_lt(&groups[at], v)
            invariant
                at <= groups.len(),
                t == violation_model(*v),
                forall|k: int| 0 <= k < at ==> triple_lt_spec(group_key(#[trigger] groups@[k]), t),
            decreases groups.len() - at,
        {
            at += 1;
        }
        let ghost before = groups@;
        proof {
            // No group before `at` has the texts of `v`, nor any after it.
            assert forall|k: int| 0 <= k < before.len() && k != at implies group_key(#[trigger] before[k]) != t by {
                if k < at {
                    lemma_triple_lt_irreflexive(t);
                } else {
                    assert(at < before.len());
                    assert(!triple_lt_spec(group_key(before[at as int]), t));
                    assert(triple_lt_spec(group_key(before[at as int]), group_key(before[k])));
                    if group_key(before[k]) == t {
                        if group_key(before[at as int]) != t {
                            lemma_triple_lt_total(group_key(before[at as int]), t);
                            lemma_triple_lt_transitive(t, group_key(before[at as int]), group_key(before[k]));
                        }
                        lemma_triple_lt_irreflexive(t);
                    }
                }
            }
        }
        if at < groups.len() && triple_eq(&groups[at], v) {
            let (p, e, a, count) = groups.remove(at);
            proof {
                assert(group_key(before[at as int]) == t);
                assert(count as nat == occurrences(prefix, t));
                assert(occurrences(next, t) == occurrences(prefix, t) + 1);
                lemma_occurrences_bound(prefix, t);
                assert(count < i + 1);
            }
            groups.insert(at, (p, e, a, count + 1));
            proof {
                assert(groups@.len() == before.len());
                assert forall|k: int| 0 <= k < groups@.len() implies group_key(#[trigger] groups@[k]) == group_key(before[k]) by {
                    if k != at as int {
                        assert(groups@[k] == before[k]);
                    }
                }
                assert forall|x: int, y: int| 0 <= x < y < groups@.len() implies triple_lt_spec(
                    group_key(#[trigger] groups@[x]),
                    group_key(#[trigger] groups@[y]),
                ) by {
                    assert(group_key(groups@[x]) == group_key(before[x]));
                    assert(group_key(groups@[y]) == group_key(before[y]));
                }
                assert forall|k: int| 0 <= k < groups@.len() implies (#[trigger] groups@[k]).3 == occurrences(next, group_key(groups@[k])) by {
                    assert(group_key(groups@[k]) == group_key(before[k]));
                    if k != at as int {
                        assert(groups@[k] == before[k]);
                    }
                }
                assert forall|j: int| 0 <= j < next.len() implies exists|k: int| 0 <= k < groups@.len() && group_key(#[trigger] groups@[k]) == violation_model(#[trigger] next[j]) by {
                    if j < i {
                        assert(next[j] == prefix[j]);
                        let k = choose|k: int| 0 <= k < before.len() && group_key(#[trigger] before[k]) == violation_model(#[trigger] prefix[j]);
                        assert(group_key(groups@[k]) == group_key(before[k]));
                    } else {
                        assert(group_key(groups@[at as int]) == violation_model(next[j]));
                    }
                }
            }
        } else {
            let entry = (v.path.clone(), v.expected.clone(), v.actual.clone(), 1);
            proof {
                assert(group_key(entry) == t);
                if occurrences(prefix, t) > 0 {
                    lemma_occurrences_found(prefix, t);
                    let j = choose|j: int| 0 <= j < prefix.len() && violation_model(prefix[j]) == t;
                    let k = choose|k: int| 0 <= k < before.len() && group_key(#[trigger] before[k]) == violation_model(#[trigger] prefix[j]);
                    if k == at {
                        assert(group_key(before[at as int]) == t);
                    }
                }
                assert(occurrences(prefix, t) == 0);
                assert(occurrences(next, t) == 1);
            }
            groups.insert(at, entry);
            proof {
                assert forall|k: int| 0 <= k < groups@.len() implies group_key(#[trigger] groups@[k]) == (if k < at {
                    group_key(before[k])
                } else if k == at {
                    t
                } else {
                    group_key(before[k - 1])
                }) by {
                    if k < at as int {
                        assert(groups@[k] == before[k]);
                    } else if k > at as int {
                        assert(groups@[k] == before[k - 1]);
                    }
                }
                assert forall|x: int, y: int| 0 <= x < y < groups@.len() implies triple_lt_spec(
                    group_key(#[trigger] groups@[x]),
                    group_key(#[trigger] groups@[y]),
                ) by {
                    if y == at as int {
                        assert(triple_lt_spec(group_key(before[x]), t));
                    } else if x == at as int {
                        let b = group_key(before[y - 1]);
                        assert(!triple_lt_spec(group_key(before[at as int]), t));
                        assert(group_key(before[at as int]) != t);
                        lemma_triple_lt_total(group_key(before[at as int]), t);
                        if y - 1 > at as int {
                            lemma_triple_lt_transitive(t, group_key(before[at as int]), b);
                        }
                    } else if x < at as int && y > at as int {
                        assert(triple_lt_spec(group_key(before[x]), group_key(before[y - 1])));
                    } else if y < at as int {
                        assert(triple_lt_spec(group_key(before[x]), group_key(before[y])));
                    } else {
                        assert(triple_lt_spec(group_key(before[x - 1]), group_key(before[y - 1])));
                    }
                }
                assert forall|k: int| 0 <= k < groups@.len() implies (#[trigger] groups@[k]).3 == occurrences(next, group_key(groups@[k])) by {
                    if k < at as int {
                        assert(groups@[k] == before[k]);
                        assert(group_key(before[k]) != t);
                    } else if k > at as int {
                        assert(groups@[k] == before[k - 1]);
                        assert(group_key(before[k - 1]) != t);
                    }
                }
                assert forall|j: int| 0 <= j < next.len() implies exists|k: int| 0 <= k < groups@.len() && group_key(#[trigger] groups@[k]) == violation_model(#[trigger] next[j]) by {
                    if j < i {
                        assert(next[j] == prefix[j]);
                        let k = choose|k: int| 0 <= k < before.len() && group_key(#[trigger] before[k]) == violation_model(#[trigger] prefix[j]);
                        if k < at as int {
                            assert(group_key(groups@[k]) == group_key(before[k]));
                        } else {
                            assert(group_key(groups@[k + 1]) == group_key(before[k]));
                        }
                    } else {
                        assert(group_key(groups@[at as int]) == violation_model(next[j]));
                    }
                }
            }
        }
        i += 1;
    }
    proof {
        assert(violations@.take(violations.len() as int) =~= violations@);
        let gm = group_models(groups@);
        assert forall|a: int, b: int| 0 <= a < b < gm.len() implies triple_lt_spec((#[trigger] gm[a]).0, (#[trigger] gm[b]).0) by {
            assert(triple_lt_spec(group_key(groups@[a]), group_key(groups@[b])));
        }
        assert forall|k: int| 0 <= k < gm.len() implies (#[trigger] gm[k]).1 == occurrences(violations@, gm[k].0) && gm[k].1 >= 1 by {
            assert(groups@[k].3 == occurrences(violations@, group_key(groups@[k])));
        }
        assert forall|i: int| 0 <= i < violations@.len() implies exists|k: int| 0 <= k < gm.len() && (#[trigger] gm[k]).0 == violation_model(#[trigger] violations@[i]) by {
            let k = choose|k: int| 0 <= k < groups@.len() && group_key(#[trigger] groups@[k]) == violation_model(#[trigger] violations@[i]);
            assert(gm[k].0 == group_key(groups@[k]));
        }
        assert(tallies(gm, violations@));
        lemma_tallies_determined(tape_tally(violations@), gm, violations@);
    }
    groups
}

/// Whether `item` declares the extern `name`.
pub open spec fn declares_extern(item: Item, name: Seq<char>) -> bool {
    item matches Item::Extern(d) && d.name.node@ == name
}

/// The first extern of `items` declared under `name`.
pub open spec fn first_extern(items: Seq<Item>, name: Seq<char>) -> Option<crate::ast::ExternDecl> {
    if exists|i: int| 0 <= i < items.len() && declares_extern(#[trigger] items[i], name) {
        let i = choose|i: int|
            0 <= i < items.len() && declares_extern(items[i], name) && forall|j: int| 0 <= j < i ==> !declares_extern(#[trigger] items[j], name);
        Some(items[i]->Extern_0)
    } else {
        None
    }
}

/// How many tally entries have the path `path`.
pub open spec fn path_count(gs: Seq<(Triple, nat)>, path: Seq<char>) -> nat
    decreases gs.len(),
{
    if gs.len() == 0 {
        0
    } else {
        path_count(gs.drop_last(), path) + if gs.last().0.0 == path { 1nat } else { 0nat }
    }
}

/// A suggestion as plain values: its message and its fix.
pub open spec fn suggestion_view(s: Suggestion) -> (Seq<char>, Option<(Span, Seq<char>)>) {
    (
        s.message@,
        match s.fix {
            Some(f) => Some((f.0, f.1@)),
            None => None,
        },
    )
}

/// What the tally entry `g` of `gs` suggests for `file`: an extern return
/// violated with one class, not `nil`, repins the declared return; other
/// extern returns, fn arguments and the rest get a message only.
pub open spec fn suggestion_spec(file: SourceFile, gs: Seq<(Triple, nat)>, g: int) -> (Seq<char>, Option<(Span, Seq<char>)>) {
    let path = gs[g].0.0;
    let expected = gs[g].0.1;
    let actual = gs[g].0.2;
    let count = decimal_digits(gs[g].1);
    match extern_return_spec(path) {
        Some(name) => match first_extern(file.items@, name) {
            Some(d) => if path_count(gs, path) == 1 && actual != "nil"@ {
                (
                    "extern `"@ + name + "` declares return `"@ + expected + "` but runtime returned `"@ + actual + "` ("@ + count
                        + "x); fix the pin to `"@ + source_alias_spec(actual) + "`"@,
                    Some((d.return_ty.span, source_alias_spec(actual))),
                )
            } else {
                ("extern `"@ + name + "` return violated with multiple runtime classes; observe more calls before repinning"@, None)
            },
            None => ("runtime reported a violation for extern `"@ + name + "` which is not declared in this file"@, None),
        },
        None => match fn_argument_spec(path) {
            Some((function, argument)) => (
                "callers pass `"@ + actual + "` where `"@ + function + "` argument `"@ + argument + "` declares `"@ + expected
                    + "` ("@ + count + "x); either the caller is wrong or the parameter type should widen"@,
                None,
            ),
            None => ("contract at `"@ + path + "` expected `"@ + expected + "` but saw `"@ + actual + "` ("@ + count + "x)"@, None),
        },
    }
}

/// The first `extern` of the file declared under `name`.
fn find_extern<'b>(file: &'b SourceFile, name: &str) -> (out: Option<&'b crate::ast::ExternDecl>)
    ensures
        match out {
            Some(d) => first_extern(file.items@, name@) == Some(*d),
            None => first_extern(file.items@, name@) is None,
        },
{
    let mut i: usize = 0;
    while i < file.items.len()
        invariant
            i <= file.items.len(),
            forall|j: int| 0 <= j < i ==> !declares_extern(#[trigger] file.items@[j], name@),
        decreases file.items.len() - i,
    {
        if let Item::Extern(declaration) = &file.items[i] {
            if str_eq(declaration.name.node.as_str(), name) {
                proof {
                    assert(declares_extern(file.items@[i as int], name@));
                }
                return Some(declaration);
            }
        }
        i += 1;
    }
    None
}

/// One suggestion per distinct violation, in `(path, expected, actual)`
/// order. An extern return violated with one consistent non-nil class gets
/// a mechanical fix of the declared return type.
pub fn analyze_tape(source: &str, file: &SourceFile, violations: &Vec<TapeViolation>) -> (out: Vec<Suggestion>)
    ensures
        out@.len() == tape_tally(violations@).len(),
        forall|g: int| 0 <= g < out@.len() ==> suggestion_view(#[trigger] out@[g]) == suggestion_spec(*file, tape_tally(violations@), g),
{
    let grouped = group_violations(violations);
    let ghost gs = group_models(grouped@);
    let mut suggestions: Vec<Suggestion> = Vec::new();
    let mut g: usize = 0;
    while g < grouped.len()
        invariant
            g <= grouped.len(),
            gs == group_models(grouped@),
            gs == tape_tally(violations@),
            suggestions@.len() == g,
            forall|j: int| 0 <= j < g ==> suggestion_view(#[trigger] suggestions@[j]) == suggestion_spec(*file, gs, j),
        decreases grouped.len() - g,
    {
        let path = grouped[g].0.as_str();
        let expected = grouped[g].1.as_str();
        let actual = grouped[g].2.as_str();
        let count = usize_to_string(grouped[g].3);
        proof {
            assert(gs[g as int] == group_model(grouped@[g as int]));
        }
        let suggestion = match extern_return_name(path) {
            Some(name) => {
                let mut same_path: usize = 0;
                let mut k: usize = 0;
                proof {
                    assert(gs.take(0) =~= Seq::<(Triple, nat)>::empty());
                }
                while k < grouped.len()
                    invariant
                        k <= grouped.len(),
                        gs == group_models(grouped@),
                        path@ == grouped@[g as int].0@,
                        same_path <= k,
                        same_path == path_count(gs.take(k as int), path@),
                    decreases grouped.len() - k,
                {
                    proof {
                        assert(gs.take(k + 1).drop_last() =~= gs.take(k as int));
                        assert(gs.take(k + 1).last() == group_model(grouped@[k as int]));
                    }
                    if str_eq(grouped[k].0.as_str(), path) {
                        same_path += 1;
                    }
                    k += 1;
                }
                proof {
                    assert(gs.take(grouped.len() as int) =~= gs);
                }
                let consistent = same_path == 1 && !str_eq(actual, "nil");
                match find_extern(file, name.as_str()) {
                    Some(declaration) => {
                        if consistent {
                            let replacement = source_alias(actual);
                            let mut message = owned("extern `");
                            message.push_str(name.as_str());
                            message.push_str("` declares return `");
                            message.push_str(expected);
                            message.push_str("` but runtime returned `");
                            message.push_str(actual);
                            message.push_str("` (");
                            message.push_str(count.as_str());
                            message.push_str("x); fix the pin to `");
                            message.push_str(replacement.as_str());
                            message.push_str("`");
                            Suggestion { message, fix: Some((declaration.return_ty.span, replacement)) }
                        } else {
                            let mut message = owned("extern `");
                            message.push_str(name.as_str());
                            message.push_str("` return violated with multiple runtime classes; observe more calls before repinning");
                            Suggestion { message, fix: None }
                        }
                    }
                    None => {
                        let mut message = owned("runtime reported a violation for extern `");
                        message.push_str(name.as_str());
                        message.push_str("` which is not declared in this file");
                        Suggestion { message, fix: None }
                    }
                }
            }
            None => match fn_argument_target(path) {
                Some((function, argument)) => {
                    let mut message = owned("callers pass `");
                    message.push_str(actual);
                    message.push_str("` where `");
                    message.push_str(function.as_str());
                    message.push_str("` argument `");
                    message.push_str(argument.as_str());
                    message.push_str("` declares `");
                    message.push_str(expected);
                    message.push_str("` (");
                    message.push_str(count.as_str());
                    message.push_str("x); either the caller is wrong or the parameter type should widen");
                    Suggestion { message, fix: None }
                }
                None => {
                    let mut message = owned("contract at `");
                    message.push_str(path);
                    message.push_str("` expected `");
                    message.push_str(expected);
                    message.push_str("` but saw `");
                    message.push_str(actual);
                    message.push_str("` (");
                    message.push_str(count.as_str());
                    message.push_str("x)");
                    Suggestion { message, fix: None }
                }
            },
        };
        proof {
            assert(suggestion_view(suggestion) =~~= suggestion_spec(*file, gs, g as int));
        }
        suggestions.push(suggestion);
        g += 1;
    }
    suggestions
}

/// `s` with the bytes `[start, end)` replaced by `replacement`.
pub open spec fn replaced(s: Seq<char>, start: int, end: int, replacement: Seq<char>) -> Seq<char> {
    byte_slice(s, 0, start) + replacement + byte_slice(s, end, byte_len(s) as int)
}

fn replace_range(s: &str, start: usize, end: usize, replacement: &str) -> (out: String)
    ensures
        out@ == replaced(s@, start as int, end as int, replacement@),
{
    byte_len_fits(s);
    let before = Span::new(0, start).slice(s);
    let after = Span::new(end, byte_len_usize(s)).slice(s);
    let mut out = before;
    out.push_str(replacement);
    out.push_str(after.as_str());
    out
}

/// The number of bytes of `s`.
fn byte_len_usize(s: &str) -> (n: usize)
    ensures
        n == byte_len(s@),
{
    proof {
        lemma_encode_len(s@);
    }
    s.as_bytes().len()
}

/// The fixes the suggestions carry, in order, with their texts as views.
pub open spec fn fix_list(suggestions: Seq<Suggestion>) -> Seq<(Span, Seq<char>)>
    decreases suggestions.len(),
{
    if suggestions.len() == 0 {
        Seq::empty()
    } else {
        let rest = fix_list(suggestions.drop_last());
        match suggestions.last().fix {
            Some(f) => rest.push((f.0, f.1@)),
            None => rest,
        }
    }
}

/// How many leading fixes of `fs` start at or after `start`.
pub open spec fn leading_at_or_after(fs: Seq<(Span, Seq<char>)>, start: usize) -> nat
    decreases fs.len(),
{
    if fs.len() > 0 && fs[0].0.start >= start {
        1 + leading_at_or_after(fs.drop_first(), start)
    } else {
        0
    }
}

/// The fixes ordered by descending start, fixes with equal starts kept in
/// the order given.
pub open spec fn by_descending_start(fs: Seq<(Span, Seq<char>)>) -> Seq<(Span, Seq<char>)>
    decreases fs.len(),
{
    if fs.len() == 0 {
        Seq::empty()
    } else {
        let sorted = by_descending_start(fs.drop_last());
        sorted.insert(leading_at_or_after(sorted, fs.last().0.start) as int, fs.last())
    }
}

/// The fixes without those whose span repeats the one just kept.
pub open spec fn without_repeated_spans(fs: Seq<(Span, Seq<char>)>) -> Seq<(Span, Seq<char>)>
    decreases fs.len(),
{
    if fs.len() == 0 {
        Seq::empty()
    } else {
        let kept = without_repeated_spans(fs.drop_last());
        if kept.len() > 0 && kept.last().0 == fs.last().0 {
            kept
        } else {
            kept.push(fs.last())
        }
    }
}

/// The text after applying `fs` in order, each only where its span ends
/// within the text as it then stands, and how many applied.
pub open spec fn applied_in_order(text: Seq<char>, fs: Seq<(Span, Seq<char>)>) -> (Seq<char>, nat)
    decreases fs.len(),
{
    if fs.len() == 0 {
        (text, 0)
    } else {
        let (t, n) = applied_in_order(text, fs.drop_last());
        let f = fs.last();
        if f.0.end <= byte_len(t) {
            (replaced(t, f.0.start as int, f.0.end as int, f.1), n + 1)
        } else {
            (t, n)
        }
    }
}

proof fn lemma_leading_count(fs: Seq<(Span, Seq<char>)>, start: usize, at: int)
    requires
        0 <= at <= fs.len(),
        forall|j: int| 0 <= j < at ==> (#[trigger] fs[j]).0.start >= start,
        at == fs.len() || fs[at].0.start < start,
    ensures
        leading_at_or_after(fs, start) == at,
    decreases at,
{
    if at > 0 {
        lemma_leading_count(fs.drop_first(), start, at - 1);
    }
}

/// A single fix is applied as it stands.
proof fn lemma_single_fix_plan(fl: Seq<(Span, Seq<char>)>)
    ensures
        fl.len() == 1 ==> without_repeated_spans(by_descending_start(fl)) == fl,
{
    if fl.len() == 1 {
        let none = Seq::<(Span, Seq<char>)>::empty();
        assert(fl.drop_last() =~= none);
        assert(by_descending_start(none) == none);
        assert(leading_at_or_after(none, fl.last().0.start) == 0);
        assert(none.insert(0, fl.last()) =~= seq![fl[0]]);
        assert(by_descending_start(fl) =~= seq![fl[0]]);
        assert(seq![fl[0]].drop_last() =~= Seq::<(Span, Seq<char>)>::empty());
        assert(without_repeated_spans(Seq::<(Span, Seq<char>)>::empty()).len() == 0);
        assert(seq![fl[0]].last() == fl[0]);
        assert(without_repeated_spans(seq![fl[0]]) == Seq::<(Span, Seq<char>)>::empty().push(fl[0]));
        assert(Seq::<(Span, Seq<char>)>::empty().push(fl[0]) =~= fl);
    }
}

/// Apply mechanical fixes from the last span to the first, each span
/// once; returns the updated source and how many applied. A fix whose span
/// ends past the text is skipped.
#[verifier::rlimit(80)]
pub fn apply_fixes(source: &str, suggestions: &Vec<Suggestion>) -> (out: (String, usize))
    ensures
        (out.0@, out.1 as nat) == applied_in_order(source@, without_repeated_spans(by_descending_start(fix_list(suggestions@)))),
        fix_list(suggestions@).len() == 0 ==> out.0@ == source@ && out.1 == 0,
        fix_list(suggestions@).len() == 1 && fix_list(suggestions@)[0].0.end <= byte_len(source@) ==> out.0@ == replaced(
            source@,
            fix_list(suggestions@)[0].0.start as int,
            fix_list(suggestions@)[0].0.end as int,
            fix_list(suggestions@)[0].1,
        ) && out.1 == 1,
{
    let mut sorted: Vec<(Span, String)> = Vec::new();
    let mut i: usize = 0;
    while i < suggestions.len()
        invariant
            i <= suggestions.len(),
            fix_views(sorted@) == by_descending_start(fix_list(suggestions@.take(i as int))),
        decreases suggestions.len() - i,
    {
        proof {
            assert(suggestions@.take(i + 1).drop_last() =~= suggestions@.take(i as int));
            assert(suggestions@.take(i + 1).last() == suggestions@[i as int]);
        }
        match &suggestions[i].fix {
            Some((span, replacement)) => {
                let text = replacement.clone();
                assert(text@ == replacement@);
                let entry = (*span, text);
                let mut at: usize = 0;
                while at < sorted.len() && sorted[at].0.start >= span.start
                    invariant
                        at <= sorted.len(),
                        forall|j: int| 0 <= j < at ==> (#[trigger] fix_views(sorted@)[j]).0.start >= span.start,
                    decreases sorted.len() - at,
                {
                    assert(fix_views(sorted@)[at as int].0 == sorted@[at as int].0);
                    at += 1;
                }
                let ghost before = sorted@;
                proof {
                    if at < sorted.len() {
                        assert(fix_views(sorted@)[at as int].0 == sorted@[at as int].0);
                    }
                    lemma_leading_count(fix_views(before), span.start, at as int);
                }
                sorted.insert(at, entry);
                proof {
                    assert(fix_views(sorted@) =~= fix_views(before).insert(at as int, (*span, replacement@)));
                    let fl = fix_list(suggestions@.take(i + 1));
                    assert(fl == fix_list(suggestions@.take(i as int)).push((*span, replacement@)));
                    assert(fl.drop_last() =~= fix_list(suggestions@.take(i as int)));
                    assert(by_descending_start(fl) == fix_views(before).insert(at as int, (*span, replacement@)));
                }
            }
            None => {
                proof {
                    assert(fix_list(suggestions@.take(i + 1)) == fix_list(suggestions@.take(i as int)));
                }
            },
        }
        i += 1;
    }
    assert(suggestions@.take(suggestions.len() as int) =~= suggestions@);
    let mut kept: Vec<(Span, String)> = Vec::new();
    let mut k: usize = 0;
    proof {
        assert(fix_views(sorted@).take(0) =~= Seq::<(Span, Seq<char>)>::empty());
        assert(fix_views(kept@) =~= Seq::<(Span, Seq<char>)>::empty());
    }
    while k < sorted.len()
        invariant
            k <= sorted.len(),
            fix_views(kept@) == without_repeated_spans(fix_views(sorted@).take(k as int)),
        decreases sorted.len() - k,
    {
        proof {
            assert(fix_views(sorted@).take(k + 1).drop_last() =~= fix_views(sorted@).take(k as int));
            assert(fix_views(sorted@).take(k + 1).last() == fix_views(sorted@)[k as int]);
        }
        let duplicate = kept.len() > 0 && kept[kept.len() - 1].0.start == sorted[k].0.start
            && kept[kept.len() - 1].0.end == sorted[k].0.end;
        let ghost prev = kept@;
        proof {
            if kept.len() > 0 {
                assert(fix_views(kept@).last().0 == kept@[kept.len() - 1].0);
            }
            assert(fix_views(sorted@)[k as int].0 == sorted@[k as int].0);
        }
        if !duplicate {
            let text = sorted[k].1.clone();
            assert(text@ == sorted@[k as int].1@);
            let entry = (sorted[k].0, text);
            kept.push(entry);
            proof {
                assert(fix_views(kept@) =~= fix_views(prev).push(fix_views(sorted@)[k as int]));
            }
        }
        k += 1;
    }
    assert(fix_views(sorted@).take(sorted.len() as int) =~= fix_views(sorted@));
    let mut updated = owned(source);
    let mut applied: usize = 0;
    let ghost plan = fix_views(kept@);
    proof {
        assert(plan.take(0) =~= Seq::<(Span, Seq<char>)>::empty());
    }
    let mut f: usize = 0;
    while f < kept.len()
        invariant
            f <= kept.len(),
            applied <= f,
            plan == fix_views(kept@),
            (updated@, applied as nat) == applied_in_order(source@, plan.take(f as int)),
        decreases kept.len() - f,
    {
        proof {
            assert(plan.take(f + 1).drop_last() =~= plan.take(f as int));
            assert(plan.take(f + 1).last() == plan[f as int]);
        }
        let (span, replacement) = (&kept[f].0, &kept[f].1);
        if span.end <= byte_len_usize(updated.as_str()) {
            updated = replace_range(updated.as_str(), span.start, span.end, replacement.as_str());
            applied += 1;
        }
        f += 1;
    }
    assert(plan.take(kept.len() as int) =~= plan);
    proof {
        lemma_single_fix_plan(fix_list(suggestions@));
    }
    (updated, applied)
}

/// Fixes with their texts as views.
pub open spec fn fix_views(fs: Seq<(Span, String)>) -> Seq<(Span, Seq<char>)> {
    fs.map_values(|f: (Span, String)| (f.0, f.1@))
}


} // verus!
