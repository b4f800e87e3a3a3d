//! S-expression mode for `.rama` files that emit arbitrary Clojure.
//!
//! If a `.rama` file's first non-comment token is `(`, it is parsed as a
//! sequence of Clojure/EDN forms into [`clj::Form`] and pretty-printed.

use vstd::prelude::*;
use crate::clj::{self, Document, Form, FormModel};
use crate::error::{Diagnostic, ParseError};
use crate::span::Span;
use crate::lex::{digits_value, lemma_digits_value_grows};
use crate::text::{chars_of, is_ascii_digit, is_ascii_digit_spec, is_prefix, is_white_space, is_whitespace, owned, seq_occurs_at, substring, trim_start_seq};

verus! {

/// The text after the first `\n` of `s`; empty when there is none.
pub open spec fn after_line(s: Seq<char>) -> Seq<char>
    decreases s.len(),
{
    if s.len() == 0 {
        Seq::empty()
    } else if s[0] == '\n' {
        s.drop_first()
    } else {
        after_line(s.drop_first())
    }
}

pub proof fn lemma_after_line_shorter(s: Seq<char>)
    ensures
        after_line(s).len() <= s.len(),
        s.len() > 0 ==> after_line(s).len() < s.len(),
    decreases s.len(),
{
    if s.len() > 0 && s[0] != '\n' {
        lemma_after_line_shorter(s.drop_first());
    }
}

proof fn lemma_after_line_at(s: Seq<char>, i: int)
    requires
        0 <= i < s.len(),
        s[i] == '\n',
        forall|j: int| 0 <= j < i ==> s[j] != '\n',
    ensures
        after_line(s) == s.skip(i + 1),
    decreases i,
{
    if i > 0 {
        lemma_after_line_at(s.drop_first(), i - 1);
        assert(s.drop_first().skip(i) =~= s.skip(i + 1));
    } else {
        assert(s.drop_first() =~= s.skip(1));
    }
}

proof fn lemma_after_line_none(s: Seq<char>)
    requires
        forall|j: int| 0 <= j < s.len() ==> s[j] != '\n',
    ensures
        after_line(s) == Seq::<char>::empty(),
    decreases s.len(),
{
    if s.len() > 0 {
        lemma_after_line_none(s.drop_first());
    }
}

/// Leading white space, `#!clj` markers, and `//` / `;` line comments removed.
pub open spec fn strip_trivia(s: Seq<char>) -> Seq<char>
    decreases s.len(),
{
    let rest = trim_start_seq(s);
    if rest.len() > s.len() {
        rest
    } else if is_prefix("#!clj"@, rest) {
        proof {
            reveal_strlit("#!clj");
        }
        strip_trivia(rest.skip(5))
    } else if is_prefix("//"@, rest) || is_prefix(";"@, rest) {
        proof {
            reveal_strlit("//");
            reveal_strlit(";");
            lemma_after_line_shorter(rest);
        }
        strip_trivia(after_line(rest))
    } else {
        rest
    }
}

proof fn lemma_trim_start_len(s: Seq<char>)
    ensures
        trim_start_seq(s).len() <= s.len(),
        trim_start_seq(s) == s.skip(s.len() - trim_start_seq(s).len()),
    decreases s.len(),
{
    if s.len() > 0 && is_white_space(s[0]) {
        lemma_trim_start_len(s.drop_first());
        assert(s.drop_first().skip(s.drop_first().len() - trim_start_seq(s.drop_first()).len())
            =~= s.skip(s.len() - trim_start_seq(s.drop_first()).len()));
    } else {
        assert(s.skip(0) =~= s);
    }
}

/// Whether a `#!clj` marker comes before any text but white space and
/// line comments.
pub open spec fn marked_sexp(s: Seq<char>) -> bool
    decreases s.len(),
{
    let rest = trim_start_seq(s);
    if rest.len() > s.len() {
        false
    } else if is_prefix("#!clj"@, rest) {
        true
    } else if is_prefix("//"@, rest) || is_prefix(";"@, rest) {
        proof {
            reveal_strlit("//");
            reveal_strlit(";");
            lemma_after_line_shorter(rest);
        }
        marked_sexp(after_line(rest))
    } else {
        false
    }
}

/// Whether the file is in s-expression mode: it starts, past white space
/// and line comments, with the `#!clj` marker, or its first text opens a
/// list.
pub open spec fn is_sexp_source(s: Seq<char>) -> bool {
    marked_sexp(s) || is_prefix("("@, strip_trivia(s))
}

fn first_newline(cs: &Vec<char>, from: usize) -> (r: Option<usize>)
    requires
        from <= cs.len(),
    ensures
        r matches Some(i) ==> from <= i < cs.len() && cs@[i as int] == '\n'
            && forall|j: int| from <= j < i ==> cs@[j] != '\n',
        r is None ==> forall|j: int| from <= j < cs.len() ==> cs@[j] != '\n',
{
    let mut i = from;
    while i < cs.len()
        invariant
            from <= i <= cs.len(),
            forall|j: int| from <= j < i ==> cs@[j] != '\n',
        decreases cs.len() - i,
    {
        if cs[i] == '\n' {
            return Some(i);
        }
        i += 1;
    }
    None
}

/// Index where the trivia-stripped text of `cs[from..]` begins.
/// Whether the `#!clj` marker comes before any text but white space and
/// line comments, from `from` on.
fn starts_marked(cs: &Vec<char>, from: usize) -> (r: bool)
    requires
        from <= cs.len(),
    ensures
        r == marked_sexp(cs@.skip(from as int)),
    decreases cs.len() - from,
{
    let p = crate::text::skip_white_space(cs.as_slice(), from);
    let ghost rest = cs@.skip(p as int);
    proof {
        lemma_trim_start_len(cs@.skip(from as int));
    }
    if at(cs, p, "#!clj") {
        return true;
    }
    proof {
        reveal_strlit("#!clj");
    }
    if at(cs, p, "//") || at(cs, p, ";") {
        proof {
            reveal_strlit("//");
            reveal_strlit(";");
        }
        match first_newline(cs, p) {
            Some(i) => {
                proof {
                    assert forall|j: int| 0 <= j < i - p implies rest[j] != '\n' by {
                        assert(rest[j] == cs@[p + j]);
                    }
                    lemma_after_line_at(rest, i - p);
                    assert(rest.skip(i - p + 1) =~= cs@.skip(i + 1));
                }
                return starts_marked(cs, i + 1);
            }
            None => {
                proof {
                    assert forall|k: int| 0 <= k < rest.len() implies rest[k] != '\n' by {
                        assert(rest[k] == cs@[p + k]);
                    }
                    lemma_after_line_none(rest);
                    reveal_strlit("#!clj");
                    let e = Seq::<char>::empty();
                    assert(trim_start_seq(e) == e);
                    assert(marked_sexp(e) == false);
                }
                return false;
            }
        }
    }
    proof {
        reveal_strlit("//");
        reveal_strlit(";");
    }
    false
}

fn strip_leading_trivia(cs: &Vec<char>, from: usize) -> (r: usize)
    requires
        from <= cs.len(),
    ensures
        from <= r <= cs.len(),
        strip_trivia(cs@.skip(from as int)) == cs@.skip(r as int),
    decreases cs.len() - from,
{
    let p = crate::text::skip_white_space(cs.as_slice(), from);
    let ghost rest = cs@.skip(p as int);
    proof {
        lemma_trim_start_len(cs@.skip(from as int));
    }
    if at(cs, p, "#!clj") {
        proof {
            reveal_strlit("#!clj");
            assert(rest.skip(5) =~= cs@.skip(p + 5));
        }
        if p + 5 <= cs.len() {
            let r = strip_leading_trivia(cs, p + 5);
            return r;
        }
    }
    proof {
        reveal_strlit("#!clj");
    }
    if at(cs, p, "//") || at(cs, p, ";") {
        proof {
            reveal_strlit("//");
            reveal_strlit(";");
        }
        match first_newline(cs, p) {
            Some(i) => {
                proof {
                    assert forall|j: int| 0 <= j < i - p implies rest[j] != '\n' by {
                        assert(rest[j] == cs@[p + j]);
                    }
                    lemma_after_line_at(rest, i - p);
                    assert(rest.skip(i - p + 1) =~= cs@.skip(i + 1));
                }
                return strip_leading_trivia(cs, i + 1);
            }
            None => {
                proof {
                    assert forall|k: int| 0 <= k < rest.len() implies rest[k] != '\n' by {
                        assert(rest[k] == cs@[p + k]);
                    }
                    lemma_after_line_none(rest);
                    reveal_strlit("#!clj");
                    reveal_strlit("//");
                    reveal_strlit(";");
                    let e = Seq::<char>::empty();
                    assert(trim_start_seq(e) == e);
                    assert(strip_trivia(e) == e);
                }
                assert(cs@.skip(cs.len() as int) =~= Seq::<char>::empty());
                return cs.len();
            }
        }
    }
    proof {
        reveal_strlit("//");
        reveal_strlit(";");
    }
    p
}

fn at(cs: &Vec<char>, i: usize, text: &str) -> (r: bool)
    requires
        i <= cs.len(),
    ensures
        r == is_prefix(text@, cs@.skip(i as int)),
        r ==> i + text@.len() <= cs@.len(),
{
    let p = chars_of(text);
    let r = seq_occurs_at(cs.as_slice(), p.as_slice(), i);
    proof {
        if r {
            assert(cs@.skip(i as int).take(text@.len() as int) =~= cs@.subrange(i as int, i + text@.len()));
        }
        if is_prefix(text@, cs@.skip(i as int)) {
            assert(cs@.skip(i as int).take(text@.len() as int) =~= cs@.subrange(i as int, i + text@.len()));
        }
    }
    r
}

/// Whether a `.rama` file is s-expression mode: its first non-trivia text
/// opens a list or is the `#!clj` marker.
pub fn looks_like_sexp(src: &str) -> (r: bool)
    ensures
        r == is_sexp_source(src@),
{
    let cs = chars_of(src);
    assert(cs@.skip(0) =~= cs@);
    if starts_marked(&cs, 0) {
        return true;
    }
    let p = strip_leading_trivia(&cs, 0);
    at(&cs, p, "(")
}

/// Where white space and comments (`//` or `;` up to the newline) end,
/// from `p` on; `in_comment` says a comment is open at `p`.
pub open spec fn skip_spec(cs: Seq<char>, p: int, in_comment: bool) -> int
    decreases cs.len() - p,
{
    if p < 0 || p >= cs.len() {
        if in_comment { cs.len() as int } else { p }
    } else if in_comment {
        skip_spec(cs, p + 1, cs[p] != '\n')
    } else if is_prefix("//"@, cs.skip(p)) || is_prefix(";"@, cs.skip(p)) {
        skip_spec(cs, p + 1, true)
    } else if is_white_space(cs[p]) {
        skip_spec(cs, p + 1, false)
    } else {
        p
    }
}

/// Where the bare token starting at `p` ends.
pub open spec fn tok_end(cs: Seq<char>, p: int) -> int
    decreases cs.len() - p,
{
    if p < 0 || p >= cs.len() || ends_token(cs, p) {
        p
    } else {
        tok_end(cs, p + 1)
    }
}

/// The form a bare token reads as: a number, `nil`, a boolean or a symbol.
pub open spec fn atom_model(ch: char, tok: Seq<char>) -> FormModel {
    if ch == '-' || is_ascii_digit_spec(ch) {
        if tok == "-"@ || tok == "+"@ {
            FormModel::Symbol(tok)
        } else {
            match i64_text(tok) {
                Some(n) => FormModel::Int(n),
                None => FormModel::Symbol(tok),
            }
        }
    } else if tok == "nil"@ {
        FormModel::Nil
    } else if tok == "true"@ {
        FormModel::Bool(true)
    } else if tok == "false"@ {
        FormModel::Bool(false)
    } else {
        FormModel::Symbol(tok)
    }
}

/// The contents of a string literal from `p` (just past its opening
/// quote) to its closing quote, with escapes resolved; the position after
/// it; and whether an error is reported (an unterminated string or escape).
pub open spec fn read_string(cs: Seq<char>, p: int) -> (Option<Seq<char>>, int, bool)
    decreases cs.len() - p,
{
    if p < 0 || p >= cs.len() {
        (None, p, true)
    } else if cs[p] == '"' {
        (Some(Seq::empty()), p + 1, false)
    } else if cs[p] == '\\' {
        if p + 1 >= cs.len() {
            (None, p + 1, true)
        } else {
            let r = read_string(cs, p + 2);
            (match r.0 {
                Some(t) => Some(seq![crate::lex::escaped(cs[p + 1])] + t),
                None => None,
            }, r.1, r.2)
        }
    } else {
        let r = read_string(cs, p + 1);
        (match r.0 {
            Some(t) => Some(seq![cs[p]] + t),
            None => None,
        }, r.1, r.2)
    }
}

/// A bracketed sequence's read as a list (or vector) form.
pub open spec fn items_form(r: (Option<Seq<FormModel>>, int, bool), list: bool) -> (Option<FormModel>, int, bool) {
    (match r.0 {
        Some(ms) => Some(if list { FormModel::List(ms) } else { FormModel::Vector(ms) }),
        None => None,
    }, r.1, r.2)
}

/// A map literal's read as a form.
pub open spec fn map_form(r: (Option<Seq<(FormModel, FormModel)>>, int, bool)) -> (Option<FormModel>, int, bool) {
    (match r.0 {
        Some(es) => Some(FormModel::MapLit(es)),
        None => None,
    }, r.1, r.2)
}

/// A form behind `'`, read as `(quote …)`.
pub open spec fn quote_form(r: (Option<FormModel>, int, bool)) -> (Option<FormModel>, int, bool) {
    (match r.0 {
        Some(m) => Some(FormModel::List(seq![FormModel::Symbol("quote"@), m])),
        None => None,
    }, r.1, r.2)
}

/// The `#` dispatch at `p`: `#{…}` reads as `(hash-set …)`, `#"…"` as
/// `(re-pattern "…")`; anything else is an error.
pub open spec fn read_dispatch(cs: Seq<char>, p: int) -> (Option<FormModel>, int, bool)
    decreases cs.len() - p, 0nat,
{
    if p < 0 {
        (None, p, false)
    } else if p + 1 < cs.len() && cs[p + 1] == '{' {
        let r = read_items(cs, p + 2, '}');
        (match r.0 {
            Some(ms) => Some(FormModel::List(seq![FormModel::Symbol("hash-set"@)] + ms)),
            None => None,
        }, r.1, r.2)
    } else if p + 1 < cs.len() && cs[p + 1] == '"' {
        let r = read_string(cs, p + 2);
        (match r.0 {
            Some(t) => Some(FormModel::List(seq![FormModel::Symbol("re-pattern"@), FormModel::String(t)])),
            None => None,
        }, r.1, r.2)
    } else {
        (None, p + 1, true)
    }
}

/// One form read from `pos`, after white space and comments: the form (if
/// any), where reading stopped, and whether an error was reported.
pub open spec fn read_form(cs: Seq<char>, pos: int) -> (Option<FormModel>, int, bool)
    decreases cs.len() - pos, 1nat,
{
    let p = skip_spec(cs, pos, false);
    if pos < 0 || p < pos || p >= cs.len() {
        (None, p, false)
    } else {
        let ch = cs[p];
        if ch == '(' {
            items_form(read_items(cs, p + 1, ')'), true)
        } else if ch == '[' {
            items_form(read_items(cs, p + 1, ']'), false)
        } else if ch == '{' {
            map_form(read_entries(cs, p + 1))
        } else if ch == '"' {
            string_form(read_string(cs, p + 1))
        } else if ch == ':' {
            let q = tok_end(cs, p + 1);
            if q == p + 1 {
                (None, q, true)
            } else {
                (Some(FormModel::Keyword(cs.subrange(p + 1, q))), q, false)
            }
        } else if ch == '#' {
            read_dispatch(cs, p)
        } else if ch == '\'' {
            quote_form(read_form(cs, p + 1))
        } else {
            let q = tok_end(cs, p);
            if q == p {
                (None, q, true)
            } else {
                (Some(atom_model(ch, cs.subrange(p, q))), q, false)
            }
        }
    }
}

/// The forms from `p` up to the `close` bracket, and the position after it.
pub open spec fn read_items(cs: Seq<char>, p: int, close: char) -> (Option<Seq<FormModel>>, int, bool)
    decreases cs.len() - p, 2nat,
{
    let q = skip_spec(cs, p, false);
    if p < 0 || q < p || q > cs.len() {
        (None, q, false)
    } else if q < cs.len() && cs[q] == close {
        (Some(Seq::empty()), q + 1, false)
    } else if q >= cs.len() {
        (None, q, true)
    } else {
        let f = read_form(cs, q);
        match f.0 {
            None => (None, f.1, f.2),
            Some(m) => if f.1 <= q || f.1 > cs.len() {
                (None, f.1, false)
            } else {
                let rest = read_items(cs, f.1, close);
                (match rest.0 {
                    Some(ms) => Some(seq![m] + ms),
                    None => None,
                }, rest.1, rest.2)
            },
        }
    }
}

/// The key/value pairs from `p` up to the closing `}`, and the position
/// after it; a key with no value before `}` is an error.
pub open spec fn read_entries(cs: Seq<char>, p: int) -> (Option<Seq<(FormModel, FormModel)>>, int, bool)
    decreases cs.len() - p, 2nat,
{
    let q = skip_spec(cs, p, false);
    if p < 0 || q < p || q > cs.len() {
        (None, q, false)
    } else if q < cs.len() && cs[q] == '}' {
        (Some(Seq::empty()), q + 1, false)
    } else if q >= cs.len() {
        (None, q, true)
    } else {
        let k = read_form(cs, q);
        match k.0 {
            None => (None, k.1, k.2),
            Some(km) => if k.1 <= q || k.1 > cs.len() {
                (None, k.1, false)
            } else {
                let q2 = skip_spec(cs, k.1, false);
                if q2 < k.1 || q2 > cs.len() {
                    (None, q2, false)
                } else if q2 < cs.len() && cs[q2] == '}' {
                    (None, q2, true)
                } else {
                    let v = read_form(cs, q2);
                    match v.0 {
                        None => (None, v.1, v.2),
                        Some(vm) => if v.1 <= q2 || v.1 > cs.len() {
                            (None, v.1, false)
                        } else {
                            let rest = read_entries(cs, v.1);
                            (match rest.0 {
                                Some(es) => Some(seq![(km, vm)] + es),
                                None => None,
                            }, rest.1, rest.2)
                        },
                    }
                }
            },
        }
    }
}

/// The top-level forms from `p` on, where reading stopped, and whether an
/// error was reported.
pub open spec fn read_top(cs: Seq<char>, p: int) -> (Seq<FormModel>, int, bool)
    decreases cs.len() - p,
{
    if p < 0 || p >= cs.len() {
        (Seq::empty(), p, false)
    } else {
        let f = read_form(cs, p);
        match f.0 {
            None => (Seq::empty(), f.1, f.2),
            Some(m) => if f.1 <= p || f.1 > cs.len() {
                (Seq::empty(), f.1, false)
            } else {
                let q = skip_spec(cs, f.1, false);
                if q < f.1 || q > cs.len() {
                    (Seq::empty(), q, false)
                } else {
                    let rest = read_top(cs, q);
                    (seq![m] + rest.0, rest.1, f.2 || rest.2)
                }
            },
        }
    }
}

/// A boolean form is read only from the boolean literal that spells it:
/// wherever reading yields `true` or `false`, the text it consumed after
/// the leading trivia is exactly `true` or `false`, respectively.
pub proof fn law_read_boolean_spelled(cs: Seq<char>, pos: int, b: bool)
    requires
        read_form(cs, pos).0 == Some(FormModel::Bool(b)),
    ensures
        cs.subrange(skip_spec(cs, pos, false), read_form(cs, pos).1) == (if b { "true"@ } else { "false"@ }),
{
    let p = skip_spec(cs, pos, false);
    assert(!(pos < 0 || p < pos || p >= cs.len()));
    let ch = cs[p];
    assert(ch != '(' && ch != '[') by {
        if ch == '(' || ch == '[' {
            let r = read_items(cs, p + 1, if ch == '(' { ')' } else { ']' });
            assert(read_form(cs, pos) == items_form(r, ch == '('));
        }
    }
    assert(ch != '{') by {
        if ch == '{' {
            assert(read_form(cs, pos) == map_form(read_entries(cs, p + 1)));
        }
    }
    assert(ch != '"') by {
        if ch == '"' {
            assert(read_form(cs, pos) == string_form(read_string(cs, p + 1)));
        }
    }
    assert(ch != ':');
    assert(ch != '#') by {
        if ch == '#' {
            assert(read_form(cs, pos) == read_dispatch(cs, p));
        }
    }
    assert(ch != '\'') by {
        if ch == '\'' {
            assert(read_form(cs, pos) == quote_form(read_form(cs, p + 1)));
        }
    }
    let q = tok_end(cs, p);
    assert(q != p);
    let tok = cs.subrange(p, q);
    assert(read_form(cs, pos) == (Some(atom_model(ch, tok)), q, false));
    assert(!(ch == '-' || is_ascii_digit_spec(ch))) by {
        if ch == '-' || is_ascii_digit_spec(ch) {
            assert(!(atom_model(ch, tok) is Bool));
        }
    }
    reveal_strlit("nil");
    reveal_strlit("true");
    reveal_strlit("false");
}

/// Every boolean the Clojure printer writes reads back as the same boolean,
/// consuming the whole text without error.
pub proof fn law_printed_booleans_read_back(b: bool)
    ensures
        ({
            let w = crate::clj::render_spec(Form::Bool(b), 0);
            read_form(w, 0) == (Some(FormModel::Bool(b)), w.len() as int, false)
        }),
{
    reveal_strlit("true");
    reveal_strlit("false");
    reveal_strlit("//");
    reveal_strlit(";");
    reveal_strlit("nil");
    reveal_strlit("-");
    reveal_strlit("+");
    let w = crate::clj::render_spec(Form::Bool(b), 0);
    let n = w.len() as int;
    assert(w == (if b { "true"@ } else { "false"@ }));
    assert(n == 4 || n == 5);
    assert(w[0] == 't' || w[0] == 'f');
    assert(w[1] == 'r' || w[1] == 'a');
    assert(w[2] == 'u' || w[2] == 'l');
    assert(w[3] == 'e' || w[3] == 's');
    if !b {
        assert(w[4] == 'e');
    }
    assert(!is_prefix("//"@, w.skip(0))) by {
        if is_prefix("//"@, w.skip(0)) {
            assert(w.skip(0).take(2)[0] == w[0]);
        }
    }
    assert(!is_prefix(";"@, w.skip(0))) by {
        if is_prefix(";"@, w.skip(0)) {
            assert(w.skip(0).take(1)[0] == w[0]);
        }
    }
    assert(skip_spec(w, 0, false) == 0);
    assert forall|j: int| 0 <= j < n implies !ends_token(w, j) by {
        if b {
            assert(j == 0 || j == 1 || j == 2 || j == 3);
        } else {
            assert(j == 0 || j == 1 || j == 2 || j == 3 || j == 4);
        }
    }
    assert(tok_end(w, n) == n);
    assert(tok_end(w, n - 1) == n);
    assert(tok_end(w, n - 2) == n);
    assert(tok_end(w, n - 3) == n);
    assert(tok_end(w, n - 4) == n);
    if !b {
        assert(tok_end(w, 0) == n);
    }
    assert(w.subrange(0, n) =~= w);
}

/// `nil` as the printer writes it reads back as `nil`, consuming the whole
/// text without error.
pub proof fn law_printed_nil_reads_back()
    ensures
        ({
            let w = crate::clj::render_spec(Form::Nil, 0);
            read_form(w, 0) == (Some(FormModel::Nil), w.len() as int, false)
        }),
{
    reveal_strlit("nil");
    reveal_strlit("//");
    reveal_strlit(";");
    let w = crate::clj::render_spec(Form::Nil, 0);
    assert(w == "nil"@);
    assert(w[0] == 'n' && w[1] == 'i' && w[2] == 'l');
    assert(!is_prefix("//"@, w.skip(0))) by {
        if is_prefix("//"@, w.skip(0)) {
            assert(w.skip(0).take(2)[0] == w[0]);
        }
    }
    assert(!is_prefix(";"@, w.skip(0))) by {
        if is_prefix(";"@, w.skip(0)) {
            assert(w.skip(0).take(1)[0] == w[0]);
        }
    }
    assert(skip_spec(w, 0, false) == 0);
    assert(!ends_token(w, 0) && !ends_token(w, 1) && !ends_token(w, 2));
    assert(tok_end(w, 3) == 3);
    assert(tok_end(w, 2) == 3);
    assert(tok_end(w, 1) == 3);
    assert(tok_end(w, 0) == 3);
    assert(w.subrange(0, 3) =~= w);
}

/// Where a document's forms start: after leading trivia, an optional
/// `#!clj` marker, and trivia again.
pub open spec fn doc_start(cs: Seq<char>) -> int {
    let p0 = skip_spec(cs, 0, false);
    let p1 = if is_prefix("#!clj"@, cs.skip(p0)) { p0 + 5 } else { p0 };
    skip_spec(cs, p1, false)
}

/// The forms of an s-expression document.
pub open spec fn doc_forms(cs: Seq<char>) -> Seq<FormModel> {
    read_top(cs, doc_start(cs)).0
}

/// Whether an s-expression document reads without error: every form reads,
/// and nothing but trivia follows the last one.
pub open spec fn doc_reads(cs: Seq<char>) -> bool {
    &&& !read_top(cs, doc_start(cs)).2
    &&& skip_spec(cs, read_top(cs, doc_start(cs)).1, false) >= cs.len()
}

/// `s` in front of what a read of string contents gives.
pub open spec fn prep_str(s: Seq<char>, r: (Option<Seq<char>>, int, bool)) -> (Option<Seq<char>>, int, bool) {
    (match r.0 {
        Some(t) => Some(s + t),
        None => None,
    }, r.1, r.2)
}

/// `ms` in front of what a read of forms gives.
pub open spec fn prep_items(ms: Seq<FormModel>, r: (Option<Seq<FormModel>>, int, bool)) -> (Option<Seq<FormModel>>, int, bool) {
    (match r.0 {
        Some(t) => Some(ms + t),
        None => None,
    }, r.1, r.2)
}

/// `es` in front of what a read of map entries gives.
pub open spec fn prep_entries(es: Seq<(FormModel, FormModel)>, r: (Option<Seq<(FormModel, FormModel)>>, int, bool)) -> (Option<Seq<(FormModel, FormModel)>>, int, bool) {
    (match r.0 {
        Some(t) => Some(es + t),
        None => None,
    }, r.1, r.2)
}

/// A string literal's read as a form.
pub open spec fn string_form(r: (Option<Seq<char>>, int, bool)) -> (Option<FormModel>, int, bool) {
    (match r.0 {
        Some(t) => Some(FormModel::String(t)),
        None => None,
    }, r.1, r.2)
}

/// A parsed form and stopping point agree with a read.
pub open spec fn reads_as(r: (Option<Form>, usize), spec: (Option<FormModel>, int, bool)) -> bool {
    &&& r.1 == spec.1
    &&& match r.0 {
        Some(f) => spec.0 == Some(clj::model(f)),
        None => spec.0 is None,
    }
}

/// One diagnostic was added exactly when the read reports an error.
pub open spec fn reported(before: Seq<Diagnostic>, after: Seq<Diagnostic>, error: bool) -> bool {
    after.len() == before.len() + if error { 1int } else { 0int }
}

struct Cursor {
    cs: Vec<char>,
    offs: Vec<usize>,
}

impl Cursor {
    spec fn wf(&self) -> bool {
        self.offs.len() == self.cs.len() + 1
    }
}

fn span_here(c: &Cursor, pos: usize) -> (out: Span)
    requires
        c.wf(),
        pos <= c.cs.len(),
    ensures
        out.start == c.offs@[pos as int],
        out.end == c.offs@[pos as int],
{
    Span::new(c.offs[pos], c.offs[pos])
}

fn push_error(c: &Cursor, pos: usize, diags: &mut Vec<Diagnostic>, message: String)
    requires
        c.wf(),
        pos <= c.cs.len(),
    ensures
        final(diags)@.len() == old(diags)@.len() + 1,
{
    diags.push(Diagnostic::parse(span_here(c, pos), message));
}

proof fn lemma_skip_bounds(cs: Seq<char>, p: int, in_comment: bool)
    requires
        0 <= p <= cs.len(),
    ensures
        p <= skip_spec(cs, p, in_comment) <= cs.len(),
    decreases cs.len() - p,
{
    if p < cs.len() {
        if in_comment {
            lemma_skip_bounds(cs, p + 1, cs[p] != '\n');
        } else if is_prefix("//"@, cs.skip(p)) || is_prefix(";"@, cs.skip(p)) {
            lemma_skip_bounds(cs, p + 1, true);
        } else if is_white_space(cs[p]) {
            lemma_skip_bounds(cs, p + 1, false);
        }
    }
}

proof fn lemma_skip_comment(cs: Seq<char>, j: int, i: int)
    requires
        0 <= j <= i < cs.len(),
        cs[i] == '\n',
        forall|k: int| j <= k < i ==> cs[k] != '\n',
    ensures
        skip_spec(cs, j, true) == skip_spec(cs, i + 1, false),
    decreases i - j,
{
    if j < i {
        lemma_skip_comment(cs, j + 1, i);
    }
}

proof fn lemma_skip_comment_end(cs: Seq<char>, j: int)
    requires
        0 <= j <= cs.len(),
        forall|k: int| j <= k < cs.len() ==> cs[k] != '\n',
    ensures
        skip_spec(cs, j, true) == cs.len(),
    decreases cs.len() - j,
{
    if j < cs.len() {
        lemma_skip_comment_end(cs, j + 1);
    }
}

fn skip_trivia(c: &Cursor, pos: usize) -> (r: usize)
    requires
        pos <= c.cs.len(),
    ensures
        pos <= r <= c.cs.len(),
        r == skip_spec(c.cs@, pos as int, false),
{
    let ghost cs = c.cs@;
    let mut p = pos;
    while p < c.cs.len()
        invariant
            pos <= p <= c.cs.len(),
            cs == c.cs@,
            skip_spec(cs, p as int, false) == skip_spec(cs, pos as int, false),
        decreases c.cs.len() - p,
    {
        if at(&c.cs, p, "//") || at(&c.cs, p, ";") {
            proof {
                reveal_strlit("//");
                reveal_strlit(";");
                if is_prefix("//"@, cs.skip(p as int)) {
                    assert(cs.skip(p as int).take(2)[0] == cs[p as int]);
                } else {
                    assert(cs.skip(p as int).take(1)[0] == cs[p as int]);
                }
                assert(cs[p as int] != '\n');
            }
            match first_newline(&c.cs, p) {
                Some(i) => {
                    proof {
                        lemma_skip_comment(cs, p + 1, i as int);
                    }
                    p = i + 1;
                    continue;
                }
                None => {
                    proof {
                        lemma_skip_comment_end(cs, p + 1);
                    }
                    return c.cs.len();
                }
            }
        }
        if is_whitespace(c.cs[p]) {
            p += 1;
        } else {
            return p;
        }
    }
    p
}

/// Characters that end a bare token: white space, brackets, a quote, `;`,
/// `,`, or the `//` of a comment.
pub open spec fn ends_token(cs: Seq<char>, p: int) -> bool {
    let ch = cs[p];
    is_white_space(ch) || ch == '(' || ch == ')' || ch == '[' || ch == ']' || ch == '{' || ch == '}' || ch == '"' || ch
        == ';' || ch == ',' || (ch == '/' && is_prefix("//"@, cs.skip(p)))
}

fn is_token_end(c: &Cursor, p: usize) -> (r: bool)
    requires
        p < c.cs.len(),
    ensures
        r == ends_token(c.cs@, p as int),
{
    let ch = c.cs[p];
    is_whitespace(ch) || ch == '(' || ch == ')' || ch == '[' || ch == ']' || ch == '{' || ch == '}'
        || ch == '"' || ch == ';' || ch == ',' || (ch == '/' && at(&c.cs, p, "//"))
}

fn read_token_body(c: &Cursor, pos: usize) -> (r: (String, usize))
    requires
        pos <= c.cs.len(),
    ensures
        pos <= r.1 <= c.cs.len(),
        r.1 == pos <==> r.0@.len() == 0,
        r.1 == tok_end(c.cs@, pos as int),
        r.0@ == c.cs@.subrange(pos as int, r.1 as int),
{
    let mut p = pos;
    while p < c.cs.len() && !is_token_end(c, p)
        invariant
            pos <= p <= c.cs.len(),
            tok_end(c.cs@, p as int) == tok_end(c.cs@, pos as int),
        decreases c.cs.len() - p,
    {
        p += 1;
    }
    (substring(c.cs.as_slice(), pos, p), p)
}

/// `str::parse::<i64>`: an optional sign and at least one digit, in range.
pub open spec fn i64_digits(s: Seq<char>) -> Seq<char> {
    if s.len() > 0 && (s[0] == '-' || s[0] == '+') { s.skip(1) } else { s }
}

pub open spec fn all_digits(b: Seq<char>) -> bool {
    forall|k: int| 0 <= k < b.len() ==> is_ascii_digit_spec(#[trigger] b[k])
}

pub open spec fn i64_text(s: Seq<char>) -> Option<int> {
    let negative = s.len() > 0 && s[0] == '-';
    let body = i64_digits(s);
    if body.len() == 0 || !all_digits(body) {
        None
    } else if negative {
        if digits_value(body) <= 9223372036854775808 { Some(-(digits_value(body) as int)) } else { None }
    } else {
        if digits_value(body) <= i64::MAX { Some(digits_value(body) as int) } else { None }
    }
}

fn parse_i64(s: &Vec<char>) -> (r: Option<i64>)
    ensures
        match r {
            Some(v) => i64_text(s@) == Some(v as int),
            None => i64_text(s@) is None,
        },
{
    let mut i: usize = 0;
    let mut negative = false;
    if s.len() > 0 && (s[0] == '-' || s[0] == '+') {
        negative = s[0] == '-';
        i = 1;
    }
    let ghost body = s@.skip(i as int);
    assert(i == 0 ==> body =~= s@);
    if i >= s.len() {
        return None;
    }
    let ghost start = i;
    let mut v: i128 = 0;
    while i < s.len()
        invariant
            start <= i <= s.len(),
            start == 0 || start == 1,
            body == s@.skip(start as int),
            body == i64_digits(s@),
            negative == (s@.len() > 0 && s@[0] == '-'),
            0 <= v <= 9223372036854775808i128,
            v as int == digits_value(body.take(i - start)),
            forall|k: int| 0 <= k < i - start ==> is_ascii_digit_spec(#[trigger] body[k]),
        decreases s.len() - i,
    {
        let ch = s[i];
        assert(body[i - start] == ch);
        if !is_ascii_digit(ch) {
            proof {
                let k = i - start;
                assert(0 <= k < body.len() && !is_ascii_digit_spec(body[k]));
                assert(!all_digits(body));
            }
            return None;
        }
        proof {
            assert(body.take(i - start + 1).drop_last() =~= body.take(i - start));
            assert(body.take(i - start + 1).last() == ch);
        }
        let d = (ch as u32 - '0' as u32) as i128;
        v = v * 10 + d;
        if v > 9223372036854775808i128 {
            proof {
                assert(v as int == digits_value(body.take(i - start + 1)));
                lemma_digits_value_grows(body, i - start + 1);
                assert(digits_value(body) > 9223372036854775808);

            }
            return None;
        }
        i += 1;
    }
    assert(body.take(i - start) =~= body);
    if negative {
        Some((-v) as i64)
    } else if v <= 9223372036854775807i128 {
        Some(v as i64)
    } else {
        None
    }
}

/// How `{:?}` writes a character inside its quotes, for the escapes a
/// form can fail to start at.
pub open spec fn char_escape(ch: char) -> Seq<char> {
    if ch == '\0' {
        seq!['\\', '0']
    } else if ch == '\'' {
        seq!['\\', '\'']
    } else if ch == '\\' {
        seq!['\\', '\\']
    } else if ch == '\n' {
        seq!['\\', 'n']
    } else if ch == '\r' {
        seq!['\\', 'r']
    } else if ch == '\t' {
        seq!['\\', 't']
    } else {
        seq![ch]
    }
}

/// `{:?}` of a character, for the characters a form can fail to start at.
fn debug_char(ch: char) -> (out: String)
    ensures
        out@ == seq!['\''] + char_escape(ch) + seq!['\''],
{
    proof {
        reveal_strlit("\\0");
        reveal_strlit("\\'");
        reveal_strlit("\\\\");
        reveal_strlit("\\n");
        reveal_strlit("\\r");
        reveal_strlit("\\t");
    }
    let mut out = String::new();
    out.push('\'');
    if ch == '\0' {
        out.push_str("\\0");
    } else if ch == '\'' {
        out.push_str("\\'");
    } else if ch == '\\' {
        out.push_str("\\\\");
    } else if ch == '\n' {
        out.push_str("\\n");
    } else if ch == '\r' {
        out.push_str("\\r");
    } else if ch == '\t' {
        out.push_str("\\t");
    } else {
        out.push(ch);
    }
    out.push('\'');
    assert(out@ =~= seq!['\''] + char_escape(ch) + seq!['\'']);
    out
}

fn parse_form(c: &Cursor, pos: usize, diags: &mut Vec<Diagnostic>) -> (r: (Option<Form>, usize))
    requires
        c.wf(),
        pos <= c.cs.len(),
    ensures
        pos <= r.1 <= c.cs.len(),
        r.0 is Some ==> pos < r.1,
        reads_as(r, read_form(c.cs@, pos as int)),
        reported(old(diags)@, final(diags)@, read_form(c.cs@, pos as int).2),
        r.0 is Some ==> final(diags)@ == old(diags)@,
    decreases c.cs.len() - pos, 2nat,
{
    let ghost cs = c.cs@;
    let p = skip_trivia(c, pos);
    if p >= c.cs.len() {
        return (None, p);
    }
    let ch = c.cs[p];
    if ch == '(' {
        parse_seq(c, p, ')', diags)
    } else if ch == '[' {
        parse_seq(c, p, ']', diags)
    } else if ch == '{' {
        parse_map(c, p, diags)
    } else if ch == '"' {
        parse_string(c, p, diags)
    } else if ch == ':' {
        let (name, q) = read_token_body(c, p + 1);
        if q == p + 1 {
            push_error(c, q, diags, owned("empty keyword"));
            return (None, q);
        }
        (Some(Form::Keyword(name)), q)
    } else if ch == '#' {
        parse_dispatch(c, p, diags)
    } else if ch == '\'' {
        let (inner, q) = parse_form(c, p + 1, diags);
        match inner {
            Some(f) => {
                let mut xs = Vec::new();
                xs.push(clj::sym("quote"));
                xs.push(f);
                proof {
                    clj::lemma_models_index(xs@);
                    assert(clj::models(xs@) =~= seq![FormModel::Symbol("quote"@), clj::model(f)]);
                }
                (Some(clj::list(xs)), q)
            }
            None => (None, q),
        }
    } else {
        let (token, q) = read_token_body(c, p);
        if q == p {
            let found = if q < c.cs.len() { c.cs[q] } else { '\0' };
            let mut message = owned("expected form, found ");
            message.push_str(debug_char(found).as_str());
            push_error(c, q, diags, message);
            return (None, q);
        }
        if ch == '-' || is_ascii_digit(ch) {
            let text = chars_of(token.as_str());
            if crate::text::str_eq(token.as_str(), "-") || crate::text::str_eq(token.as_str(), "+") {
                return (Some(Form::Symbol(token)), q);
            }
            match parse_i64(&text) {
                Some(n) => { return (Some(Form::Int(n)), q); }
                None => { return (Some(Form::Symbol(token)), q); }
            }
        }
        if crate::text::str_eq(token.as_str(), "nil") {
            (Some(Form::Nil), q)
        } else if crate::text::str_eq(token.as_str(), "true") {
            (Some(Form::Bool(true)), q)
        } else if crate::text::str_eq(token.as_str(), "false") {
            (Some(Form::Bool(false)), q)
        } else {
            (Some(Form::Symbol(token)), q)
        }
    }
}

proof fn lemma_prep_items(ms: Seq<FormModel>, m: FormModel, r: (Option<Seq<FormModel>>, int, bool))
    ensures
        prep_items(ms, prep_items(seq![m], r)) == prep_items(ms.push(m), r),
{
    if r.0 is Some {
        assert(ms + (seq![m] + r.0->Some_0) =~= ms.push(m) + r.0->Some_0);
    }
}

proof fn lemma_prep_entries(es: Seq<(FormModel, FormModel)>, e: (FormModel, FormModel), r: (Option<Seq<(FormModel, FormModel)>>, int, bool))
    ensures
        prep_entries(es, prep_entries(seq![e], r)) == prep_entries(es.push(e), r),
{
    if r.0 is Some {
        assert(es + (seq![e] + r.0->Some_0) =~= es.push(e) + r.0->Some_0);
    }
}

/// The forms of `items` before the rest of the bracket's contents, read
/// from `p` on.
fn parse_items(c: &Cursor, pos: usize, close: char, items: &mut Vec<Form>, diags: &mut Vec<Diagnostic>) -> (r: (bool, usize))
    requires
        c.wf(),
        pos < c.cs.len(),
    ensures
        pos <= r.1 <= c.cs.len(),
        r.0 ==> pos < r.1,
        r.1 == read_items(c.cs@, pos + 1, close).1,
        r.0 <==> read_items(c.cs@, pos + 1, close).0 is Some,
        r.0 ==> Some(clj::models(final(items)@)) == prep_items(clj::models(old(items)@), read_items(c.cs@, pos + 1, close)).0,
        reported(old(diags)@, final(diags)@, read_items(c.cs@, pos + 1, close).2),
        r.0 ==> final(diags)@ == old(diags)@,
    decreases c.cs.len() - pos, 0nat,
{
    let ghost cs = c.cs@;
    let ghost whole = prep_items(clj::models(items@), read_items(cs, pos + 1, close));
    let mut p = pos + 1;
    loop
        invariant
            c.wf(),
            cs == c.cs@,
            pos < p <= c.cs.len(),
            whole == prep_items(clj::models(items@), read_items(cs, p as int, close)),
            whole == prep_items(clj::models(old(items)@), read_items(cs, pos + 1, close)),
            diags@ == old(diags)@,
        decreases c.cs.len() - p,
    {
        let ghost p0 = p as int;
        p = skip_trivia(c, p);
        if p < c.cs.len() && c.cs[p] == close {
            assert(clj::models(items@) + Seq::<FormModel>::empty() =~= clj::models(items@));
            return (true, p + 1);
        }
        if p >= c.cs.len() {
            push_error(c, p, diags, owned("unclosed"));
            return (false, p);
        }
        let (f, q) = parse_form(c, p, diags);
        match f {
            Some(f) => {
                let ghost before = items@;
                items.push(f);
                proof {
                    clj::lemma_models_push(before, f);
                    lemma_prep_items(clj::models(before), clj::model(f), read_items(cs, q as int, close));
                }
                p = q;
            }
            None => {
                return (false, q);
            }
        }
    }
}

/// `( … )` or `[ … ]` opening at `pos`.
fn parse_seq(c: &Cursor, pos: usize, close: char, diags: &mut Vec<Diagnostic>) -> (r: (Option<Form>, usize))
    requires
        c.wf(),
        pos < c.cs.len(),
    ensures
        pos <= r.1 <= c.cs.len(),
        r.0 is Some ==> pos < r.1,
        reads_as(r, items_form(read_items(c.cs@, pos + 1, close), close == ')')),
        reported(old(diags)@, final(diags)@, read_items(c.cs@, pos + 1, close).2),
        r.0 is Some ==> final(diags)@ == old(diags)@,
    decreases c.cs.len() - pos, 1nat,
{
    let mut items: Vec<Form> = Vec::new();
    let (ok, q) = parse_items(c, pos, close, &mut items, diags);
    proof {
        assert(clj::models(Seq::<Form>::empty()) =~= Seq::<FormModel>::empty());
        if ok {
            assert(Seq::<FormModel>::empty() + read_items(c.cs@, pos + 1, close).0->Some_0 =~= read_items(c.cs@, pos + 1, close).0->Some_0);
        }
    }
    if !ok {
        return (None, q);
    }
    let form = if close == ')' { Form::List(items) } else { Form::Vector(items) };
    (Some(form), q)
}

fn parse_map(c: &Cursor, pos: usize, diags: &mut Vec<Diagnostic>) -> (r: (Option<Form>, usize))
    requires
        c.wf(),
        pos < c.cs.len(),
    ensures
        pos <= r.1 <= c.cs.len(),
        r.0 is Some ==> pos < r.1,
        reads_as(r, map_form(read_entries(c.cs@, pos + 1))),
        reported(old(diags)@, final(diags)@, read_entries(c.cs@, pos + 1).2),
        r.0 is Some ==> final(diags)@ == old(diags)@,
    decreases c.cs.len() - pos, 1nat,
{
    let ghost cs = c.cs@;
    let mut entries: Vec<(Form, Form)> = Vec::new();
    let ghost whole = read_entries(cs, pos + 1);
    let mut p = pos + 1;
    proof {
        assert(clj::pair_models(entries@) =~= Seq::<(FormModel, FormModel)>::empty());
        if whole.0 is Some {
            assert(Seq::<(FormModel, FormModel)>::empty() + whole.0->Some_0 =~= whole.0->Some_0);
        }
    }
    loop
        invariant
            c.wf(),
            cs == c.cs@,
            pos < p <= c.cs.len(),
            whole == read_entries(cs, pos + 1),
            whole == prep_entries(clj::pair_models(entries@), read_entries(cs, p as int)),
            diags@ == old(diags)@,
        decreases c.cs.len() - p,
    {
        p = skip_trivia(c, p);
        if p < c.cs.len() && c.cs[p] == '}' {
            assert(clj::pair_models(entries@) + Seq::<(FormModel, FormModel)>::empty() =~= clj::pair_models(entries@));
            return (Some(Form::MapLit(entries)), p + 1);
        }
        if p >= c.cs.len() {
            push_error(c, p, diags, owned("unclosed map"));
            return (None, p);
        }
        let (key, q) = parse_form(c, p, diags);
        let key = match key {
            Some(k) => k,
            None => { return (None, q); }
        };
        let q2 = skip_trivia(c, q);
        if q2 < c.cs.len() && c.cs[q2] == '}' {
            push_error(c, q2, diags, owned("map entry missing value"));
            return (None, q2);
        }
        let (value, q3) = parse_form(c, q2, diags);
        match value {
            Some(v) => {
                let ghost before = entries@;
                entries.push((key, v));
                proof {
                    clj::lemma_pair_models_index(before);
                    clj::lemma_pair_models_index(entries@);
                    assert(clj::pair_models(entries@) =~= clj::pair_models(before).push((clj::model(key), clj::model(v))));
                    lemma_prep_entries(clj::pair_models(before), (clj::model(key), clj::model(v)), read_entries(cs, q3 as int));
                }
                p = q3;
            }
            None => {
                return (None, q3);
            }
        }
    }
}

fn parse_dispatch(c: &Cursor, pos: usize, diags: &mut Vec<Diagnostic>) -> (r: (Option<Form>, usize))
    requires
        c.wf(),
        pos < c.cs.len(),
    ensures
        pos <= r.1 <= c.cs.len(),
        r.0 is Some ==> pos < r.1,
        reads_as(r, read_dispatch(c.cs@, pos as int)),
        reported(old(diags)@, final(diags)@, read_dispatch(c.cs@, pos as int).2),
        r.0 is Some ==> final(diags)@ == old(diags)@,
    decreases c.cs.len() - pos, 1nat,
{
    let p = pos + 1;
    if p < c.cs.len() && c.cs[p] == '{' {
        // set literal #{…} → (hash-set …)
        let mut items: Vec<Form> = Vec::new();
        items.push(clj::sym("hash-set"));
        proof {
            clj::lemma_models_index(items@);
            assert(clj::models(items@) =~= seq![FormModel::Symbol("hash-set"@)]);
        }
        let (ok, q) = parse_items(c, p, '}', &mut items, diags);
        if !ok {
            return (None, q);
        }
        (Some(Form::List(items)), q)
    } else if p < c.cs.len() && c.cs[p] == '"' {
        // regex #"…" → (re-pattern "…")
        let (s, q) = parse_string(c, p, diags);
        match s {
            Some(Form::String(text)) => {
                let mut xs = Vec::new();
                xs.push(clj::sym("re-pattern"));
                xs.push(Form::String(text));
                proof {
                    clj::lemma_models_index(xs@);
                    assert(clj::models(xs@) =~= seq![FormModel::Symbol("re-pattern"@), FormModel::String(text@)]);
                }
                (Some(clj::list(xs)), q)
            }
            _ => (None, q),
        }
    } else {
        push_error(c, p, diags, owned("unsupported dispatch macro"));
        (None, p)
    }
}

fn parse_string(c: &Cursor, pos: usize, diags: &mut Vec<Diagnostic>) -> (r: (Option<Form>, usize))
    requires
        c.wf(),
        pos < c.cs.len(),
    ensures
        pos <= r.1 <= c.cs.len(),
        r.0 is Some ==> pos < r.1,
        r.0 matches Some(f) ==> f is String,
        reads_as(r, string_form(read_string(c.cs@, pos + 1))),
        reported(old(diags)@, final(diags)@, read_string(c.cs@, pos + 1).2),
        r.0 is Some ==> final(diags)@ == old(diags)@,
{
    let ghost cs = c.cs@;
    let ghost whole = read_string(cs, pos + 1);
    let mut out = String::new();
    let mut p = pos + 1;
    assert(prep_str(out@, read_string(cs, p as int)) =~= whole);
    while p < c.cs.len()
        invariant
            c.wf(),
            cs == c.cs@,
            pos < p <= c.cs.len(),
            whole == prep_str(out@, read_string(cs, p as int)),
            whole == read_string(cs, pos + 1),
            diags@ == old(diags)@,
        decreases c.cs.len() - p,
    {
        let ghost p0 = p as int;
        let ghost o0 = out@;
        let ch = c.cs[p];
        p += 1;
        assert(ch == cs[p0]);
        if ch == '"' {
            assert(read_string(cs, p0) == (Some(Seq::<char>::empty()), p0 + 1, false));
            assert(o0 + Seq::<char>::empty() =~= o0);
            assert(whole.0 == Some(out@));
            assert(whole.1 == p);
            assert(string_form(whole).0 == Some(FormModel::String(out@)));
            assert(reads_as((Some(Form::String(out)), p), string_form(whole)));
            return (Some(Form::String(out)), p);
        } else if ch == '\\' {
            if p >= c.cs.len() {
                assert(read_string(cs, p0) == (None::<Seq<char>>, p0 + 1, true));
                push_error(c, p, diags, owned("unterminated string escape"));
                return (None, p);
            }
            let e = c.cs[p];
            p += 1;
            if e == 'n' {
                out.push('\n');
            } else if e == 't' {
                out.push('\t');
            } else if e == 'r' {
                out.push('\r');
            } else {
                out.push(e);
            }
            proof {
                let r = read_string(cs, p as int);
                assert(out@ == o0.push(crate::lex::escaped(e)));
                if r.0 is Some {
                    assert(o0 + (seq![crate::lex::escaped(e)] + r.0->Some_0) =~= out@ + r.0->Some_0);
                }
            }
        } else {
            out.push(ch);
            proof {
                let r = read_string(cs, p as int);
                if r.0 is Some {
                    assert(o0 + (seq![ch] + r.0->Some_0) =~= out@ + r.0->Some_0);
                }
            }
        }
    }
    push_error(c, p, diags, owned("unterminated string"));
    (None, p)
}

/// Parse an s-expression `.rama` file into a document of forms, headed by a
/// generated-file comment.
pub fn parse_document(src: &str) -> (out: Result<Document, ParseError>)
    ensures
        out is Ok <==> doc_reads(src@),
        out matches Ok(doc) ==> clj::models(doc.forms@) == seq![
            FormModel::Comment("Generated from .rama sexp mode — edit the .rama source."@),
        ] + doc_forms(src@),
        out matches Ok(doc) ==> doc.forms@.len() >= 1 && doc.forms@[0] is Comment,
        out matches Err(e) ==> e.diagnostics@.len() > 0,
{
    let cs = chars_of(src);
    let offs = crate::lex::char_offsets(src, &cs);
    let c = Cursor { cs, offs };
    let ghost chars = c.cs@;
    let mut diags: Vec<Diagnostic> = Vec::new();
    let mut p = skip_trivia(&c, 0);
    if at(&c.cs, p, "#!clj") {
        proof {
            reveal_strlit("#!clj");
        }
        p = p + 5;
    }
    let mut doc = Document::new();
    let header = clj::comment("Generated from .rama sexp mode — edit the .rama source.");
    doc.push(header);
    p = skip_trivia(&c, p);
    let ghost top = read_top(chars, p as int);
    let ghost mut acc: Seq<FormModel> = Seq::empty();
    let mut failed = false;
    proof {
        assert(acc + top.0 =~= top.0);
        clj::lemma_models_index(doc.forms@);
        assert(clj::models(doc.forms@) =~= seq![clj::model(header)] + acc);
    }
    while p < c.cs.len() && !failed
        invariant
            c.wf(),
            chars == c.cs@,
            p <= c.cs.len(),
            doc.forms@.len() >= 1,
            doc.forms@[0] == header,
            clj::models(doc.forms@) == seq![clj::model(header)] + acc,
            failed ==> top == (acc, p as int, diags@.len() > 0),
            !failed ==> top == (acc + read_top(chars, p as int).0, read_top(chars, p as int).1, read_top(chars, p as int).2)
                && diags@.len() == 0,
        decreases c.cs.len() - p, if failed { 0int } else { 1int },
    {
        let (f, q) = parse_form(&c, p, &mut diags);
        match f {
            Some(f) => {
                let ghost before = doc.forms@;
                doc.push(f);
                let q2 = skip_trivia(&c, q);
                proof {
                    clj::lemma_models_push(before, f);
                    assert(read_top(chars, p as int) == (seq![clj::model(f)] + read_top(chars, q2 as int).0, read_top(chars, q2 as int).1, read_top(chars, q2 as int).2));
                    assert(acc + (seq![clj::model(f)] + read_top(chars, q2 as int).0) =~= acc.push(clj::model(f)) + read_top(chars, q2 as int).0);
                    assert(seq![clj::model(header)] + acc.push(clj::model(f)) =~= (seq![clj::model(header)] + acc).push(clj::model(f)));
                    acc = acc.push(clj::model(f));
                }
                p = q2;
            }
            None => {
                p = q;
                failed = true;
            }
        }
    }
    proof {
        if !failed {
            assert(acc + Seq::<FormModel>::empty() =~= acc);
        }
    }
    p = skip_trivia(&c, p);
    if p < c.cs.len() {
        push_error(&c, p, &mut diags, owned("unexpected trailing input in sexp .rama file"));
    }
    if diags.len() == 0 {
        Ok(doc)
    } else {
        Err(ParseError { diagnostics: diags })
    }
}

} // verus!
