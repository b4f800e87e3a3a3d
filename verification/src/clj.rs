//! Clojure / Rama dataflow IR.
//!
//! Compilation targets this layer; only [`render`] / [`Document::render`]
//! produce source text.

use vstd::prelude::*;
use crate::text::{debug_quote, debug_quoted, decimal, i64_to_string, is_prefix, owned, skip_white_space, str_eq, chars_of, substring, trim_start_seq};

verus! {

/// One Clojure form. Rama ops are ordinary lists (`local-select>`, `<<if`, …).
#[derive(Debug, PartialEq)]
pub enum Form {
    Nil,
    Bool(bool),
    Int(i64),
    String(String),
    /// Bare symbol, including `*x`, `$$matches`, `local-select>`, `:>`, `|hash`.
    Symbol(String),
    /// Keyword without leading `:`.
    Keyword(String),
    List(Vec<Form>),
    Vector(Vec<Form>),
    MapLit(Vec<(Form, Form)>),
    /// Line comment (`;; …`). Only meaningful at document / body splice sites.
    Comment(String),
}

impl Clone for Form {
    #[verifier::loop_isolation(false)]
    fn clone(&self) -> (out: Self)
        ensures
            model(out) == model(*self),
        decreases self,
    {
        match self {
            Form::Nil => Form::Nil,
            Form::Bool(b) => Form::Bool(*b),
            Form::Int(n) => Form::Int(*n),
            Form::String(s) => Form::String(s.clone()),
            Form::Symbol(s) => Form::Symbol(s.clone()),
            Form::Keyword(s) => Form::Keyword(s.clone()),
            Form::Comment(s) => Form::Comment(s.clone()),
            Form::List(xs) => Form::List(clone_forms(xs)),
            Form::Vector(xs) => Form::Vector(clone_forms(xs)),
            Form::MapLit(es) => {
                let mut out: Vec<(Form, Form)> = Vec::new();
                let mut i: usize = 0;
                while i < es.len()
                    invariant
                        i <= es.len(),
                        out@.len() == i,
                        forall|k: int| 0 <= k < i ==> (model((#[trigger] out@[k]).0), model(out@[k].1)) == (
                            model(es@[k].0),
                            model(es@[k].1),
                        ),
                    decreases es.len() - i,
                {
                    out.push((es[i].0.clone(), es[i].1.clone()));
                    i += 1;
                }
                proof {
                    lemma_pair_models_index(out@);
                    lemma_pair_models_index(es@);
                    assert(pair_models(out@) =~= pair_models(es@));
                }
                Form::MapLit(out)
            }
        }
    }
}

#[verifier::loop_isolation(false)]
pub fn clone_forms(xs: &Vec<Form>) -> (out: Vec<Form>)
    ensures
        out.len() == xs.len(),
        models(out@) == models(xs@),
    decreases xs,
{
    let mut out: Vec<Form> = Vec::new();
    let mut i: usize = 0;
    while i < xs.len()
        invariant
            i <= xs.len(),
            out.len() == i,
            forall|k: int| 0 <= k < i ==> model(#[trigger] out@[k]) == model(xs@[k]),
        decreases xs.len() - i,
    {
        out.push(xs[i].clone());
        i += 1;
    }
    proof {
        lemma_models_index(xs@);
        lemma_models_from_elements(out@, models(xs@));
    }
    out
}

/// Top-level file: ordered forms (and comments).
#[derive(Debug, Clone, PartialEq)]
pub struct Document {
    pub forms: Vec<Form>,
}

impl Document {
    pub fn new() -> (out: Self)
        ensures
            out.forms@.len() == 0,
    {
        Document { forms: Vec::new() }
    }

    pub fn push(&mut self, form: Form)
        ensures
            final(self).forms@ == old(self).forms@.push(form),
    {
        self.forms.push(form);
    }

    /// Forms separated by a blank line (a single newline next to comments),
    /// each ending in a newline.
    pub fn render(&self) -> (out: String)
        ensures
            out@ == document_text(self.forms@),
    {
        let mut out = String::new();
        let mut i: usize = 0;
        assert(self.forms@.subrange(0, 0) =~= Seq::<Form>::empty());
        while i < self.forms.len()
            invariant
                i <= self.forms.len(),
                out@ == document_text(self.forms@.subrange(0, i as int)),
            decreases self.forms.len() - i,
        {
            let form = &self.forms[i];
            let is_comment = matches!(form, Form::Comment(_));
            if i > 0 {
                out.push('\n');
                if !is_comment && !matches!(self.forms[i - 1], Form::Comment(_)) {
                    out.push('\n');
                }
            }
            out.push_str(render(form).as_str());
            let ghost after = out@;
            if !is_comment {
                out.push('\n');
            } else if !crate::text::ends_with(out.as_str(), "\n") {
                out.push('\n');
            }
            proof {
                let next = self.forms@.subrange(0, i + 1);
                assert(next.subrange(0, i as int) =~= self.forms@.subrange(0, i as int));
                assert(next[i as int] == self.forms@[i as int]);
                if i > 0 {
                    assert(next.subrange(0, i as int).last() == self.forms@[i - 1]);
                }
                assert(after =~= document_text(self.forms@.subrange(0, i as int)) + form_separator(next)
                    + render_spec(self.forms@[i as int], 0));
                assert(out@ =~= document_text(next));
            }
            i += 1;
        }
        assert(self.forms@.subrange(0, self.forms.len() as int) =~= self.forms@);
        out
    }
}

/// What goes before the last of `fs` in a document: nothing for the first
/// form, a newline next to a comment, else a blank line.
pub open spec fn form_separator(fs: Seq<Form>) -> Seq<char> {
    if fs.len() <= 1 {
        Seq::empty()
    } else if fs.last() is Comment || fs[fs.len() - 2] is Comment {
        seq!['\n']
    } else {
        seq!['\n', '\n']
    }
}

/// The text of a document of forms `fs`: each form printed at column 0
/// after its separator, and each ending in a newline (a comment gets one
/// only when its text has none).
pub open spec fn document_text(fs: Seq<Form>) -> Seq<char>
    decreases fs.len(),
{
    if fs.len() == 0 {
        Seq::empty()
    } else {
        let after = document_text(fs.subrange(0, fs.len() - 1)) + form_separator(fs) + render_spec(fs.last(), 0);
        if !(fs.last() is Comment) || !crate::text::is_suffix("\n"@, after) {
            after + seq!['\n']
        } else {
            after
        }
    }
}

/// What a form means: its text as characters, its children as models.
pub enum FormModel {
    Nil,
    Bool(bool),
    Int(int),
    String(Seq<char>),
    Symbol(Seq<char>),
    Keyword(Seq<char>),
    List(Seq<FormModel>),
    Vector(Seq<FormModel>),
    MapLit(Seq<(FormModel, FormModel)>),
    Comment(Seq<char>),
}

pub open spec fn model(f: Form) -> FormModel
    decreases f,
{
    match f {
        Form::Nil => FormModel::Nil,
        Form::Bool(b) => FormModel::Bool(b),
        Form::Int(n) => FormModel::Int(n as int),
        Form::String(s) => FormModel::String(s@),
        Form::Symbol(s) => FormModel::Symbol(s@),
        Form::Keyword(s) => FormModel::Keyword(s@),
        Form::List(xs) => FormModel::List(models(xs@)),
        Form::Vector(xs) => FormModel::Vector(models(xs@)),
        Form::MapLit(es) => FormModel::MapLit(pair_models(es@)),
        Form::Comment(s) => FormModel::Comment(s@),
    }
}

pub open spec fn models(xs: Seq<Form>) -> Seq<FormModel>
    decreases xs,
{
    if xs.len() == 0 {
        Seq::empty()
    } else {
        seq![model(xs[0])] + models(xs.subrange(1, xs.len() as int))
    }
}

pub open spec fn pair_models(es: Seq<(Form, Form)>) -> Seq<(FormModel, FormModel)>
    decreases es,
{
    if es.len() == 0 {
        Seq::empty()
    } else {
        seq![(model(es[0].0), model(es[0].1))] + pair_models(es.subrange(1, es.len() as int))
    }
}

/// Models are taken element by element.
pub proof fn lemma_models_index(xs: Seq<Form>)
    ensures
        models(xs).len() == xs.len(),
        forall|i: int| 0 <= i < xs.len() ==> (#[trigger] models(xs)[i]) == model(xs[i]),
    decreases xs.len(),
{
    if xs.len() > 0 {
        let rest = xs.subrange(1, xs.len() as int);
        lemma_models_index(rest);
        assert forall|i: int| 0 <= i < xs.len() implies (#[trigger] models(xs)[i]) == model(xs[i]) by {
            if i > 0 {
                assert(models(xs)[i] == models(rest)[i - 1]);
                assert(rest[i - 1] == xs[i]);
            }
        }
    }
}

/// Sequences of forms with the same models elementwise have the same
/// models.
pub proof fn lemma_models_from_elements(xs: Seq<Form>, ms: Seq<FormModel>)
    requires
        xs.len() == ms.len(),
        forall|i: int| 0 <= i < xs.len() ==> model(#[trigger] xs[i]) == ms[i],
    ensures
        models(xs) == ms,
{
    lemma_models_index(xs);
    assert(models(xs) =~= ms);
}

pub proof fn lemma_pair_models_index(es: Seq<(Form, Form)>)
    ensures
        pair_models(es).len() == es.len(),
        forall|i: int| 0 <= i < es.len() ==> (#[trigger] pair_models(es)[i]) == (model(es[i].0), model(es[i].1)),
    decreases es.len(),
{
    if es.len() > 0 {
        let rest = es.subrange(1, es.len() as int);
        lemma_pair_models_index(rest);
        assert forall|i: int| 0 <= i < es.len() implies (#[trigger] pair_models(es)[i]) == (model(es[i].0), model(es[i].1)) by {
            if i > 0 {
                assert(pair_models(es)[i] == pair_models(rest)[i - 1]);
                assert(rest[i - 1] == es[i]);
            }
        }
    }
}

// --- constructors ----------------------------------------------------------

pub fn nil() -> (out: Form)
    ensures
        out == Form::Nil,
{
    Form::Nil
}

pub fn bool(b: bool) -> (out: Form)
    ensures
        out == Form::Bool(b),
{
    Form::Bool(b)
}

pub fn integer(n: i64) -> (out: Form)
    ensures
        out == Form::Int(n),
{
    Form::Int(n)
}

pub fn string(s: &str) -> (out: Form)
    ensures
        out matches Form::String(x) && x@ == s@,
        model(out) == FormModel::String(s@),
{
    Form::String(owned(s))
}

pub fn sym(s: &str) -> (out: Form)
    ensures
        out matches Form::Symbol(x) && x@ == s@,
        model(out) == FormModel::Symbol(s@),
{
    Form::Symbol(owned(s))
}

pub fn kw(s: &str) -> (out: Form)
    ensures
        out matches Form::Keyword(x) && x@ == s@,
        model(out) == FormModel::Keyword(s@),
{
    Form::Keyword(owned(s))
}

pub fn comment(s: &str) -> (out: Form)
    ensures
        out matches Form::Comment(x) && x@ == s@,
{
    Form::Comment(owned(s))
}

pub fn list(xs: Vec<Form>) -> (out: Form)
    ensures
        out == Form::List(xs),
{
    Form::List(xs)
}

pub fn vector(xs: Vec<Form>) -> (out: Form)
    ensures
        out == Form::Vector(xs),
{
    Form::Vector(xs)
}

pub fn map(entries: Vec<(Form, Form)>) -> (out: Form)
    ensures
        out == Form::MapLit(entries),
{
    Form::MapLit(entries)
}

/// `(head a b c …)`
pub fn call(head: &str, args: Vec<Form>) -> (out: Form)
    ensures
        out matches Form::List(xs) && xs@.len() == args@.len() + 1
            && (xs@[0] matches Form::Symbol(h) && h@ == head@)
            && xs@.skip(1) == args@,
        model(out) == FormModel::List(seq![FormModel::Symbol(head@)] + models(args@)),
{
    let mut xs: Vec<Form> = Vec::new();
    xs.push(sym(head));
    let mut args = args;
    let ghost given = args@;
    xs.append(&mut args);
    assert(xs@.skip(1) =~= given);
    proof {
        assert(xs@.subrange(1, xs@.len() as int) =~= given);
        assert(models(xs@) == seq![model(xs@[0])] + models(xs@.subrange(1, xs@.len() as int)));
    }
    Form::List(xs)
}

pub open spec fn is_atom_spec(f: Form) -> bool {
    f is Nil || f is Bool || f is Int || f is String || f is Symbol || f is Keyword
}

impl Form {
    pub fn is_atom(&self) -> (r: bool)
        ensures
            r == is_atom_spec(*self),
    {
        match self {
            Form::Nil | Form::Bool(_) | Form::Int(_) | Form::String(_) | Form::Symbol(_)
            | Form::Keyword(_) => true,
            _ => false,
        }
    }
}

// --- pretty printer --------------------------------------------------------

/// `n` spaces.
pub open spec fn spaces(n: nat) -> Seq<char> {
    Seq::new(n, |_i: int| ' ')
}

/// A deeper indentation, kept where it would overflow.
pub open spec fn deeper(indent: usize, by: usize) -> usize {
    if indent <= usize::MAX - by {
        (indent + by) as usize
    } else {
        indent
    }
}

/// Heads whose lists always print one argument per line.
pub open spec fn is_block_head_spec(h: Seq<char>) -> bool {
    h == "ns"@ || h == "defn"@ || h == "deframaop"@ || h == "defmodule"@ || h == "declare-pstate"@
        || h == "declare-depot"@ || h == "let"@ || h == "cond"@ || h == "do"@ || h == "if"@ || h == "<<if"@
        || h == "<<switch"@ || h == "<<sources"@ || h == "fixed-keys-schema"@ || h == "map-schema"@
}

/// Whether a non-empty list prints as a block: a block head, more than
/// four elements, or a nested list or map among the arguments of a
/// symbol-headed list; with any other head, any element that is not an atom.
pub open spec fn should_block_spec(xs: Seq<Form>) -> bool {
    if xs[0] is Symbol {
        is_block_head_spec(xs[0]->Symbol_0@) || xs.len() > 4 || exists|i: int|
            1 <= i < xs.len() && (#[trigger] xs[i] is List || xs[i] is MapLit) && !is_atom_spec(xs[i])
    } else {
        exists|i: int| 0 <= i < xs.len() && !is_atom_spec(#[trigger] xs[i])
    }
}

/// Short collections of atoms, and atoms.
pub open spec fn is_small_spec(f: Form) -> bool {
    match f {
        Form::List(xs) => xs@.len() <= 3 && forall|i: int| 0 <= i < xs@.len() ==> is_atom_spec(#[trigger] xs@[i]),
        Form::Vector(xs) => xs@.len() <= 3 && forall|i: int| 0 <= i < xs@.len() ==> is_atom_spec(#[trigger] xs@[i]),
        Form::MapLit(es) => es@.len() <= 2 && forall|i: int|
            0 <= i < es@.len() ==> is_atom_spec((#[trigger] es@[i]).0) && is_atom_spec(es@[i].1),
        _ => is_atom_spec(f),
    }
}

/// Forms that may stand on one line inside a one-line collection.
pub open spec fn fits_inline(f: Form) -> bool {
    is_atom_spec(f) || is_small_spec(f)
}

/// Whether a one-line rendering is short enough: at most 80 bytes.
pub open spec fn short_enough(text: Seq<char>) -> bool {
    (vstd::utf8::encode_utf8(text).len() as usize) <= 80
}

/// The text of a form printed at column `indent`: atoms as Clojure writes
/// them, comments as `;;` lines, and collections on one line when they and
/// their elements are small, else one element per line.
pub open spec fn render_spec(f: Form, indent: usize) -> Seq<char>
    decreases f, 2nat,
{
    match f {
        Form::Nil => "nil"@,
        Form::Bool(b) => if b { "true"@ } else { "false"@ },
        Form::Int(n) => decimal(n as int),
        Form::String(s) => debug_quoted(s@),
        Form::Symbol(s) => s@,
        Form::Keyword(k) => seq![':'] + k@,
        Form::Comment(c) => spaces(indent as nat) + if is_prefix(";"@, c@) {
            c@
        } else {
            ";; "@ + c@
        },
        Form::Vector(xs) => delimited_spec('[', ']', xs@, indent, false),
        Form::List(xs) => if xs@.len() == 0 {
            "()"@
        } else if should_block_spec(xs@) {
            block_spec(xs@, indent)
        } else {
            delimited_spec('(', ')', xs@, indent, false)
        },
        Form::MapLit(es) => map_spec(es@, indent),
    }
}

/// The printer tells the two booleans apart: `true` and `false` print as
/// different text at every indentation.
pub proof fn law_booleans_print_apart(indent: usize)
    ensures
        render_spec(Form::Bool(true), indent) != render_spec(Form::Bool(false), indent),
{
    reveal_strlit("true");
    reveal_strlit("false");
    assert("true"@.len() != "false"@.len());
}

/// `xs` printed at column 0 and separated by single spaces.
pub open spec fn inline_items(xs: Seq<Form>) -> Seq<char>
    decreases xs, 0nat,
{
    if xs.len() == 0 {
        Seq::empty()
    } else {
        let init = xs.subrange(0, xs.len() - 1);
        (if init.len() == 0 { Seq::empty() } else { inline_items(init) + seq![' '] }) + render_spec(xs[xs.len() - 1], 0)
    }
}

/// `xs` printed at column `inner` without leading white space, separated
/// by a newline and `inner` spaces.
pub open spec fn stacked_items(xs: Seq<Form>, inner: usize) -> Seq<char>
    decreases xs, 0nat,
{
    if xs.len() == 0 {
        Seq::empty()
    } else {
        let init = xs.subrange(0, xs.len() - 1);
        (if init.len() == 0 { Seq::empty() } else { stacked_items(init, inner) + seq!['\n'] + spaces(inner as nat) })
            + trim_start_seq(render_spec(xs[xs.len() - 1], inner))
    }
}

/// Each of `xs` on a line of its own, at column `inner`.
pub open spec fn block_items(xs: Seq<Form>, inner: usize) -> Seq<char>
    decreases xs, 0nat,
{
    if xs.len() == 0 {
        Seq::empty()
    } else {
        block_items(xs.subrange(0, xs.len() - 1), inner) + seq!['\n'] + spaces(inner as nat) + trim_start_seq(
            render_spec(xs[xs.len() - 1], inner),
        )
    }
}

/// A vector or a plain list: on one line when it fits, else stacked.
pub open spec fn delimited_spec(open: char, close: char, xs: Seq<Form>, indent: usize, force_multi: bool) -> Seq<char>
    decreases xs, 1nat,
{
    if xs.len() == 0 {
        seq![open, close]
    } else {
        let compact = seq![open] + inline_items(xs) + seq![close];
        if !force_multi && short_enough(compact) && forall|i: int| 0 <= i < xs.len() ==> fits_inline(#[trigger] xs[i]) {
            compact
        } else {
            seq![open] + stacked_items(xs, deeper(indent, 2)) + seq![close]
        }
    }
}

/// A block list: the head, a leading atom or vector on its line, and every
/// further element on a line of its own.
pub open spec fn block_spec(xs: Seq<Form>, indent: usize) -> Seq<char>
    decreases xs, 1nat,
{
    if xs.len() == 0 {
        "()"@
    } else if xs.len() == 1 {
        seq!['('] + render_spec(xs[0], 0) + seq![')']
    } else {
        let joined = is_atom_spec(xs[1]) || xs[1] is Vector;
        let rest = if joined { xs.subrange(2, xs.len() as int) } else { xs.subrange(1, xs.len() as int) };
        seq!['('] + render_spec(xs[0], 0) + (if joined { seq![' '] + render_spec(xs[1], 0) } else { Seq::empty() })
            + block_items(rest, deeper(indent, 2)) + seq![')']
    }
}

/// Map entries printed at column 0 as `key value`, separated by spaces.
pub open spec fn inline_entries(es: Seq<(Form, Form)>) -> Seq<char>
    decreases es, 0nat,
{
    if es.len() == 0 {
        Seq::empty()
    } else {
        let init = es.subrange(0, es.len() - 1);
        let e = es[es.len() - 1];
        (if init.len() == 0 { Seq::empty() } else { inline_entries(init) + seq![' '] }) + render_spec(e.0, 0) + seq![' ']
            + render_spec(e.1, 0)
    }
}

/// Map entries one per line at column `inner`.
pub open spec fn stacked_entries(es: Seq<(Form, Form)>, inner: usize) -> Seq<char>
    decreases es, 0nat,
{
    if es.len() == 0 {
        Seq::empty()
    } else {
        let init = es.subrange(0, es.len() - 1);
        let e = es[es.len() - 1];
        (if init.len() == 0 { Seq::empty() } else { stacked_entries(init, inner) + seq!['\n'] + spaces(inner as nat) })
            + render_spec(e.0, inner) + seq![' '] + render_spec(e.1, inner)
    }
}

/// A map literal: on one line when it fits, else one entry per line.
pub open spec fn map_spec(es: Seq<(Form, Form)>, indent: usize) -> Seq<char>
    decreases es, 1nat,
{
    if es.len() == 0 {
        "{}"@
    } else {
        let compact = seq!['{'] + inline_entries(es) + seq!['}'];
        if short_enough(compact) && forall|i: int| 0 <= i < es.len() ==> fits_inline((#[trigger] es[i]).0) && fits_inline(es[i].1) {
            compact
        } else {
            seq!['{'] + stacked_entries(es, deeper(indent, 1)) + seq!['}']
        }
    }
}


/// Text of a form at the top level.
pub fn render(form: &Form) -> (out: String)
    ensures
        out@ == render_spec(*form, 0),
{
    render_at(form, 0)
}

fn more(indent: usize, by: usize) -> (out: usize)
    ensures
        out == deeper(indent, by),
{
    if indent <= usize::MAX - by { indent + by } else { indent }
}

fn pad(n: usize) -> (out: String)
    ensures
        out@ == spaces(n as nat),
{
    let mut out = String::new();
    let mut i: usize = 0;
    while i < n
        invariant
            i <= n,
            out@ == spaces(i as nat),
        decreases n - i,
    {
        out.push(' ');
        i += 1;
        assert(out@ =~= spaces(i as nat));
    }
    out
}

/// `s` without leading white space.
fn trim_start(s: &str) -> (out: String)
    ensures
        out@ == trim_start_seq(s@),
{
    let cs = chars_of(s);
    let start = skip_white_space(cs.as_slice(), 0);
    assert(s@.skip(0) =~= s@);
    let out = substring(cs.as_slice(), start, cs.len());
    assert(s@.skip(start as int) =~= s@.subrange(start as int, s@.len() as int));
    out
}

fn render_at(form: &Form, indent: usize) -> (out: String)
    ensures
        out@ == render_spec(*form, indent),
    decreases form, 1nat,
{
    match form {
        Form::Nil => owned("nil"),
        Form::Bool(b) => if *b { owned("true") } else { owned("false") },
        Form::Int(n) => i64_to_string(*n),
        Form::String(s) => debug_quote(s.as_str()),
        Form::Symbol(s) => s.clone(),
        Form::Keyword(k) => {
            let mut out = String::new();
            out.push(':');
            out.push_str(k.as_str());
            assert(out@ =~= seq![':'] + k@);
            out
        }
        Form::Comment(c) => {
            let mut out = pad(indent);
            if crate::text::starts_with(c.as_str(), ";") {
                out.push_str(c.as_str());
            } else {
                out.push_str(";; ");
                out.push_str(c.as_str());
                assert(out@ =~= spaces(indent as nat) + (";; "@ + c@));
            }
            out
        }
        Form::Vector(xs) => render_delimited('[', ']', xs, indent, false),
        Form::List(xs) => render_list(xs, indent),
        Form::MapLit(entries) => render_map(entries, indent),
    }
}

fn render_list(xs: &Vec<Form>, indent: usize) -> (out: String)
    ensures
        out@ == render_spec(Form::List(*xs), indent),
    decreases xs, 1nat,
{
    if xs.len() == 0 {
        return owned("()");
    }
    if should_block_list(xs) {
        render_block_list(xs, indent)
    } else {
        render_delimited('(', ')', xs, indent, false)
    }
}

fn is_block_head(head: &str) -> (r: bool)
    ensures
        r == is_block_head_spec(head@),
{
    str_eq(head, "ns") || str_eq(head, "defn") || str_eq(head, "deframaop")
        || str_eq(head, "defmodule") || str_eq(head, "declare-pstate")
        || str_eq(head, "declare-depot") || str_eq(head, "let") || str_eq(head, "cond")
        || str_eq(head, "do") || str_eq(head, "if") || str_eq(head, "<<if")
        || str_eq(head, "<<switch") || str_eq(head, "<<sources")
        || str_eq(head, "fixed-keys-schema") || str_eq(head, "map-schema")
}

#[verifier::loop_isolation(false)]
fn should_block_list(xs: &Vec<Form>) -> (r: bool)
    requires
        xs.len() > 0,
    ensures
        r == should_block_spec(xs@),
{
    match &xs[0] {
        Form::Symbol(head) => {
            if is_block_head(head.as_str()) || xs.len() > 4 {
                return true;
            }
            let mut i: usize = 1;
            while i < xs.len()
                invariant
                    1 <= i <= xs.len(),
                    forall|j: int| 1 <= j < i ==> !((#[trigger] xs@[j] is List || xs@[j] is MapLit) && !is_atom_spec(xs@[j])),
                decreases xs.len() - i,
            {
                let x = &xs[i];
                if matches!(x, Form::List(_) | Form::MapLit(_)) && !x.is_atom() {
                    return true;
                }
                i += 1;
            }
            false
        }
        _ => {
            let mut i: usize = 0;
            while i < xs.len()
                invariant
                    i <= xs.len(),
                    forall|j: int| 0 <= j < i ==> is_atom_spec(#[trigger] xs@[j]),
                decreases xs.len() - i,
            {
                if !xs[i].is_atom() {
                    assert(!is_atom_spec(xs@[i as int]));
                    return true;
                }
                i += 1;
            }
            false
        }
    }
}

#[verifier::loop_isolation(false)]
fn render_block_list(xs: &Vec<Form>, indent: usize) -> (out: String)
    requires
        xs.len() > 0,
    ensures
        out@ == block_spec(xs@, indent),
    decreases xs, 0nat,
{
    let inner = pad(more(indent, 2));
    let head = render_at(&xs[0], 0);
    if xs.len() == 1 {
        let mut out = String::new();
        out.push('(');
        out.push_str(head.as_str());
        out.push(')');
        assert(out@ =~= seq!['('] + render_spec(xs@[0], 0) + seq![')']);
        return out;
    }
    let mut out = String::new();
    out.push('(');
    out.push_str(head.as_str());
    let mut i: usize = 1;
    let first = &xs[1];
    if first.is_atom() || matches!(first, Form::Vector(_)) {
        out.push(' ');
        out.push_str(render_at(first, 0).as_str());
        i = 2;
    }
    let ghost start = i as int;
    let ghost opened = out@;
    assert(opened =~= seq!['('] + render_spec(xs@[0], 0) + (if start == 2 { seq![' '] + render_spec(xs@[1], 0) } else { Seq::empty() }));
    assert(out@ =~= opened + block_items(xs@.subrange(start, i as int), deeper(indent, 2)));
    while i < xs.len()
        invariant
            start <= i <= xs.len(),
            out@ == opened + block_items(xs@.subrange(start, i as int), deeper(indent, 2)),
        decreases xs.len() - i,
    {
        out.push('\n');
        out.push_str(inner.as_str());
        let text = render_at(&xs[i], more(indent, 2));
        out.push_str(trim_start(text.as_str()).as_str());
        proof {
            let next = xs@.subrange(start, i + 1);
            assert(next.subrange(0, next.len() - 1) =~= xs@.subrange(start, i as int));
            assert(next[next.len() - 1] == xs@[i as int]);
            assert(out@ =~= opened + block_items(next, deeper(indent, 2)));
        }
        i += 1;
    }
    out.push(')');
    proof {
        assert(xs@.subrange(start, xs.len() as int) == (if start == 2 { xs@.subrange(2, xs.len() as int) } else { xs@.subrange(1, xs.len() as int) }));
        assert(out@ =~= block_spec(xs@, indent));
    }
    out
}

fn str_byte_len(s: &String) -> (n: usize)
    ensures
        n == vstd::utf8::encode_utf8(s@).len() as usize,
{
    s.as_str().len()
}

#[verifier::loop_isolation(false)]
fn is_small(form: &Form) -> (r: bool)
    ensures
        r == is_small_spec(*form),
{
    match form {
        Form::List(xs) | Form::Vector(xs) => {
            if xs.len() > 3 {
                return false;
            }
            let mut i: usize = 0;
            while i < xs.len()
                invariant
                    i <= xs.len(),
                    forall|j: int| 0 <= j < i ==> is_atom_spec(#[trigger] xs@[j]),
                decreases xs.len() - i,
            {
                if !xs[i].is_atom() {
                    assert(!is_atom_spec(xs@[i as int]));
                    return false;
                }
                i += 1;
            }
            true
        }
        Form::MapLit(es) => {
            if es.len() > 2 {
                return false;
            }
            let mut i: usize = 0;
            while i < es.len()
                invariant
                    i <= es.len(),
                    forall|j: int| 0 <= j < i ==> is_atom_spec((#[trigger] es@[j]).0) && is_atom_spec(es@[j].1),
                decreases es.len() - i,
            {
                if !es[i].0.is_atom() || !es[i].1.is_atom() {
                    assert(!(is_atom_spec(es@[i as int].0) && is_atom_spec(es@[i as int].1)));
                    return false;
                }
                i += 1;
            }
            true
        }
        _ => form.is_atom(),
    }
}

#[verifier::loop_isolation(false)]
fn render_delimited(open: char, close: char, xs: &Vec<Form>, indent: usize, force_multi: bool) -> (out: String)
    ensures
        out@ == delimited_spec(open, close, xs@, indent, force_multi),
    decreases xs, 0nat,
{
    if xs.len() == 0 {
        let mut out = String::new();
        out.push(open);
        out.push(close);
        assert(out@ =~= seq![open, close]);
        return out;
    }
    let mut compact = String::new();
    compact.push(open);
    let mut all_small = true;
    let mut i: usize = 0;
    assert(compact@ =~= seq![open] + inline_items(xs@.subrange(0, 0)));
    while i < xs.len()
        invariant
            i <= xs.len(),
            compact@ == seq![open] + inline_items(xs@.subrange(0, i as int)),
            all_small == forall|j: int| 0 <= j < i ==> fits_inline(#[trigger] xs@[j]),
        decreases xs.len() - i,
    {
        if i > 0 {
            compact.push(' ');
        }
        compact.push_str(render_at(&xs[i], 0).as_str());
        if !(xs[i].is_atom() || is_small(&xs[i])) {
            all_small = false;
        }
        proof {
            let next = xs@.subrange(0, i + 1);
            assert(next.subrange(0, i as int) =~= xs@.subrange(0, i as int));
            assert(next[i as int] == xs@[i as int]);
            assert(compact@ =~= seq![open] + inline_items(next));
            if !fits_inline(xs@[i as int]) {
                assert(!(forall|j: int| 0 <= j < i + 1 ==> fits_inline(#[trigger] xs@[j])));
            }
        }
        i += 1;
    }
    compact.push(close);
    proof {
        assert(xs@.subrange(0, xs.len() as int) =~= xs@);
        assert(compact@ =~= seq![open] + inline_items(xs@) + seq![close]);
    }
    if !force_multi && str_byte_len(&compact) <= 80 && all_small {
        return compact;
    }
    let inner = pad(more(indent, 2));
    let mut out = String::new();
    out.push(open);
    let mut j: usize = 0;
    assert(out@ =~= seq![open] + stacked_items(xs@.subrange(0, 0), deeper(indent, 2)));
    while j < xs.len()
        invariant
            j <= xs.len(),
            out@ == seq![open] + stacked_items(xs@.subrange(0, j as int), deeper(indent, 2)),
        decreases xs.len() - j,
    {
        if j > 0 {
            out.push('\n');
            out.push_str(inner.as_str());
        }
        let text = render_at(&xs[j], more(indent, 2));
        out.push_str(trim_start(text.as_str()).as_str());
        proof {
            let next = xs@.subrange(0, j + 1);
            assert(next.subrange(0, j as int) =~= xs@.subrange(0, j as int));
            assert(next[j as int] == xs@[j as int]);
            assert(out@ =~= seq![open] + stacked_items(next, deeper(indent, 2)));
        }
        j += 1;
    }
    out.push(close);
    assert(out@ =~= seq![open] + stacked_items(xs@, deeper(indent, 2)) + seq![close]);
    out
}

#[verifier::loop_isolation(false)]
fn render_map(entries: &Vec<(Form, Form)>, indent: usize) -> (out: String)
    ensures
        out@ == map_spec(entries@, indent),
    decreases entries, 0nat,
{
    if entries.len() == 0 {
        return owned("{}");
    }
    let mut compact = String::new();
    compact.push('{');
    let mut all_small = true;
    let mut i: usize = 0;
    assert(compact@ =~= seq!['{'] + inline_entries(entries@.subrange(0, 0)));
    while i < entries.len()
        invariant
            i <= entries.len(),
            compact@ == seq!['{'] + inline_entries(entries@.subrange(0, i as int)),
            all_small == forall|j: int| 0 <= j < i ==> fits_inline((#[trigger] entries@[j]).0) && fits_inline(entries@[j].1),
        decreases entries.len() - i,
    {
        if i > 0 {
            compact.push(' ');
        }
        let (k, v) = (&entries[i].0, &entries[i].1);
        compact.push_str(render_at(k, 0).as_str());
        compact.push(' ');
        compact.push_str(render_at(v, 0).as_str());
        if !((k.is_atom() || is_small(k)) && (v.is_atom() || is_small(v))) {
            all_small = false;
        }
        proof {
            let next = entries@.subrange(0, i + 1);
            assert(next.subrange(0, i as int) =~= entries@.subrange(0, i as int));
            assert(next[i as int] == entries@[i as int]);
            assert(compact@ =~= seq!['{'] + inline_entries(next));
            if !(fits_inline(entries@[i as int].0) && fits_inline(entries@[i as int].1)) {
                assert(!(forall|j: int| 0 <= j < i + 1 ==> fits_inline((#[trigger] entries@[j]).0) && fits_inline(entries@[j].1)));
            }
        }
        i += 1;
    }
    compact.push('}');
    proof {
        assert(entries@.subrange(0, entries.len() as int) =~= entries@);
        assert(compact@ =~= seq!['{'] + inline_entries(entries@) + seq!['}']);
    }
    if str_byte_len(&compact) <= 80 && all_small {
        return compact;
    }
    let inner = pad(more(indent, 1));
    let mut out = String::new();
    out.push('{');
    let mut j: usize = 0;
    assert(out@ =~= seq!['{'] + stacked_entries(entries@.subrange(0, 0), deeper(indent, 1)));
    while j < entries.len()
        invariant
            j <= entries.len(),
            out@ == seq!['{'] + stacked_entries(entries@.subrange(0, j as int), deeper(indent, 1)),
        decreases entries.len() - j,
    {
        if j > 0 {
            out.push('\n');
            out.push_str(inner.as_str());
        }
        out.push_str(render_at(&entries[j].0, more(indent, 1)).as_str());
        out.push(' ');
        out.push_str(render_at(&entries[j].1, more(indent, 1)).as_str());
        proof {
            let next = entries@.subrange(0, j + 1);
            assert(next.subrange(0, j as int) =~= entries@.subrange(0, j as int));
            assert(next[j as int] == entries@[j as int]);
            assert(out@ =~= seq!['{'] + stacked_entries(next, deeper(indent, 1)));
        }
        j += 1;
    }
    out.push('}');
    assert(out@ =~= seq!['{'] + stacked_entries(entries@, deeper(indent, 1)) + seq!['}']);
    out
}

pub proof fn lemma_models_push(xs: Seq<Form>, x: Form)
    ensures
        models(xs.push(x)) == models(xs).push(model(x)),
{
    lemma_models_index(xs);
    lemma_models_index(xs.push(x));
    assert(models(xs.push(x)) =~= models(xs).push(model(x)));
}

/// `(head a)`.
pub fn call1(head: &str, a: Form) -> (out: Form)
    ensures
        model(out) == FormModel::List(seq![FormModel::Symbol(head@), model(a)]),
{
    let mut args: Vec<Form> = Vec::new();
    args.push(a);
    proof {
        lemma_models_from_elements(args@, seq![model(a)]);
        assert(seq![FormModel::Symbol(head@)] + seq![model(a)] =~= seq![FormModel::Symbol(head@), model(a)]);
    }
    call(head, args)
}

/// `(head a b)`.
pub fn call2(head: &str, a: Form, b: Form) -> (out: Form)
    ensures
        model(out) == FormModel::List(seq![FormModel::Symbol(head@), model(a), model(b)]),
{
    let mut args: Vec<Form> = Vec::new();
    args.push(a);
    args.push(b);
    proof {
        assert(args@ =~= seq![a, b]);
        lemma_models_from_elements(args@, seq![model(a), model(b)]);
        assert(seq![FormModel::Symbol(head@)] + seq![model(a), model(b)] =~= seq![FormModel::Symbol(head@), model(a), model(b)]);
    }
    call(head, args)
}

/// `(head a b c)`.
pub fn call3(head: &str, a: Form, b: Form, c: Form) -> (out: Form)
    ensures
        model(out) == FormModel::List(seq![FormModel::Symbol(head@), model(a), model(b), model(c)]),
{
    let mut args: Vec<Form> = Vec::new();
    args.push(a);
    args.push(b);
    args.push(c);
    proof {
        assert(args@ =~= seq![a, b, c]);
        lemma_models_from_elements(args@, seq![model(a), model(b), model(c)]);
        assert(seq![FormModel::Symbol(head@)] + seq![model(a), model(b), model(c)] =~= seq![
            FormModel::Symbol(head@),
            model(a),
            model(b),
            model(c),
        ]);
    }
    call(head, args)
}

/// `(fn [param] body)`.
pub fn lambda1(param: &str, body: Form) -> (out: Form)
    ensures
        model(out) == FormModel::List(
            seq![FormModel::Symbol("fn"@), FormModel::Vector(seq![FormModel::Symbol(param@)]), model(body)],
        ),
{
    let mut params: Vec<Form> = Vec::new();
    params.push(sym(param));
    let ps = vector(params);
    proof {
        lemma_models_from_elements(ps->Vector_0@, seq![FormModel::Symbol(param@)]);
    }
    let mut xs: Vec<Form> = Vec::new();
    xs.push(sym("fn"));
    xs.push(ps);
    xs.push(body);
    proof {
        lemma_models_from_elements(
            xs@,
            seq![FormModel::Symbol("fn"@), FormModel::Vector(seq![FormModel::Symbol(param@)]), model(body)],
        );
    }
    list(xs)
}

} // verus!
