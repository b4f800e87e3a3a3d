//! Parse and check diagnostics.

use vstd::prelude::*;
use crate::span::{byte_len, Span};
use crate::text::{chars_of, decimal_digits, trim_end, trim_end_seq, usize_to_string};

verus! {

#[derive(Debug, Clone, PartialEq, Eq)]
pub struct Diagnostic {
    pub message: String,
    pub span: Span,
    pub kind: DiagnosticKind,
}

#[derive(Debug, Clone, Copy, PartialEq, Eq, Structural)]
pub enum DiagnosticKind {
    Lex,
    Parse,
    Type,
    Rule,
}

/// The word a diagnostic of this kind is labelled with.
pub open spec fn kind_word(kind: DiagnosticKind) -> Seq<char> {
    match kind {
        DiagnosticKind::Lex => "lex"@,
        DiagnosticKind::Parse => "parse"@,
        DiagnosticKind::Type => "type"@,
        DiagnosticKind::Rule => "rule"@,
    }
}

fn kind_label(kind: DiagnosticKind) -> (out: &'static str)
    ensures
        out@ == kind_word(kind),
{
    match kind {
        DiagnosticKind::Lex => "lex",
        DiagnosticKind::Parse => "parse",
        DiagnosticKind::Type => "type",
        DiagnosticKind::Rule => "rule",
    }
}

/// 1-based line and column of byte `offset`: every character that starts
/// before `offset` advances the column, a newline advances the line.
pub open spec fn line_col(s: Seq<char>, offset: int) -> (int, int)
    decreases s.len(),
{
    if s.len() == 0 {
        (1, 1)
    } else {
        let (line, col) = line_col(s.drop_last(), offset);
        if (byte_len(s.drop_last()) as int) < offset {
            if s.last() == '\n' {
                (line + 1, 1)
            } else {
                (line, col + 1)
            }
        } else {
            (line, col)
        }
    }
}

proof fn lemma_line_col_bounds(s: Seq<char>, offset: int)
    ensures
        1 <= line_col(s, offset).0 <= s.len() + 1,
        1 <= line_col(s, offset).1 <= s.len() + 1,
    decreases s.len(),
{
    if s.len() > 0 {
        lemma_line_col_bounds(s.drop_last(), offset);
    }
}

fn offset_to_line_col(src: &Vec<char>, offset: usize) -> (out: (usize, usize))
    requires
        src@.len() < usize::MAX,
    ensures
        out.0 == line_col(src@, offset as int).0,
        out.1 == line_col(src@, offset as int).1,
{
    let mut line: usize = 1;
    let mut col: usize = 1;
    let mut i: usize = 0;
    let mut at: u128 = 0;
    while i < src.len()
        invariant
            src@.len() < usize::MAX,
            i <= src.len(),
            at <= 4 * i,
            at == byte_len(src@.take(i as int)),
            (line as int, col as int) == line_col(src@.take(i as int), offset as int),
        decreases src.len() - i,
    {
        proof {
            lemma_line_col_bounds(src@.take(i as int), offset as int);
        }
        assert(src@.take(i + 1).drop_last() =~= src@.take(i as int));
        let ch = src[i];
        if at < offset as u128 {
            if ch == '\n' {
                line = line + 1;
                col = 1;
            } else {
                col = col + 1;
            }
        }
        at = at + crate::span::char_utf8_len(ch) as u128;
        i += 1;
    }
    assert(src@.take(src.len() as int) =~= src@);
    (line, col)
}

/// Number of `\n` characters in `s`.
pub open spec fn newlines(s: Seq<char>) -> int
    decreases s.len(),
{
    if s.len() == 0 {
        0
    } else {
        newlines(s.drop_last()) + if s.last() == '\n' { 1int } else { 0int }
    }
}

/// Line `n` (0-based) of `s`: the characters other than `\n` that exactly
/// `n` newlines precede. A line past the last is empty.
pub open spec fn nth_line(s: Seq<char>, n: int) -> Seq<char>
    decreases s.len(),
{
    if s.len() == 0 {
        Seq::empty()
    } else {
        let prev = nth_line(s.drop_last(), n);
        if newlines(s.drop_last()) == n && s.last() != '\n' {
            prev.push(s.last())
        } else {
            prev
        }
    }
}

/// The `n`-th line (0-based) of `src`, with trailing white space removed.
fn line_text(src: &Vec<char>, n: usize) -> (out: String)
    ensures
        out@ == trim_end_seq(nth_line(src@, n as int)),
{
    let mut line = String::new();
    let mut seen: usize = 0;
    let mut i: usize = 0;
    while i < src.len()
        invariant
            i <= src.len(),
            seen as int == newlines(src@.take(i as int)),
            seen <= i,
            line@ == nth_line(src@.take(i as int), n as int),
        decreases src.len() - i,
    {
        assert(src@.take(i + 1).drop_last() =~= src@.take(i as int));
        let c = src[i];
        if c == '\n' {
            seen = seen + 1;
        } else if seen == n {
            line.push(c);
        }
        i += 1;
    }
    assert(src@.take(src.len() as int) =~= src@);
    trim_end(line.as_str())
}

/// `kind at start..end: message`.
pub open spec fn diagnostic_line(d: Diagnostic) -> Seq<char> {
    kind_word(d.kind) + " at "@ + decimal_digits(d.span.start as nat) + seq!['.', '.'] + decimal_digits(
        d.span.end as nat,
    ) + seq![':', ' '] + d.message@
}

impl Diagnostic {
    pub fn lex(span: Span, message: String) -> (out: Self)
        ensures
            out.span == span,
            out.message == message,
            out.kind == DiagnosticKind::Lex,
    {
        Diagnostic { message, span, kind: DiagnosticKind::Lex }
    }

    pub fn parse(span: Span, message: String) -> (out: Self)
        ensures
            out.span == span,
            out.message == message,
            out.kind == DiagnosticKind::Parse,
    {
        Diagnostic { message, span, kind: DiagnosticKind::Parse }
    }

    pub fn type_error(span: Span, message: String) -> (out: Self)
        ensures
            out.span == span,
            out.message == message,
            out.kind == DiagnosticKind::Type,
    {
        Diagnostic { message, span, kind: DiagnosticKind::Type }
    }

    pub fn rule(span: Span, message: String) -> (out: Self)
        ensures
            out.span == span,
            out.message == message,
            out.kind == DiagnosticKind::Rule,
    {
        Diagnostic { message, span, kind: DiagnosticKind::Rule }
    }

    /// `kind:line:col: kind: message` followed by the source line.
    pub fn render(&self, src: &str) -> (out: String)
        requires
            src@.len() < usize::MAX,
        ensures
            ({
                let (line, col) = line_col(src@, self.span.start as int);
                out@ == kind_word(self.kind) + seq![':'] + decimal_digits(line as nat) + seq![':']
                    + decimal_digits(col as nat) + seq![':', ' '] + kind_word(self.kind)
                    + seq![':', ' '] + self.message@ + seq!['\n', ' ', ' ']
                    + trim_end_seq(nth_line(src@, line - 1))
            }),
    {
        let cs = chars_of(src);
        let (line, col) = offset_to_line_col(&cs, self.span.start);
        proof {
            lemma_line_col_bounds(src@, self.span.start as int);
        }
        let text = line_text(&cs, line - 1);
        let label = kind_label(self.kind);
        let mut out = String::new();
        out.push_str(label);
        out.push(':');
        out.push_str(usize_to_string(line).as_str());
        out.push(':');
        out.push_str(usize_to_string(col).as_str());
        out.push(':');
        out.push(' ');
        out.push_str(label);
        out.push(':');
        out.push(' ');
        out.push_str(self.message.as_str());
        out.push('\n');
        out.push(' ');
        out.push(' ');
        out.push_str(text.as_str());
        out
    }

    /// `kind at start..end: message`, the one-line form of a diagnostic.
    pub fn display_string(&self) -> (out: String)
        ensures
            out@ == diagnostic_line(*self),
    {
        let mut out = String::new();
        out.push_str(kind_label(self.kind));
        out.push_str(" at ");
        out.push_str(self.span.display_string().as_str());
        out.push(':');
        out.push(' ');
        out.push_str(self.message.as_str());
        out
    }
}

#[derive(Debug, Clone, PartialEq, Eq)]
pub struct ParseError {
    pub diagnostics: Vec<Diagnostic>,
}

impl ParseError {
    pub fn one(diag: Diagnostic) -> (out: Self)
        ensures
            out.diagnostics@ == seq![diag],
    {
        let mut diagnostics = Vec::new();
        diagnostics.push(diag);
        ParseError { diagnostics }
    }

    /// The diagnostics' one-line forms, one per line.
    pub fn display_string(&self) -> (out: String)
        ensures
            out@ == crate::text::join_seq(self.diagnostics@.map_values(|d: Diagnostic| diagnostic_line(d)), seq!['\n']),
    {
        let mut out = String::new();
        let mut i: usize = 0;
        while i < self.diagnostics.len()
            invariant
                i <= self.diagnostics.len(),
                out@ == crate::text::join_seq(
                    self.diagnostics@.take(i as int).map_values(|d: Diagnostic| diagnostic_line(d)),
                    seq!['\n'],
                ),
            decreases self.diagnostics.len() - i,
        {
            proof {
                let lines = self.diagnostics@.take(i + 1).map_values(|d: Diagnostic| diagnostic_line(d));
                assert(lines.drop_last() =~= self.diagnostics@.take(i as int).map_values(|d: Diagnostic| diagnostic_line(d)));
                if i == 0 {
                    assert(out@ =~= Seq::<char>::empty());
                }
            }
            if i > 0 {
                out.push('\n');
            }
            out.push_str(self.diagnostics[i].display_string().as_str());
            i += 1;
        }
        assert(self.diagnostics@.take(i as int) =~= self.diagnostics@);
        out
    }
}

} // verus!
