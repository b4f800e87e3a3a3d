//! .rama v2 lexer: longest match over the token rules, whitespace and
//! comments skipped.

use vstd::prelude::*;
use crate::error::{Diagnostic, ParseError};
use crate::span::{byte_len, Span};
use crate::text::{chars_of, debug_quote, is_ascii_alnum, is_ascii_alnum_spec, is_ascii_alpha, is_ascii_digit, is_ascii_digit_spec, occurs_at, owned, seq_occurs_at, str_eq, substring};

verus! {

pub type SpannedToken = (TokenKind, Span);

#[derive(Debug, Clone, PartialEq, Eq, Hash)]
pub enum TokenKind {
    Module,
    Struct,
    PState,
    Depot,
    Op,
    Fn,
    Extern,
    Let,
    Fail,
    Return,
    If,
    Else,
    KeyedBy,
    MapKw,
    Object,
    Bool(bool),
    ArrowTransform,
    ArrowSelect,
    ThinArrow,
    EqEq,
    NotEq,
    Ge,
    Eq,
    Question,
    At,
    Dot,
    Slash,
    Plus,
    Union,
    LParen,
    RParen,
    LBrace,
    RBrace,
    LBracket,
    RBracket,
    Comma,
    Semicolon,
    Colon,
    Lt,
    /// Bind pipe after select, generic close, and callee `>` in `>(a, b)`.
    Gt,
    PStateRef(String),
    Keyword(String),
    Pipe(String),
    String(String),
    Int(i64),
    Ident(String),
}

/// Byte offsets of every character boundary of `cs`.
pub open spec fn offsets_ok(cs: Seq<char>, offs: Seq<usize>) -> bool {
    &&& offs.len() == cs.len() + 1
    &&& forall|k: int| 0 <= k <= cs.len() ==> offs[k] == byte_len(cs.take(k))
}

/// Tokens in source order: each span is non-empty, inside `[0, n]`, and
/// ends no later than the next begins.
pub open spec fn tokens_ordered(toks: Seq<SpannedToken>, n: nat) -> bool {
    &&& forall|k: int| 0 <= k < toks.len() ==> (#[trigger] toks[k]).1.start < toks[k].1.end <= n
    &&& forall|a: int, b: int| 0 <= a < b < toks.len() ==> (#[trigger] toks[a]).1.end <= (#[trigger] toks[b]).1.start
}

proof fn lemma_byte_len_step(cs: Seq<char>, k: int)
    requires
        0 <= k < cs.len(),
    ensures
        byte_len(cs.take(k + 1)) > byte_len(cs.take(k)),
{
    assert(cs.take(k + 1).drop_last() =~= cs.take(k));
}

proof fn lemma_byte_len_le(cs: Seq<char>, a: int, b: int)
    requires
        0 <= a <= b <= cs.len(),
    ensures
        byte_len(cs.take(a)) <= byte_len(cs.take(b)),
        a < b ==> byte_len(cs.take(a)) < byte_len(cs.take(b)),
    decreases b - a,
{
    if a < b {
        lemma_byte_len_le(cs, a, b - 1);
        lemma_byte_len_step(cs, b - 1);
    }
}

pub fn char_offsets(src: &str, cs: &Vec<char>) -> (offs: Vec<usize>)
    requires
        cs@ == src@,
    ensures
        offsets_ok(cs@, offs@),
{
    crate::span::byte_len_fits(src);
    let mut offs: Vec<usize> = Vec::new();
    offs.push(0);
    assert(cs@.take(0).len() == 0);
    let mut i: usize = 0;
    while i < cs.len()
        invariant
            cs@ == src@,
            byte_len(src@) <= usize::MAX,
            i <= cs.len(),
            offs.len() == i + 1,
            forall|k: int| 0 <= k <= i ==> offs@[k] == byte_len(cs@.take(k)),
        decreases cs.len() - i,
    {
        proof {
            lemma_byte_len_le(cs@, i + 1, cs@.len() as int);
            assert(cs@.take(cs@.len() as int) =~= cs@);
            assert(cs@.take(i + 1).drop_last() =~= cs@.take(i as int));
        }
        let w = crate::span::char_utf8_len(cs[i]);
        let next = offs[i] + w;
        offs.push(next);
        i += 1;
    }
    offs
}

fn is_ident_start(c: char) -> (r: bool)
    ensures
        r == (crate::text::is_ascii_alpha_spec(c) || c == '_'),
{
    is_ascii_alpha(c) || c == '_'
}

fn is_ident_body(c: char) -> (r: bool)
    ensures
        r == (is_ascii_alnum_spec(c) || c == '_' || c == '?'),
{
    is_ascii_alnum(c) || c == '_' || c == '?'
}

fn is_word(c: char) -> (r: bool)
    ensures
        r == (is_ascii_alnum_spec(c) || c == '_'),
{
    is_ascii_alnum(c) || c == '_'
}

/// End of the identifier `[A-Za-z_][A-Za-z0-9_?]*(-[A-Za-z0-9_?]+)*` at `i`.
fn ident_end(cs: &Vec<char>, i: usize) -> (r: usize)
    requires
        i < cs.len(),
    ensures
        i < r <= cs.len(),
        r == ident_end_spec(cs@, i + 1),
{
    let mut j = i + 1;
    while j < cs.len()
        invariant
            i < j <= cs.len(),
            ident_end_spec(cs@, j as int) == ident_end_spec(cs@, i + 1),
        decreases cs.len() - j,
    {
        if is_ident_body(cs[j]) {
            j += 1;
        } else if cs[j] == '-' && j + 1 < cs.len() && is_ident_body(cs[j + 1]) {
            j += 2;
        } else {
            assert(ident_end_spec(cs@, j as int) == j);
            return j;
        }
    }
    j
}

/// End of `[\w-]*` (or `[\w.-]*` when `dots`) starting at `i`.
fn word_end(cs: &Vec<char>, i: usize, dots: bool) -> (r: usize)
    requires
        i <= cs.len(),
    ensures
        i <= r <= cs.len(),
        r == word_end_spec(cs@, i as int, dots),
{
    let mut j = i;
    while j < cs.len() && (is_word(cs[j]) || cs[j] == '-' || (dots && cs[j] == '.'))
        invariant
            i <= j <= cs.len(),
            word_end_spec(cs@, j as int, dots) == word_end_spec(cs@, i as int, dots),
        decreases cs.len() - j,
    {
        j += 1;
    }
    j
}

/// The token of a reserved word or of `true` / `false`.
pub open spec fn keyword_spec(t: Seq<char>) -> Option<TokenKind> {
    if t == "module"@ {
        Some(TokenKind::Module)
    } else if t == "struct"@ {
        Some(TokenKind::Struct)
    } else if t == "pstate"@ {
        Some(TokenKind::PState)
    } else if t == "depot"@ {
        Some(TokenKind::Depot)
    } else if t == "op"@ {
        Some(TokenKind::Op)
    } else if t == "fn"@ {
        Some(TokenKind::Fn)
    } else if t == "extern"@ {
        Some(TokenKind::Extern)
    } else if t == "let"@ {
        Some(TokenKind::Let)
    } else if t == "fail"@ {
        Some(TokenKind::Fail)
    } else if t == "return"@ {
        Some(TokenKind::Return)
    } else if t == "if"@ {
        Some(TokenKind::If)
    } else if t == "else"@ {
        Some(TokenKind::Else)
    } else if t == "keyed-by"@ {
        Some(TokenKind::KeyedBy)
    } else if t == "Map"@ {
        Some(TokenKind::MapKw)
    } else if t == "Object"@ {
        Some(TokenKind::Object)
    } else if t == "true"@ {
        Some(TokenKind::Bool(true))
    } else if t == "false"@ {
        Some(TokenKind::Bool(false))
    } else {
        None
    }
}

proof fn lemma_keyword_literals()
    ensures
        "module"@.len() == 6,
        "module"@[0] == 'm',
        "module"@[1] == 'o',
        "module"@[2] == 'd',
        "struct"@.len() == 6,
        "struct"@[0] == 's',
        "struct"@[1] == 't',
        "struct"@[2] == 'r',
        "pstate"@.len() == 6,
        "pstate"@[0] == 'p',
        "pstate"@[1] == 's',
        "pstate"@[2] == 't',
        "depot"@.len() == 5,
        "depot"@[0] == 'd',
        "depot"@[1] == 'e',
        "depot"@[2] == 'p',
        "op"@.len() == 2,
        "op"@[0] == 'o',
        "op"@[1] == 'p',
        "fn"@.len() == 2,
        "fn"@[0] == 'f',
        "fn"@[1] == 'n',
        "extern"@.len() == 6,
        "extern"@[0] == 'e',
        "extern"@[1] == 'x',
        "extern"@[2] == 't',
        "let"@.len() == 3,
        "let"@[0] == 'l',
        "let"@[1] == 'e',
        "let"@[2] == 't',
        "fail"@.len() == 4,
        "fail"@[0] == 'f',
        "fail"@[1] == 'a',
        "fail"@[2] == 'i',
        "return"@.len() == 6,
        "return"@[0] == 'r',
        "return"@[1] == 'e',
        "return"@[2] == 't',
        "if"@.len() == 2,
        "if"@[0] == 'i',
        "if"@[1] == 'f',
        "else"@.len() == 4,
        "else"@[0] == 'e',
        "else"@[1] == 'l',
        "else"@[2] == 's',
        "keyed-by"@.len() == 8,
        "keyed-by"@[0] == 'k',
        "keyed-by"@[1] == 'e',
        "keyed-by"@[2] == 'y',
        "Map"@.len() == 3,
        "Map"@[0] == 'M',
        "Map"@[1] == 'a',
        "Map"@[2] == 'p',
        "Object"@.len() == 6,
        "Object"@[0] == 'O',
        "Object"@[1] == 'b',
        "Object"@[2] == 'j',
        "true"@.len() == 4,
        "true"@[0] == 't',
        "true"@[1] == 'r',
        "true"@[2] == 'u',
        "false"@.len() == 5,
        "false"@[0] == 'f',
        "false"@[1] == 'a',
        "false"@[2] == 'l',
{
    reveal_strlit("module");
    assert("module"@.len() == 6);
    assert("module"@[0] == 'm');
    assert("module"@[1] == 'o');
    assert("module"@[2] == 'd');
    reveal_strlit("struct");
    assert("struct"@.len() == 6);
    assert("struct"@[0] == 's');
    assert("struct"@[1] == 't');
    assert("struct"@[2] == 'r');
    reveal_strlit("pstate");
    assert("pstate"@.len() == 6);
    assert("pstate"@[0] == 'p');
    assert("pstate"@[1] == 's');
    assert("pstate"@[2] == 't');
    reveal_strlit("depot");
    assert("depot"@.len() == 5);
    assert("depot"@[0] == 'd');
    assert("depot"@[1] == 'e');
    assert("depot"@[2] == 'p');
    reveal_strlit("op");
    assert("op"@.len() == 2);
    assert("op"@[0] == 'o');
    assert("op"@[1] == 'p');
    reveal_strlit("fn");
    assert("fn"@.len() == 2);
    assert("fn"@[0] == 'f');
    assert("fn"@[1] == 'n');
    reveal_strlit("extern");
    assert("extern"@.len() == 6);
    assert("extern"@[0] == 'e');
    assert("extern"@[1] == 'x');
    assert("extern"@[2] == 't');
    reveal_strlit("let");
    assert("let"@.len() == 3);
    assert("let"@[0] == 'l');
    assert("let"@[1] == 'e');
    assert("let"@[2] == 't');
    reveal_strlit("fail");
    assert("fail"@.len() == 4);
    assert("fail"@[0] == 'f');
    assert("fail"@[1] == 'a');
    assert("fail"@[2] == 'i');
    reveal_strlit("return");
    assert("return"@.len() == 6);
    assert("return"@[0] == 'r');
    assert("return"@[1] == 'e');
    assert("return"@[2] == 't');
    reveal_strlit("if");
    assert("if"@.len() == 2);
    assert("if"@[0] == 'i');
    assert("if"@[1] == 'f');
    reveal_strlit("else");
    assert("else"@.len() == 4);
    assert("else"@[0] == 'e');
    assert("else"@[1] == 'l');
    assert("else"@[2] == 's');
    reveal_strlit("keyed-by");
    assert("keyed-by"@.len() == 8);
    assert("keyed-by"@[0] == 'k');
    assert("keyed-by"@[1] == 'e');
    assert("keyed-by"@[2] == 'y');
    reveal_strlit("Map");
    assert("Map"@.len() == 3);
    assert("Map"@[0] == 'M');
    assert("Map"@[1] == 'a');
    assert("Map"@[2] == 'p');
    reveal_strlit("Object");
    assert("Object"@.len() == 6);
    assert("Object"@[0] == 'O');
    assert("Object"@[1] == 'b');
    assert("Object"@[2] == 'j');
    reveal_strlit("true");
    assert("true"@.len() == 4);
    assert("true"@[0] == 't');
    assert("true"@[1] == 'r');
    assert("true"@[2] == 'u');
    reveal_strlit("false");
    assert("false"@.len() == 5);
    assert("false"@[0] == 'f');
    assert("false"@[1] == 'a');
    assert("false"@[2] == 'l');
}

/// The boolean words are the only words that lex as booleans, and each
/// carries the value it denotes: `true` lexes as `Bool(true)`, `false` as
/// `Bool(false)`.
pub proof fn law_boolean_words(t: Seq<char>, b: bool)
    ensures
        keyword_spec(t) == Some(TokenKind::Bool(b)) <==> t == (if b { "true"@ } else { "false"@ }),
{
    lemma_keyword_literals();
}

/// Every boolean the Clojure printer writes lexes back as the same boolean.
pub proof fn law_printed_booleans_lex_back(b: bool)
    ensures
        keyword_spec(crate::clj::render_spec(crate::clj::Form::Bool(b), 0)) == Some(TokenKind::Bool(b)),
{
    law_boolean_words(crate::clj::render_spec(crate::clj::Form::Bool(b), 0), b);
}

/// Lexing a boolean word on its own gives exactly one token: the boolean
/// it denotes, spanning the word.
pub proof fn law_boolean_word_lexes(b: bool)
    ensures
        ({
            let w: Seq<char> = if b { "true"@ } else { "false"@ };
            &&& !lex_fails(w, 0)
            &&& lex_tokens(w, 0) == seq![(LexKind::Fixed(TokenKind::Bool(b)), 0int, w.len() as int)]
        }),
{
    lemma_keyword_literals();
    reveal_strlit("nil->val");
    reveal_strlit("NONE>");
    assert("NONE>"@[0] == 'N');
    let w: Seq<char> = if b { "true"@ } else { "false"@ };
    let n = w.len() as int;
    assert(!occurs_at("nil->val"@, w, 0));
    assert(!occurs_at("NONE>"@, w, 0)) by {
        if occurs_at("NONE>"@, w, 0) {
            assert(w.subrange(0, 5)[0] == w[0]);
        }
    }
    reveal_strlit("true");
    reveal_strlit("false");
    assert("true"@[3] == 'e');
    assert("false"@[3] == 's');
    assert("false"@[4] == 'e');
    assert forall|j: int| 1 <= j < n implies ident_body_spec(#[trigger] w[j]) by {
        if b {
            assert(j == 1 || j == 2 || j == 3);
        } else {
            assert(j == 1 || j == 2 || j == 3 || j == 4);
        }
    }
    assert(ident_end_spec(w, n) == n);
    assert(ident_end_spec(w, n - 1) == n);
    assert(ident_end_spec(w, n - 2) == n);
    assert(ident_end_spec(w, n - 3) == n);
    if !b {
        assert(ident_end_spec(w, n - 4) == n);
    }
    assert(ident_end_spec(w, 1) == n);
    assert(w.subrange(0, n) =~= w);
    assert(lex_step(w, 0) == (n, LexKind::Fixed(TokenKind::Bool(b)), false));
    assert(lex_tokens(w, n) == Seq::<(LexKind, int, int)>::empty());
    assert(!lex_fails(w, n));
}

/// The value of a run of decimal digits; a character that is not a digit
/// counts as 0.
pub open spec fn digits_value(s: Seq<char>) -> nat
    decreases s.len(),
{
    if s.len() == 0 {
        0
    } else {
        digits_value(s.drop_last()) * 10 + if is_ascii_digit_spec(s.last()) { (s.last() as u32 - '0' as u32) as nat } else { 0 }
    }
}

pub proof fn lemma_digits_value_grows(s: Seq<char>, i: int)
    requires
        0 <= i <= s.len(),
    ensures
        digits_value(s.take(i)) <= digits_value(s),
    decreases s.len() - i,
{
    if i < s.len() {
        lemma_digits_value_grows(s, i + 1);
        assert(s.take(i + 1).drop_last() =~= s.take(i));
        let v = digits_value(s.take(i));
        assert(v <= v * 10) by (nonlinear_arith);
    } else {
        assert(s.take(i) =~= s);
    }
}

/// Reserved words and the literals `true` / `false`.
fn keyword_token(text: &str) -> (out: Option<TokenKind>)
    ensures
        out == keyword_spec(text@),
{
    if str_eq(text, "module") {
        Some(TokenKind::Module)
    } else if str_eq(text, "struct") {
        Some(TokenKind::Struct)
    } else if str_eq(text, "pstate") {
        Some(TokenKind::PState)
    } else if str_eq(text, "depot") {
        Some(TokenKind::Depot)
    } else if str_eq(text, "op") {
        Some(TokenKind::Op)
    } else if str_eq(text, "fn") {
        Some(TokenKind::Fn)
    } else if str_eq(text, "extern") {
        Some(TokenKind::Extern)
    } else if str_eq(text, "let") {
        Some(TokenKind::Let)
    } else if str_eq(text, "fail") {
        Some(TokenKind::Fail)
    } else if str_eq(text, "return") {
        Some(TokenKind::Return)
    } else if str_eq(text, "if") {
        Some(TokenKind::If)
    } else if str_eq(text, "else") {
        Some(TokenKind::Else)
    } else if str_eq(text, "keyed-by") {
        Some(TokenKind::KeyedBy)
    } else if str_eq(text, "Map") {
        Some(TokenKind::MapKw)
    } else if str_eq(text, "Object") {
        Some(TokenKind::Object)
    } else if str_eq(text, "true") {
        Some(TokenKind::Bool(true))
    } else if str_eq(text, "false") {
        Some(TokenKind::Bool(false))
    } else {
        None
    }
}

/// Value of a run of decimal digits, or 0 when it does not fit in `i64`.
fn parse_int(cs: &Vec<char>, start: usize, end: usize) -> (out: i64)
    requires
        start <= end <= cs.len(),
    ensures
        out as int == if digits_value(cs@.subrange(start as int, end as int)) <= i64::MAX {
            digits_value(cs@.subrange(start as int, end as int)) as int
        } else {
            0
        },
{
    let ghost run = cs@.subrange(start as int, end as int);
    let mut v: i64 = 0;
    let mut i = start;
    while i < end
        invariant
            start <= i <= end <= cs.len(),
            run == cs@.subrange(start as int, end as int),
            v >= 0,
            v as int == digits_value(run.take(i - start)),
        decreases end - i,
    {
        let c = cs[i];
        proof {
            assert(run.take(i - start + 1).drop_last() =~= run.take(i - start));
            assert(run.take(i - start + 1).last() == c);
        }
        let d: i64 = if is_ascii_digit(c) { (c as u32 - '0' as u32) as i64 } else { 0 };
        assert(0 <= d <= 9) by {
            if is_ascii_digit_spec(c) {
                assert(('0' as u32) <= (c as u32) <= ('9' as u32));
            }
        }
        if v > (i64::MAX - d) / 10 {
            proof {
                assert(v * 10 + d > i64::MAX) by (nonlinear_arith)
                    requires v > (i64::MAX - d) / 10, 0 <= d <= 9;
                lemma_digits_value_grows(run, i - start + 1);
            }
            return 0;
        }
        assert(v * 10 + d <= i64::MAX) by (nonlinear_arith)
            requires v <= (i64::MAX - d) / 10, 0 <= d <= 9, v >= 0;
        v = v * 10 + d;
        i += 1;
    }
    assert(run.take(end - start) =~= run);
    v
}

/// Contents of the string literal between `start` and `end` with escapes
/// resolved: `\n`, `\t`, `\r`, `\"`, `\\`; any other escaped char stands
/// for itself.
fn unescape(cs: &Vec<char>, start: usize, end: usize) -> (out: String)
    requires
        start <= end <= cs.len(),
    ensures
        out@ == unescaped(cs@.subrange(start as int, end as int)),
{
    let ghost body = cs@.subrange(start as int, end as int);
    let mut out = String::new();
    let mut i = start;
    assert(body.skip(0) =~= body);
    assert(body.skip(body.len() as int) =~= Seq::<char>::empty());
    assert(out@ + unescaped(body.skip(0)) =~= unescaped(body));
    while i < end
        invariant
            start <= i <= end <= cs.len(),
            body == cs@.subrange(start as int, end as int),
            body.skip(body.len() as int) == Seq::<char>::empty(),
            out@ + unescaped(body.skip(i - start)) == unescaped(body),
        ensures
            out@ == unescaped(body),
        decreases end - i,
    {
        let ghost rest = body.skip(i - start);
        assert(rest[0] == cs@[i as int]);
        let c = cs[i];
        if c == '\\' {
            if i + 1 >= end {
                assert(out@ =~= out@ + unescaped(rest));
                break;
            }
            assert(i + 2 <= end);
            let e = cs[i + 1];
            assert(rest[1] == e);
            assert(rest.skip(2) =~= body.skip(i - start + 2));
            if e == 'n' {
                out.push('\n');
            } else if e == 't' {
                out.push('\t');
            } else if e == 'r' {
                out.push('\r');
            } else {
                out.push(e);
            }
            i += 2;
        } else {
            assert(rest.skip(1) =~= body.skip(i - start + 1));
            out.push(c);
            i += 1;
        }
    }
    out
}

/// What an escaped character stands for.
pub open spec fn escaped(e: char) -> char {
    if e == 'n' {
        '\n'
    } else if e == 't' {
        '\t'
    } else if e == 'r' {
        '\r'
    } else {
        e
    }
}

/// String-literal contents with escapes resolved; a lone trailing
/// backslash ends them.
pub open spec fn unescaped(s: Seq<char>) -> Seq<char>
    decreases s.len(),
{
    if s.len() == 0 {
        Seq::empty()
    } else if s[0] == '\\' {
        if s.len() < 2 {
            Seq::empty()
        } else {
            seq![escaped(s[1])] + unescaped(s.skip(2))
        }
    } else {
        seq![s[0]] + unescaped(s.skip(1))
    }
}

/// Where the string literal whose contents start at `j` ends (just past
/// its closing quote), if it closes on its line.
pub open spec fn string_close(cs: Seq<char>, j: int) -> Option<int>
    decreases cs.len() - j,
{
    if j < 0 || j >= cs.len() {
        None
    } else if cs[j] == '"' {
        Some(j + 1)
    } else if cs[j] == '\\' {
        if j + 1 < cs.len() && cs[j + 1] != '\n' {
            string_close(cs, j + 2)
        } else {
            None
        }
    } else {
        string_close(cs, j + 1)
    }
}

/// Where the block comment whose body starts at `j` ends (just past `*/`).
pub open spec fn comment_close(cs: Seq<char>, j: int) -> Option<int>
    decreases cs.len() - j,
{
    if j < 0 || j >= cs.len() {
        None
    } else if cs[j] == '*' {
        if j + 1 < cs.len() {
            if cs[j + 1] == '/' {
                Some(j + 2)
            } else {
                comment_close(cs, j + 2)
            }
        } else {
            None
        }
    } else {
        comment_close(cs, j + 1)
    }
}

/// End of the string literal opening at `i`, or `None` if it never closes.
fn string_end(cs: &Vec<char>, i: usize) -> (r: Option<usize>)
    requires
        i < cs.len(),
    ensures
        r matches Some(e) ==> i + 2 <= e <= cs.len(),
        match r {
            Some(e) => string_close(cs@, i + 1) == Some(e as int),
            None => string_close(cs@, i + 1) is None,
        },
{
    let mut j = i + 1;
    while j < cs.len()
        invariant
            i < j <= cs.len(),
            string_close(cs@, j as int) == string_close(cs@, i + 1),
        decreases cs.len() - j,
    {
        let c = cs[j];
        if c == '"' {
            return Some(j + 1);
        } else if c == '\\' {
            if j + 1 < cs.len() && cs[j + 1] != '\n' {
                j += 2;
            } else {
                return None;
            }
        } else {
            j += 1;
        }
    }
    None
}

/// End of the block comment opening at `i`, or `None` if it never closes.
fn block_comment_end(cs: &Vec<char>, i: usize) -> (r: Option<usize>)
    requires
        i + 2 <= cs.len(),
    ensures
        r matches Some(e) ==> i + 2 < e <= cs.len(),
        match r {
            Some(e) => comment_close(cs@, i + 2) == Some(e as int),
            None => comment_close(cs@, i + 2) is None,
        },
{
    let mut j = i + 2;
    while j < cs.len()
        invariant
            i + 2 <= j <= cs.len(),
            comment_close(cs@, j as int) == comment_close(cs@, i + 2),
        decreases cs.len() - j,
    {
        if cs[j] == '*' {
            if j + 1 < cs.len() {
                if cs[j + 1] == '/' {
                    return Some(j + 2);
                }
                j += 2;
            } else {
                return None;
            }
        } else {
            j += 1;
        }
    }
    None
}

fn at(cs: &Vec<char>, i: usize, text: &str) -> (r: bool)
    ensures
        r ==> i + text@.len() <= cs@.len(),
        r == occurs_at(text@, cs@, i as int),
{
    let p = chars_of(text);
    seq_occurs_at(cs.as_slice(), p.as_slice(), i)
}

/// What text a token carries.
pub enum TextKind {
    Ident,
    PStateRef,
    Keyword,
    Pipe,
    Str,
}

/// What one lexing step yields at a position: nothing (whitespace or a
/// comment), a token of fixed kind, an integer, or a token carrying text.
pub enum LexKind {
    Skip,
    Fixed(TokenKind),
    Int(int),
    Text(TextKind, Seq<char>),
}

/// Whether a token kind is the one a step describes.
pub open spec fn kind_matches(k: TokenKind, lk: LexKind) -> bool {
    match lk {
        LexKind::Skip => false,
        LexKind::Fixed(t) => k == t,
        LexKind::Int(v) => k is Int && k->Int_0 as int == v,
        LexKind::Text(tk, s) => match tk {
            TextKind::Ident => k is Ident && k->Ident_0@ == s,
            TextKind::PStateRef => k is PStateRef && k->PStateRef_0@ == s,
            TextKind::Keyword => k is Keyword && k->Keyword_0@ == s,
            TextKind::Pipe => k is Pipe && k->Pipe_0@ == s,
            TextKind::Str => k is String && k->String_0@ == s,
        },
    }
}

pub open spec fn ident_start_spec(c: char) -> bool {
    crate::text::is_ascii_alpha_spec(c) || c == '_'
}

pub open spec fn ident_body_spec(c: char) -> bool {
    is_ascii_alnum_spec(c) || c == '_' || c == '?'
}

/// End of an identifier's tail starting at `j`: body characters, and `-`
/// followed by a body character.
pub open spec fn ident_end_spec(cs: Seq<char>, j: int) -> int
    decreases cs.len() - j,
{
    if j < 0 || j >= cs.len() {
        j
    } else if ident_body_spec(cs[j]) {
        ident_end_spec(cs, j + 1)
    } else if cs[j] == '-' && j + 1 < cs.len() && ident_body_spec(cs[j + 1]) {
        ident_end_spec(cs, j + 2)
    } else {
        j
    }
}

/// End of the run of word characters (`[A-Za-z0-9_-]`, and `.` when
/// `dots`) starting at `j`.
pub open spec fn word_end_spec(cs: Seq<char>, j: int, dots: bool) -> int
    decreases cs.len() - j,
{
    if j < 0 || j >= cs.len() {
        j
    } else if is_ascii_alnum_spec(cs[j]) || cs[j] == '_' || cs[j] == '-' || (dots && cs[j] == '.') {
        word_end_spec(cs, j + 1, dots)
    } else {
        j
    }
}

/// End of the run of decimal digits starting at `j`.
pub open spec fn digits_end(cs: Seq<char>, j: int) -> int
    decreases cs.len() - j,
{
    if j < 0 || j >= cs.len() {
        j
    } else if is_ascii_digit_spec(cs[j]) {
        digits_end(cs, j + 1)
    } else {
        j
    }
}

/// Position of the first newline at or after `j`, or the end.
pub open spec fn line_end(cs: Seq<char>, j: int) -> int
    decreases cs.len() - j,
{
    if j < 0 || j >= cs.len() {
        j
    } else if cs[j] == '\n' {
        j
    } else {
        line_end(cs, j + 1)
    }
}

/// The value of an integer literal: its digits, or 0 when they overflow `i64`.
pub open spec fn int_literal(d: Seq<char>) -> int {
    if digits_value(d) <= i64::MAX {
        digits_value(d) as int
    } else {
        0
    }
}

/// One step of the lexer at character `i` (`i < cs.len()`): where the next
/// step starts (before clamping), what it yields, and whether `cs[i]`
/// starts no token.
pub open spec fn raw_step(cs: Seq<char>, i: int) -> (int, LexKind, bool) {
    let c = cs[i];
    if skip_space(c) {
        (i + 1, LexKind::Skip, false)
    } else if c == '/' && i + 1 < cs.len() && cs[i + 1] == '/' {
        (line_end(cs, i + 2), LexKind::Skip, false)
    } else if c == '/' && i + 1 < cs.len() && cs[i + 1] == '*' {
        match comment_close(cs, i + 2) {
            Some(e) => (e, LexKind::Skip, false),
            None => (i + 1, LexKind::Fixed(TokenKind::Slash), false),
        }
    } else if c == '/' {
        (i + 1, LexKind::Fixed(TokenKind::Slash), false)
    } else if occurs_at("nil->val"@, cs, i) {
        (i + 8, LexKind::Text(TextKind::Ident, "nil->val"@), false)
    } else if occurs_at("NONE>"@, cs, i) {
        (i + 5, LexKind::Text(TextKind::Ident, "NONE>"@), false)
    } else if ident_start_spec(c) {
        let e = ident_end_spec(cs, i + 1);
        let text = cs.subrange(i, e);
        (e, match keyword_spec(text) {
            Some(k) => LexKind::Fixed(k),
            None => LexKind::Text(TextKind::Ident, text),
        }, false)
    } else if is_ascii_digit_spec(c) {
        let e = digits_end(cs, i + 1);
        (e, LexKind::Int(int_literal(cs.subrange(i, e))), false)
    } else if c == '"' {
        match string_close(cs, i + 1) {
            Some(e) => (e, LexKind::Text(TextKind::Str, unescaped(cs.subrange(i + 1, e - 1))), false),
            None => (i + 1, LexKind::Skip, true),
        }
    } else if c == '$' {
        if i + 2 < cs.len() && cs[i + 1] == '$' && ident_start_spec(cs[i + 2]) {
            let e = word_end_spec(cs, i + 3, true);
            (e, LexKind::Text(TextKind::PStateRef, cs.subrange(i + 2, e)), false)
        } else {
            (i + 1, LexKind::Skip, true)
        }
    } else if c == ':' {
        if i + 1 < cs.len() && ident_start_spec(cs[i + 1]) {
            let e = word_end_spec(cs, i + 2, false);
            (e, LexKind::Text(TextKind::Keyword, cs.subrange(i + 1, e)), false)
        } else {
            (i + 1, LexKind::Fixed(TokenKind::Colon), false)
        }
    } else if c == '|' {
        if i + 1 < cs.len() && ident_start_spec(cs[i + 1]) {
            let e = word_end_spec(cs, i + 2, false);
            (e, LexKind::Text(TextKind::Pipe, cs.subrange(i + 1, e)), false)
        } else {
            (i + 1, LexKind::Fixed(TokenKind::Union), false)
        }
    } else if c == '!' {
        if occurs_at("!<--"@, cs, i) {
            (i + 4, LexKind::Fixed(TokenKind::ArrowTransform), false)
        } else if occurs_at("!="@, cs, i) {
            (i + 2, LexKind::Fixed(TokenKind::NotEq), false)
        } else {
            (i + 1, LexKind::Skip, true)
        }
    } else if c == '-' {
        if occurs_at("-->"@, cs, i) {
            (i + 3, LexKind::Fixed(TokenKind::ArrowSelect), false)
        } else if occurs_at("->"@, cs, i) {
            (i + 2, LexKind::Fixed(TokenKind::ThinArrow), false)
        } else {
            (i + 1, LexKind::Skip, true)
        }
    } else if c == '=' {
        if occurs_at("=="@, cs, i) {
            (i + 2, LexKind::Fixed(TokenKind::EqEq), false)
        } else {
            (i + 1, LexKind::Fixed(TokenKind::Eq), false)
        }
    } else if c == '>' {
        if occurs_at(">="@, cs, i) {
            (i + 2, LexKind::Fixed(TokenKind::Ge), false)
        } else {
            (i + 1, LexKind::Fixed(TokenKind::Gt), false)
        }
    } else if punct_kind(c) is Some {
        (i + 1, LexKind::Fixed(punct_kind(c)->Some_0), false)
    } else {
        (i + 1, LexKind::Skip, true)
    }
}

/// [`raw_step`] with its end clamped into `(i, cs.len()]`.
pub open spec fn lex_step(cs: Seq<char>, i: int) -> (int, LexKind, bool) {
    let r = raw_step(cs, i);
    (if r.0 > cs.len() || r.0 <= i { i + 1 } else { r.0 }, r.1, r.2)
}

/// The tokens the lexer finds from character `i` on, each with the
/// characters it spans.
pub open spec fn lex_tokens(cs: Seq<char>, i: int) -> Seq<(LexKind, int, int)>
    decreases cs.len() - i,
{
    if i < 0 || i >= cs.len() {
        Seq::empty()
    } else {
        let st = lex_step(cs, i);
        let rest = lex_tokens(cs, st.0);
        if !st.2 && !(st.1 is Skip) {
            seq![(st.1, i, st.0)] + rest
        } else {
            rest
        }
    }
}

/// Whether some character from `i` on starts no token.
pub open spec fn lex_fails(cs: Seq<char>, i: int) -> bool
    decreases cs.len() - i,
{
    if i < 0 || i >= cs.len() {
        false
    } else {
        lex_step(cs, i).2 || lex_fails(cs, lex_step(cs, i).0)
    }
}

/// A token as the lexer emits it for a described one: same kind, and the
/// byte span of its characters.
pub open spec fn token_is(cs: Seq<char>, t: SpannedToken, d: (LexKind, int, int)) -> bool {
    &&& kind_matches(t.0, d.0)
    &&& t.1.start == byte_len(cs.take(d.1))
    &&& t.1.end == byte_len(cs.take(d.2))
}

/// Whitespace the lexer skips.
pub open spec fn skip_space(c: char) -> bool {
    c == ' ' || c == '\t' || c == '\r' || c == '\n' || c == '\u{c}'
}

fn is_skip_space(c: char) -> (r: bool)
    ensures
        r == skip_space(c),
{
    c == ' ' || c == '\t' || c == '\r' || c == '\n' || c == '\u{c}'
}

/// The token that a punctuation character always begins.
pub open spec fn punct_kind(c: char) -> Option<TokenKind> {
    if c == '(' {
        Some(TokenKind::LParen)
    } else if c == ')' {
        Some(TokenKind::RParen)
    } else if c == '{' {
        Some(TokenKind::LBrace)
    } else if c == '}' {
        Some(TokenKind::RBrace)
    } else if c == '[' {
        Some(TokenKind::LBracket)
    } else if c == ']' {
        Some(TokenKind::RBracket)
    } else if c == ',' {
        Some(TokenKind::Comma)
    } else if c == ';' {
        Some(TokenKind::Semicolon)
    } else if c == '?' {
        Some(TokenKind::Question)
    } else if c == '@' {
        Some(TokenKind::At)
    } else if c == '.' {
        Some(TokenKind::Dot)
    } else if c == '+' {
        Some(TokenKind::Plus)
    } else if c == '<' {
        Some(TokenKind::Lt)
    } else {
        None
    }
}

/// How character `k` of the source is accounted for: `m >= 0` says it lies
/// in token `m`'s span (and, where it begins that token and is
/// punctuation, fixes the token's kind); `-1`, that it is skipped whitespace; `-s - 2`, that
/// it lies in the comment opened at `s` (a line comment runs up to the next
/// newline, a block comment up to its closing `*/`).
pub open spec fn char_accounted(cs: Seq<char>, toks: Seq<SpannedToken>, k: int, m: int) -> bool {
    if m >= 0 {
        m < toks.len() && toks[m].1.start <= byte_len(cs.take(k)) && byte_len(cs.take(k + 1)) <= toks[m].1.end && (
        toks[m].1.start == byte_len(cs.take(k)) && punct_kind(cs[k]) is Some ==> toks[m].0 == punct_kind(cs[k])->Some_0)
    } else if m == -1 {
        skip_space(cs[k])
    } else {
        let s = -m - 2;
        0 <= s <= k && s + 1 < cs.len() && cs[s] == '/' && ((cs[s + 1] == '/' && (k < s + 2 || cs[k] != '\n')) || (
        cs[s + 1] == '*' && (comment_close(cs, s + 2) matches Some(e) && k < e)))
    }
}

/// Every character of `cs` lies in a token's span, in skipped whitespace
/// or in a comment.
pub open spec fn covers_source(cs: Seq<char>, toks: Seq<SpannedToken>) -> bool {
    exists|marks: Seq<int>|
        marks.len() == cs.len() && forall|k: int| 0 <= k < cs.len() ==> char_accounted(cs, toks, k, #[trigger] marks[k])
}

/// Characters `[i, next)` are all accounted for by `mark`.
#[verifier::opaque]
pub open spec fn range_accounted(cs: Seq<char>, toks: Seq<SpannedToken>, i: int, next: int, mark: int) -> bool {
    forall|k: int| i <= k < next ==> char_accounted(cs, toks, k, mark)
}

proof fn lemma_extend_marks(cs: Seq<char>, toks: Seq<SpannedToken>, marks: Seq<int>, nm: Seq<int>, i: int, next: int, mark: int)
    requires
        nm == marks + Seq::new((next - i) as nat, |_k: int| mark),
        marks.len() == i,
        i <= next <= cs.len(),
        forall|k: int| 0 <= k < i ==> char_accounted(cs, toks, k, #[trigger] marks[k]),
        range_accounted(cs, toks, i, next, mark),
    ensures
        forall|k: int|
            0 <= k < next ==> char_accounted(cs, toks, k, #[trigger] nm[k]),
{
    reveal(range_accounted);
    assert forall|k: int| 0 <= k < next implies char_accounted(cs, toks, k, #[trigger] nm[k]) by {
        if k < i {
            assert(nm[k] == marks[k]);
        } else {
            assert(nm[k] == mark);
        }
    }
}

proof fn lemma_token_range(cs: Seq<char>, toks: Seq<SpannedToken>, i: int, next: int)
    requires
        0 <= i < next <= cs.len(),
        toks.len() > 0,
        toks.last().1.start == byte_len(cs.take(i)),
        toks.last().1.end == byte_len(cs.take(next)),
        punct_kind(cs[i]) is Some ==> toks.last().0 == punct_kind(cs[i])->Some_0,
    ensures
        range_accounted(cs, toks, i, next, toks.len() - 1),
{
    reveal(range_accounted);
    assert forall|k: int| i <= k < next implies #[trigger] char_accounted(cs, toks, k, toks.len() - 1) by {
        lemma_byte_len_le(cs, k + 1, next);
        lemma_byte_len_le(cs, i, k);
    }
}

proof fn lemma_line_comment(cs: Seq<char>, toks: Seq<SpannedToken>, i: int, next: int)
    requires
        0 <= i,
        i + 2 <= next <= cs.len(),
        cs[i] == '/' && cs[i + 1] == '/',
        forall|k: int| i + 2 <= k < next ==> cs[k] != '\n',
    ensures
        range_accounted(cs, toks, i, next, -i - 2),
{
    reveal(range_accounted);
}

proof fn lemma_block_comment(cs: Seq<char>, toks: Seq<SpannedToken>, i: int, next: int)
    requires
        0 <= i,
        i + 2 < next <= cs.len(),
        cs[i] == '/' && cs[i + 1] == '*',
        comment_close(cs, i + 2) == Some(next),
    ensures
        range_accounted(cs, toks, i, next, -i - 2),
{
    reveal(range_accounted);
}

proof fn lemma_space(cs: Seq<char>, toks: Seq<SpannedToken>, i: int)
    requires
        0 <= i < cs.len(),
        skip_space(cs[i]),
    ensures
        range_accounted(cs, toks, i, i + 1, -1),
{
    reveal(range_accounted);
}

/// The mark of a skipped stretch starting at `i`: whitespace, or the
/// comment opened there.
pub open spec fn trivia_mark(cs: Seq<char>, i: int) -> int {
    if skip_space(cs[i]) {
        -1
    } else {
        -i - 2
    }
}

proof fn lemma_line_end(cs: Seq<char>, j: int)
    requires
        0 <= j <= cs.len(),
    ensures
        j <= line_end(cs, j) <= cs.len(),
        forall|k: int| j <= k < line_end(cs, j) ==> cs[k] != '\n',
    decreases cs.len() - j,
{
    if j < cs.len() && cs[j] != '\n' {
        lemma_line_end(cs, j + 1);
    }
}

proof fn lemma_comment_close(cs: Seq<char>, j: int)
    requires
        0 <= j,
        comment_close(cs, j) is Some,
    ensures
        j < comment_close(cs, j)->Some_0 <= cs.len(),
    decreases cs.len() - j,
{
    if j < cs.len() {
        if cs[j] == '*' {
            if j + 1 < cs.len() && cs[j + 1] != '/' {
                lemma_comment_close(cs, j + 2);
            }
        } else {
            lemma_comment_close(cs, j + 1);
        }
    }
}

proof fn lemma_trivia(cs: Seq<char>, toks: Seq<SpannedToken>, i: int)
    requires
        0 <= i < cs.len(),
        !lex_step(cs, i).2,
        lex_step(cs, i).1 is Skip,
    ensures
        range_accounted(cs, toks, i, lex_step(cs, i).0, trivia_mark(cs, i)),
{
    if skip_space(cs[i]) {
        lemma_space(cs, toks, i);
    } else if cs[i] == '/' && i + 1 < cs.len() && cs[i + 1] == '/' {
        lemma_line_end(cs, i + 2);
        lemma_line_comment(cs, toks, i, line_end(cs, i + 2));
    } else {
        lemma_comment_close(cs, i + 2);
        lemma_block_comment(cs, toks, i, comment_close(cs, i + 2)->Some_0);
    }
}

proof fn lemma_accounted_push(cs: Seq<char>, toks: Seq<SpannedToken>, t: SpannedToken, k: int, m: int)
    requires
        char_accounted(cs, toks, k, m),
    ensures
        char_accounted(cs, toks.push(t), k, m),
{
    if m >= 0 {
        assert(toks.push(t)[m] == toks[m]);
    }
}

/// One lexing step at character `i`: where the next step starts, the
/// token found (if any), and whether `cs[i]` starts no token.
fn lex_one(cs: &Vec<char>, i: usize) -> (r: (usize, Option<TokenKind>, bool))
    requires
        i < cs.len(),
    ensures
        r.0 == lex_step(cs@, i as int).0,
        r.2 == lex_step(cs@, i as int).2,
        r.1 is None <==> (r.2 || lex_step(cs@, i as int).1 is Skip),
        r.1 matches Some(k) ==> kind_matches(k, lex_step(cs@, i as int).1),
{
    let c = cs[i];
    // (kind, end) of the token starting at i, if any.
    let mut next: usize = i + 1;
    let mut kind: Option<TokenKind> = None;
    let mut error = false;
    if is_skip_space(c) {
    } else if c == '/' && i + 1 < cs.len() && cs[i + 1] == '/' {
        let mut j = i + 2;
        while j < cs.len() && cs[j] != '\n'
            invariant
                i + 2 <= j <= cs.len(),
                line_end(cs@, j as int) == line_end(cs@, i + 2),
                forall|k: int| i + 2 <= k < j ==> cs@[k] != '\n',
            decreases cs.len() - j,
        {
            j += 1;
        }
        next = j;
    } else if c == '/' && i + 1 < cs.len() && cs[i + 1] == '*' {
        match block_comment_end(&cs, i) {
            Some(e) => {
                next = e;
            }
            None => {
                kind = Some(TokenKind::Slash);
            }
        }
    } else if c == '/' {
        kind = Some(TokenKind::Slash);
    } else if at(&cs, i, "nil->val") {
        proof {
            reveal_strlit("nil->val");
        }
        next = i + 8;
        kind = Some(TokenKind::Ident(owned("nil->val")));
    } else if at(&cs, i, "NONE>") {
        proof {
            reveal_strlit("NONE>");
        }
        next = i + 5;
        kind = Some(TokenKind::Ident(owned("NONE>")));
    } else if is_ident_start(c) {
        let e = ident_end(&cs, i);
        let text = substring(cs.as_slice(), i, e);
        next = e;
        kind = match keyword_token(text.as_str()) {
            Some(k) => Some(k),
            None => Some(TokenKind::Ident(text)),
        };
    } else if is_ascii_digit(c) {
        let mut e = i + 1;
        while e < cs.len() && is_ascii_digit(cs[e])
            invariant
                i < e <= cs.len(),
                digits_end(cs@, e as int) == digits_end(cs@, i + 1),
            decreases cs.len() - e,
        {
            e += 1;
        }
        next = e;
        kind = Some(TokenKind::Int(parse_int(&cs, i, e)));
    } else if c == '"' {
        match string_end(&cs, i) {
            Some(e) => {
                next = e;
                kind = Some(TokenKind::String(unescape(&cs, i + 1, e - 1)));
            }
            None => {
                error = true;
            }
        }
    } else if c == '$' {
        if i + 1 < cs.len() && cs[i + 1] == '$' && i + 2 < cs.len() && is_ident_start(cs[i + 2]) {
            let e = word_end(&cs, i + 3, true);
            next = e;
            kind = Some(TokenKind::PStateRef(substring(cs.as_slice(), i + 2, e)));
        } else {
            error = true;
        }
    } else if c == ':' {
        if i + 1 < cs.len() && is_ident_start(cs[i + 1]) {
            let e = word_end(&cs, i + 2, false);
            next = e;
            kind = Some(TokenKind::Keyword(substring(cs.as_slice(), i + 1, e)));
        } else {
            kind = Some(TokenKind::Colon);
        }
    } else if c == '|' {
        if i + 1 < cs.len() && is_ident_start(cs[i + 1]) {
            let e = word_end(&cs, i + 2, false);
            next = e;
            kind = Some(TokenKind::Pipe(substring(cs.as_slice(), i + 1, e)));
        } else {
            kind = Some(TokenKind::Union);
        }
    } else if c == '!' {
        if at(&cs, i, "!<--") {
            proof {
                reveal_strlit("!<--");
            }
            next = i + 4;
            kind = Some(TokenKind::ArrowTransform);
        } else if at(&cs, i, "!=") {
            proof {
                reveal_strlit("!=");
            }
            next = i + 2;
            kind = Some(TokenKind::NotEq);
        } else {
            error = true;
        }
    } else if c == '-' {
        if at(&cs, i, "-->") {
            proof {
                reveal_strlit("-->");
            }
            next = i + 3;
            kind = Some(TokenKind::ArrowSelect);
        } else if at(&cs, i, "->") {
            proof {
                reveal_strlit("->");
            }
            next = i + 2;
            kind = Some(TokenKind::ThinArrow);
        } else {
            error = true;
        }
    } else if c == '=' {
        if at(&cs, i, "==") {
            proof {
                reveal_strlit("==");
            }
            next = i + 2;
            kind = Some(TokenKind::EqEq);
        } else {
            kind = Some(TokenKind::Eq);
        }
    } else if c == '>' {
        if at(&cs, i, ">=") {
            proof {
                reveal_strlit(">=");
            }
            next = i + 2;
            kind = Some(TokenKind::Ge);
        } else {
            kind = Some(TokenKind::Gt);
        }
    } else if c == '?' {
        kind = Some(TokenKind::Question);
    } else if c == '@' {
        kind = Some(TokenKind::At);
    } else if c == '.' {
        kind = Some(TokenKind::Dot);
    } else if c == '+' {
        kind = Some(TokenKind::Plus);
    } else if c == '(' {
        kind = Some(TokenKind::LParen);
    } else if c == ')' {
        kind = Some(TokenKind::RParen);
    } else if c == '{' {
        kind = Some(TokenKind::LBrace);
    } else if c == '}' {
        kind = Some(TokenKind::RBrace);
    } else if c == '[' {
        kind = Some(TokenKind::LBracket);
    } else if c == ']' {
        kind = Some(TokenKind::RBracket);
    } else if c == ',' {
        kind = Some(TokenKind::Comma);
    } else if c == ';' {
        kind = Some(TokenKind::Semicolon);
    } else if c == '<' {
        kind = Some(TokenKind::Lt);
    } else {
        error = true;
    }
    if next > cs.len() || next <= i {
        next = i + 1;
    }
    (next, kind, error)
}

/// Tokens of `src`, or one lex diagnostic per character that starts no token.
#[verifier::rlimit(80)]
pub fn lex(src: &str) -> (out: Result<Vec<SpannedToken>, ParseError>)
    ensures
        out is Ok <==> !lex_fails(src@, 0),
        out matches Ok(toks) ==> toks@.len() == lex_tokens(src@, 0).len() && forall|k: int|
            0 <= k < toks@.len() ==> token_is(src@, #[trigger] toks@[k], lex_tokens(src@, 0)[k]),
        out matches Ok(toks) ==> tokens_ordered(toks@, byte_len(src@)) && covers_source(src@, toks@),
        out matches Err(e) ==> e.diagnostics.len() > 0,
{
    let cs = chars_of(src);
    let offs = char_offsets(src, &cs);
    let mut tokens: Vec<SpannedToken> = Vec::new();
    let mut diagnostics: Vec<Diagnostic> = Vec::new();
    let mut i: usize = 0;
    let ghost mut marks: Seq<int> = Seq::empty();
    let ghost mut emitted: Seq<(LexKind, int, int)> = Seq::empty();
    while i < cs.len()
        invariant
            lex_tokens(cs@, 0) == emitted + lex_tokens(cs@, i as int),
            tokens@.len() == emitted.len(),
            forall|k: int| 0 <= k < tokens@.len() ==> token_is(cs@, #[trigger] tokens@[k], emitted[k]),
            lex_fails(cs@, 0) == (diagnostics.len() > 0 || lex_fails(cs@, i as int)),
            cs@ == src@,
            offsets_ok(cs@, offs@),
            i <= cs.len(),
            tokens_ordered(tokens@, byte_len(src@)),
            forall|k: int| 0 <= k < tokens.len() ==> tokens@[k].1.end <= offs@[i as int],
            marks.len() == i,
            diagnostics.len() == 0 ==> forall|k: int| 0 <= k < i ==> char_accounted(cs@, tokens@, k, #[trigger] marks[k]),
        decreases cs.len() - i,
    {
        let c = cs[i];
        let ghost mut mark: int = tokens.len() as int;
        let (next, kind, error) = lex_one(&cs, i);
        proof {
            if !error && kind is None {
                lemma_trivia(cs@, tokens@, i as int);
                mark = trivia_mark(cs@, i as int);
            }
        }
        proof {
            lemma_byte_len_le(cs@, i as int, next as int);
            lemma_byte_len_le(cs@, next as int, cs@.len() as int);
            assert(cs@.take(cs@.len() as int) =~= cs@);
        }
        let span = Span::new(offs[i], offs[next]);
        let ghost old_tokens = tokens@;
        let ghost old_emitted = emitted;
        if error {
            let text = substring(cs.as_slice(), i, i + 1);
            let mut message = owned("unexpected ");
            message.push_str(debug_quote(text.as_str()).as_str());
            diagnostics.push(Diagnostic::lex(span, message));
        } else {
            match kind {
                Some(tk) => {
                    proof {
                        if occurs_at("nil->val"@, cs@, i as int) {
                            reveal_strlit("nil->val");
                            assert(cs@.subrange(i as int, i + 8)[0] == cs@[i as int]);
                        }
                        if occurs_at("NONE>"@, cs@, i as int) {
                            reveal_strlit("NONE>");
                            assert(cs@.subrange(i as int, i + 5)[0] == cs@[i as int]);
                        }
                        assert(punct_kind(c) is Some ==> tk == punct_kind(c)->Some_0);
                    }
                    let ghost pushed = (tk, span);
                    tokens.push((tk, span));
                    proof {
                        emitted = emitted.push((lex_step(cs@, i as int).1, i as int, next as int));
                        assert(lex_tokens(cs@, i as int) == seq![(lex_step(cs@, i as int).1, i as int, next as int)] + lex_tokens(cs@, next as int));
                        assert(lex_tokens(cs@, 0) =~= emitted + lex_tokens(cs@, next as int));
                        assert forall|q: int| 0 <= q < tokens@.len() implies token_is(cs@, #[trigger] tokens@[q], emitted[q]) by {
                            if q < old_tokens.len() {
                                assert(tokens@[q] == old_tokens[q]);
                                assert(emitted[q] == old_emitted[q]);
                            }
                        }
                        if diagnostics.len() == 0 {
                            assert forall|k: int| 0 <= k < i implies char_accounted(cs@, tokens@, k, #[trigger] marks[k]) by {
                                lemma_accounted_push(cs@, old_tokens, pushed, k, marks[k]);
                            }
                        }
                        lemma_byte_len_le(cs@, i as int, next as int);
                        lemma_token_range(cs@, tokens@, i as int, next as int);
                        mark = tokens.len() - 1;
                    }
                }
                None => {}
            }
        }
        proof {
            if error || kind is None {
                assert(lex_tokens(cs@, i as int) == lex_tokens(cs@, next as int));
            }
            assert(lex_fails(cs@, i as int) == (error || lex_fails(cs@, next as int)));
            let nm = marks + Seq::new((next - i) as nat, |_k: int| mark);
            if diagnostics.len() == 0 {
                lemma_extend_marks(cs@, tokens@, marks, nm, i as int, next as int, mark);
            }
            marks = nm;
        }
        i = next;
    }
    proof {
        assert(emitted + lex_tokens(cs@, i as int) =~= emitted);
    }
    if diagnostics.len() == 0 {
        proof {
            assert(forall|k: int| 0 <= k < cs@.len() ==> char_accounted(cs@, tokens@, k, #[trigger] marks[k]));
        }
        Ok(tokens)
    } else {
        Err(ParseError { diagnostics })
    }
}

} // verus!
