//! Byte-offset source spans.

use vstd::prelude::*;
use crate::text::chars_of;

verus! {

/// Half-open byte range `[start, end)` into the source text.
#[derive(Debug, Clone, Copy, PartialEq, Eq)]
pub struct Span {
    pub start: usize,
    pub end: usize,
}

/// A syntax node together with the source range it came from.
#[derive(Debug, Clone, PartialEq, Eq)]
pub struct Spanned<T> {
    pub node: T,
    pub span: Span,
}

impl<T> Spanned<T> {
    pub fn new(node: T, span: Span) -> (out: Self)
        ensures
            out.node == node,
            out.span == span,
    {
        Spanned { node, span }
    }
}

/// Number of bytes UTF-8 uses for `c`.
pub open spec fn utf8_len(c: char) -> nat {
    if (c as u32) < 0x80 {
        1
    } else if (c as u32) < 0x800 {
        2
    } else if (c as u32) < 0x10000 {
        3
    } else {
        4
    }
}

/// Byte length of the UTF-8 encoding of `s`.
pub open spec fn byte_len(s: Seq<char>) -> nat
    decreases s.len(),
{
    if s.len() == 0 {
        0
    } else {
        byte_len(s.drop_last()) + utf8_len(s.last())
    }
}

pub fn char_utf8_len(c: char) -> (n: usize)
    ensures
        n == utf8_len(c),
{
    let v = c as u32;
    if v < 0x80 {
        1
    } else if v < 0x800 {
        2
    } else if v < 0x10000 {
        3
    } else {
        4
    }
}

/// The characters of `s` whose first byte lies in `[start, end)`.
pub open spec fn byte_slice(s: Seq<char>, start: int, end: int) -> Seq<char>
    decreases s.len(),
{
    if s.len() == 0 {
        Seq::empty()
    } else {
        let prefix = byte_slice(s.drop_last(), start, end);
        let at = byte_len(s.drop_last()) as int;
        if start <= at && at < end {
            prefix.push(s.last())
        } else {
            prefix
        }
    }
}

impl Default for Span {
    fn default() -> (out: Span)
        ensures
            out.start == 0,
            out.end == 0,
    {
        Span { start: 0, end: 0 }
    }
}

impl Span {
    pub fn new(start: usize, end: usize) -> (out: Span)
        ensures
            out.start == start,
            out.end == end,
    {
        Span { start, end }
    }

    /// Smallest span covering both.
    pub fn merge(self, other: Span) -> (out: Span)
        ensures
            out.start == if self.start <= other.start { self.start } else { other.start },
            out.end == if self.end >= other.end { self.end } else { other.end },
    {
        Span {
            start: if self.start <= other.start { self.start } else { other.start },
            end: if self.end >= other.end { self.end } else { other.end },
        }
    }

    /// The source text this span covers.
    pub fn slice(&self, src: &str) -> (out: String)
        ensures
            out@ == byte_slice(src@, self.start as int, self.end as int),
    {
        let cs = chars_of(src);
        let mut out = String::new();
        let mut i: usize = 0;
        let mut offset: u128 = 0;
        while i < cs.len()
            invariant
                cs@ == src@,
                i <= cs.len(),
                offset <= 4 * i,
                offset == byte_len(cs@.take(i as int)),
                out@ == byte_slice(cs@.take(i as int), self.start as int, self.end as int),
            decreases cs.len() - i,
        {
            let c = cs[i];
            assert(cs@.take(i + 1).drop_last() =~= cs@.take(i as int));
            if (self.start as u128) <= offset && offset < (self.end as u128) {
                out.push(c);
            }
            let w = char_utf8_len(c);
            offset = offset + w as u128;
            i += 1;
        }
        assert(cs@.take(cs.len() as int) =~= cs@);
        out
    }

    /// `start..end`, as spans print in messages.
    pub fn display_string(&self) -> (out: String)
        ensures
            out@ == crate::text::decimal_digits(self.start as nat) + seq!['.', '.']
                + crate::text::decimal_digits(self.end as nat),
    {
        let mut out = crate::text::usize_to_string(self.start);
        out.push('.');
        out.push('.');
        let end = crate::text::usize_to_string(self.end);
        out.push_str(end.as_str());
        assert(out@ =~= crate::text::decimal_digits(self.start as nat) + seq!['.', '.']
            + crate::text::decimal_digits(self.end as nat));
        out
    }
}


proof fn lemma_byte_len_front(s: Seq<char>)
    requires
        s.len() > 0,
    ensures
        byte_len(s) == utf8_len(s[0]) + byte_len(s.drop_first()),
    decreases s.len(),
{
    if s.len() > 1 {
        lemma_byte_len_front(s.drop_last());
        assert(s.drop_last().drop_first() =~= s.drop_first().drop_last());
        assert(s.drop_last()[0] == s[0]);
        assert(s.drop_first().last() == s.last());
        assert(byte_len(s.drop_first()) == byte_len(s.drop_first().drop_last()) + utf8_len(s.drop_first().last()));
    } else {
        assert(s.drop_first().len() == 0);
        assert(s.drop_last().len() == 0);
        assert(byte_len(s.drop_first()) == 0);
        assert(byte_len(s.drop_last()) == 0);
        assert(s.last() == s[0]);
    }
}

proof fn lemma_encode_scalar_len(c: char)
    ensures
        vstd::utf8::encode_scalar(c as u32).len() == utf8_len(c),
{
    vstd::utf8::char_is_scalar(c);
}

/// The UTF-8 encoding of `s` has `byte_len(s)` bytes.
pub proof fn lemma_encode_len(s: Seq<char>)
    ensures
        vstd::utf8::encode_utf8(s).len() == byte_len(s),
    decreases s.len(),
{
    if s.len() > 0 {
        lemma_byte_len_front(s);
        lemma_encode_scalar_len(s[0]);
        lemma_encode_len(s.drop_first());
    }
}

/// Every source text's byte length fits in `usize`.
pub fn byte_len_fits(src: &str)
    ensures
        byte_len(src@) <= usize::MAX,
{
    let bytes = src.as_bytes();
    let _n = bytes.len();
    proof {
        lemma_encode_len(src@);
    }
}

} // verus!
