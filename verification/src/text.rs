//! Character-level string helpers shared by every stage.

use vstd::prelude::*;

verus! {

/// `String::push` appends one character.
pub assume_specification[ std::string::String::push ](s: &mut std::string::String, ch: char)
    ensures
        final(s)@ == old(s)@.push(ch),
;

/// `String::push_str` appends a string slice.
pub assume_specification[ std::string::String::push_str ](s: &mut std::string::String, other: &str)
    ensures
        final(s)@ == old(s)@ + other@,
;

/// The characters of a string slice, in order.
pub fn chars_of(s: &str) -> (out: Vec<char>)
    ensures
        out@ == s@,
{
    let mut out: Vec<char> = Vec::new();
    for c in it: s.chars()
        invariant
            out@ == it.seq().take(it.index() as int),
            it.seq() == s@,
    {
        out.push(c);
    }
    out
}

/// A string whose characters are exactly `cs`.
pub fn string_from(cs: &[char]) -> (out: String)
    ensures
        out@ == cs@,
{
    let mut out = String::new();
    let mut i: usize = 0;
    while i < cs.len()
        invariant
            i <= cs.len(),
            out@ == cs@.take(i as int),
        decreases cs.len() - i,
    {
        out.push(cs[i]);
        assert(cs@.take(i as int).push(cs@[i as int]) =~= cs@.take(i + 1));
        i += 1;
    }
    assert(cs@.take(cs.len() as int) =~= cs@);
    out
}

/// Character-wise equality of two string slices.
pub fn str_eq(a: &str, b: &str) -> (r: bool)
    ensures
        r == (a@ == b@),
{
    let x = chars_of(a);
    let y = chars_of(b);
    if x.len() != y.len() {
        assert(x@.len() != y@.len());
        return false;
    }
    let mut i: usize = 0;
    while i < x.len()
        invariant
            x@ == a@,
            y@ == b@,
            x.len() == y.len(),
            i <= x.len(),
            forall|j: int| 0 <= j < i ==> x@[j] == y@[j],
        decreases x.len() - i,
    {
        if x[i] != y[i] {
            assert(x@[i as int] != y@[i as int]);
            return false;
        }
        i += 1;
    }
    assert(x@ =~= y@);
    true
}

} // verus!

verus! {

/// An owned copy of a string slice.
pub fn owned(s: &str) -> (out: String)
    ensures
        out@ == s@,
{
    let mut out = String::new();
    out.push_str(s);
    assert(out@ =~= s@);
    out
}

/// `a` followed by `b`.
pub fn concat(a: &str, b: &str) -> (out: String)
    ensures
        out@ == a@ + b@,
{
    let mut out = String::new();
    out.push_str(a);
    out.push_str(b);
    assert(out@ =~= a@ + b@);
    out
}

/// Decimal digits of a natural number, most significant first.
pub open spec fn decimal_digits(n: nat) -> Seq<char>
    decreases n,
{
    if n < 10 {
        seq![digit_char(n)]
    } else {
        decimal_digits(n / 10).push(digit_char(n % 10))
    }
}

pub open spec fn digit_char(d: nat) -> char {
    if d == 0 { '0' } else if d == 1 { '1' } else if d == 2 { '2' } else if d == 3 { '3' }
    else if d == 4 { '4' } else if d == 5 { '5' } else if d == 6 { '6' } else if d == 7 { '7' }
    else if d == 8 { '8' } else { '9' }
}

/// Decimal rendering of an integer, with a leading `-` when negative.
pub open spec fn decimal(n: int) -> Seq<char> {
    if n < 0 {
        seq!['-'] + decimal_digits((-n) as nat)
    } else {
        decimal_digits(n as nat)
    }
}

fn digit(d: u64) -> (c: char)
    requires
        d < 10,
    ensures
        c == digit_char(d as nat),
{
    if d == 0 { '0' } else if d == 1 { '1' } else if d == 2 { '2' } else if d == 3 { '3' }
    else if d == 4 { '4' } else if d == 5 { '5' } else if d == 6 { '6' } else if d == 7 { '7' }
    else if d == 8 { '8' } else { '9' }
}

/// Decimal digits of `n`.
pub fn u64_to_string(n: u64) -> (out: String)
    ensures
        out@ == decimal_digits(n as nat),
    decreases n,
{
    if n < 10 {
        let mut out = String::new();
        out.push(digit(n));
        assert(out@ =~= seq![digit_char(n as nat)]);
        out
    } else {
        let mut out = u64_to_string(n / 10);
        out.push(digit(n % 10));
        out
    }
}

/// Decimal rendering of `n`, as `Display` for integers writes it.
pub fn i64_to_string(n: i64) -> (out: String)
    ensures
        out@ == decimal(n as int),
{
    if n < 0 {
        let magnitude: u64 = if n == i64::MIN {
            9223372036854775808u64
        } else {
            (-n) as u64
        };
        let digits = u64_to_string(magnitude);
        let out = concat("-", digits.as_str());
        proof {
            reveal_strlit("-");
        }
        assert(out@ =~= seq!['-'] + decimal_digits((-(n as int)) as nat));
        out
    } else {
        u64_to_string(n as u64)
    }
}

/// Decimal rendering of a length or index.
pub fn usize_to_string(n: usize) -> (out: String)
    ensures
        out@ == decimal_digits(n as nat),
{
    u64_to_string(n as u64)
}

/// `parts` joined with `sep` between neighbours.
pub open spec fn join_seq(parts: Seq<Seq<char>>, sep: Seq<char>) -> Seq<char>
    decreases parts.len(),
{
    if parts.len() == 0 {
        Seq::empty()
    } else if parts.len() == 1 {
        parts[0]
    } else {
        join_seq(parts.drop_last(), sep) + sep + parts.last()
    }
}

pub open spec fn views(parts: Seq<String>) -> Seq<Seq<char>> {
    parts.map_values(|p: String| p@)
}

/// `parts` joined with `sep`.
pub fn join(parts: &Vec<String>, sep: &str) -> (out: String)
    ensures
        out@ == join_seq(views(parts@), sep@),
{
    let mut out = String::new();
    let mut i: usize = 0;
    while i < parts.len()
        invariant
            i <= parts.len(),
            out@ == join_seq(views(parts@).take(i as int), sep@),
        decreases parts.len() - i,
    {
        proof {
            assert(views(parts@).take(i + 1).drop_last() =~= views(parts@).take(i as int));
        }
        if i > 0 {
            out.push_str(sep);
        }
        out.push_str(parts[i].as_str());
        i += 1;
    }
    assert(views(parts@).take(parts.len() as int) =~= views(parts@));
    out
}

/// Whether `p` is a prefix of `s`.
pub open spec fn is_prefix(p: Seq<char>, s: Seq<char>) -> bool {
    p.len() <= s.len() && s.take(p.len() as int) == p
}

/// Whether `p` is a suffix of `s`.
pub open spec fn is_suffix(p: Seq<char>, s: Seq<char>) -> bool {
    p.len() <= s.len() && s.skip(s.len() - p.len()) == p
}

/// Whether `p` occurs in `s` at position `i`.
pub open spec fn occurs_at(p: Seq<char>, s: Seq<char>, i: int) -> bool {
    0 <= i && i + p.len() <= s.len() && s.subrange(i, i + p.len()) == p
}

/// Whether `p` occurs anywhere in `s`.
pub open spec fn contains_seq(s: Seq<char>, p: Seq<char>) -> bool {
    exists|i: int| occurs_at(p, s, i)
}

/// Whether `p` occurs in `s` at character position `i`.
pub fn seq_occurs_at(s: &[char], p: &[char], i: usize) -> (r: bool)
    ensures
        r == occurs_at(p@, s@, i as int),
{
    if i > s.len() || p.len() > s.len() - i {
        return false;
    }
    let mut k: usize = 0;
    while k < p.len()
        invariant
            i + p.len() <= s.len(),
            k <= p.len(),
            forall|j: int| 0 <= j < k ==> s@[i + j] == p@[j],
        decreases p.len() - k,
    {
        if s[i + k] != p[k] {
            assert(s@.subrange(i as int, i + p.len())[k as int] != p@[k as int]);
            return false;
        }
        k += 1;
    }
    assert(s@.subrange(i as int, i + p.len()) =~= p@);
    true
}

/// Whether `s` starts with `p`.
pub fn starts_with(s: &str, p: &str) -> (r: bool)
    ensures
        r == is_prefix(p@, s@),
{
    let cs = chars_of(s);
    let ps = chars_of(p);
    let r = seq_occurs_at(cs.as_slice(), ps.as_slice(), 0);
    proof {
        if r {
            assert(s@.take(p@.len() as int) =~= s@.subrange(0, p@.len() as int));
        }
        if is_prefix(p@, s@) {
            assert(s@.take(p@.len() as int) =~= s@.subrange(0, p@.len() as int));
        }
    }
    r
}

/// Whether `s` ends with `p`.
pub fn ends_with(s: &str, p: &str) -> (r: bool)
    ensures
        r == is_suffix(p@, s@),
{
    let cs = chars_of(s);
    let ps = chars_of(p);
    if ps.len() > cs.len() {
        return false;
    }
    let r = seq_occurs_at(cs.as_slice(), ps.as_slice(), cs.len() - ps.len());
    proof {
        assert(s@.skip(s@.len() - p@.len()) =~= s@.subrange(s@.len() - p@.len(), s@.len() as int));
    }
    r
}

/// Whether `p` occurs in `s`.
pub fn contains(s: &str, p: &str) -> (r: bool)
    ensures
        r == contains_seq(s@, p@),
{
    let cs = chars_of(s);
    let ps = chars_of(p);
    let mut i: usize = 0;
    while i < cs.len()
        invariant
            cs@ == s@,
            ps@ == p@,
            i <= cs.len(),
            forall|j: int| 0 <= j < i ==> !occurs_at(p@, s@, j),
        decreases cs.len() - i,
    {
        if seq_occurs_at(cs.as_slice(), ps.as_slice(), i) {
            return true;
        }
        i += 1;
    }
    if seq_occurs_at(cs.as_slice(), ps.as_slice(), i) {
        return true;
    }
    assert forall|j: int| !occurs_at(p@, s@, j) by {
        if 0 <= j <= i {
        }
    }
    false
}

/// The characters of `cs` from `start` up to `end`.
pub fn substring(cs: &[char], start: usize, end: usize) -> (out: String)
    requires
        start <= end <= cs.len(),
    ensures
        out@ == cs@.subrange(start as int, end as int),
{
    let mut out = String::new();
    let mut i: usize = start;
    while i < end
        invariant
            start <= i <= end <= cs.len(),
            out@ == cs@.subrange(start as int, i as int),
        decreases end - i,
    {
        out.push(cs[i]);
        assert(cs@.subrange(start as int, i as int).push(cs@[i as int]) =~= cs@.subrange(start as int, i + 1));
        i += 1;
    }
    out
}

/// Unicode `White_Space`, the set `char::is_whitespace` documents.
pub open spec fn is_white_space(c: char) -> bool {
    ('\u{9}' <= c && c <= '\u{d}') || c == ' ' || c == '\u{85}' || c == '\u{a0}'
        || c == '\u{1680}' || ('\u{2000}' <= c && c <= '\u{200a}') || c == '\u{2028}'
        || c == '\u{2029}' || c == '\u{202f}' || c == '\u{205f}' || c == '\u{3000}'
}

pub fn is_whitespace(c: char) -> (r: bool)
    ensures
        r == is_white_space(c),
{
    ('\u{9}' <= c && c <= '\u{d}') || c == ' ' || c == '\u{85}' || c == '\u{a0}'
        || c == '\u{1680}' || ('\u{2000}' <= c && c <= '\u{200a}') || c == '\u{2028}'
        || c == '\u{2029}' || c == '\u{202f}' || c == '\u{205f}' || c == '\u{3000}'
}

pub open spec fn is_ascii_digit_spec(c: char) -> bool {
    '0' <= c && c <= '9'
}

pub open spec fn is_ascii_alpha_spec(c: char) -> bool {
    ('a' <= c && c <= 'z') || ('A' <= c && c <= 'Z')
}

pub open spec fn is_ascii_alnum_spec(c: char) -> bool {
    is_ascii_digit_spec(c) || is_ascii_alpha_spec(c)
}

pub fn is_ascii_digit(c: char) -> (r: bool)
    ensures
        r == is_ascii_digit_spec(c),
{
    '0' <= c && c <= '9'
}

pub fn is_ascii_alpha(c: char) -> (r: bool)
    ensures
        r == is_ascii_alpha_spec(c),
{
    ('a' <= c && c <= 'z') || ('A' <= c && c <= 'Z')
}

pub fn is_ascii_alnum(c: char) -> (r: bool)
    ensures
        r == is_ascii_alnum_spec(c),
{
    is_ascii_digit(c) || is_ascii_alpha(c)
}

/// The text `s` with leading `White_Space` removed.
pub open spec fn trim_start_seq(s: Seq<char>) -> Seq<char>
    decreases s.len(),
{
    if s.len() > 0 && is_white_space(s[0]) {
        trim_start_seq(s.drop_first())
    } else {
        s
    }
}

/// The text `s` with trailing `White_Space` removed.
pub open spec fn trim_end_seq(s: Seq<char>) -> Seq<char>
    decreases s.len(),
{
    if s.len() > 0 && is_white_space(s.last()) {
        trim_end_seq(s.drop_last())
    } else {
        s
    }
}

/// Index of the first character of `s` at or after `from` that is not `White_Space`.
pub fn skip_white_space(s: &[char], from: usize) -> (r: usize)
    requires
        from <= s.len(),
    ensures
        from <= r <= s.len(),
        trim_start_seq(s@.skip(from as int)) == s@.skip(r as int),
{
    let mut i = from;
    while i < s.len() && is_whitespace(s[i])
        invariant
            from <= i <= s.len(),
            trim_start_seq(s@.skip(from as int)) == trim_start_seq(s@.skip(i as int)),
        decreases s.len() - i,
    {
        assert(s@.skip(i as int).drop_first() =~= s@.skip(i + 1));
        i += 1;
    }
    i
}

/// `s` without trailing `White_Space`, as `str::trim_end` returns it.
pub fn trim_end(s: &str) -> (out: String)
    ensures
        out@ == trim_end_seq(s@),
{
    let cs = chars_of(s);
    let mut n = cs.len();
    assert(s@.take(n as int) =~= s@);
    while n > 0 && is_whitespace(cs[n - 1])
        invariant
            n <= cs.len(),
            cs@ == s@,
            trim_end_seq(s@) == trim_end_seq(s@.take(n as int)),
        decreases n,
    {
        assert(s@.take(n as int).drop_last() =~= s@.take(n - 1));
        n -= 1;
    }
    let out = substring(cs.as_slice(), 0, n);
    assert(s@.take(n as int) =~= s@.subrange(0, n as int));
    out
}

/// `s` without leading or trailing `White_Space`, as `str::trim` returns it.
pub fn trim(s: &str) -> (out: String)
    ensures
        out@ == trim_end_seq(trim_start_seq(s@)),
{
    let cs = chars_of(s);
    let start = skip_white_space(cs.as_slice(), 0);
    let rest = substring(cs.as_slice(), start, cs.len());
    assert(s@.skip(0) =~= s@);
    assert(s@.skip(start as int) =~= s@.subrange(start as int, s@.len() as int));
    trim_end(rest.as_str())
}

/// What `format!("{:?}", s)` prints for a string: the text in double quotes
/// with Rust's escapes.
pub uninterp spec fn debug_quoted(s: Seq<char>) -> Seq<char>;

/// `<str as Debug>::fmt`, through `format!("{:?}")`. The contract only names
/// the result: the quoting and escaping rules are std's and are not restated.
#[verifier::external_body]
pub(crate) fn debug_quote(s: &str) -> (out: String)
    ensures
        out@ == debug_quoted(s@),
{
    format!("{:?}", s)
}

/// Unicode `Lowercase`, as `char::is_lowercase` decides it.
pub uninterp spec fn is_lowercase_spec(c: char) -> bool;

/// `char::is_lowercase`. The contract names the result; of the Unicode
/// table it states only the ASCII letters, as std's documentation does.
#[verifier::external_body]
pub(crate) fn is_lowercase(c: char) -> (r: bool)
    ensures
        r == is_lowercase_spec(c),
        'a' <= c <= 'z' ==> r,
        'A' <= c <= 'Z' ==> !r,
        '0' <= c <= '9' ==> !r,
        c == '_' ==> !r,
{
    c.is_lowercase()
}

} // verus!

verus! {

/// Lexicographic order on characters, which is the byte order of `str`.
pub open spec fn seq_lt(a: Seq<char>, b: Seq<char>) -> bool
    decreases a.len(),
{
    if a.len() == 0 {
        b.len() > 0
    } else if b.len() == 0 {
        false
    } else if a[0] != b[0] {
        (a[0] as u32) < (b[0] as u32)
    } else {
        seq_lt(a.drop_first(), b.drop_first())
    }
}

/// `a < b` as `str` orders them.
pub fn str_lt(a: &str, b: &str) -> (r: bool)
    ensures
        r == seq_lt(a@, b@),
{
    let x = chars_of(a);
    let y = chars_of(b);
    let mut i: usize = 0;
    assert(a@.skip(0) =~= a@);
    assert(b@.skip(0) =~= b@);
    while i < x.len() && i < y.len()
        invariant
            x@ == a@,
            y@ == b@,
            i <= x.len(),
            i <= y.len(),
            x@.take(i as int) == y@.take(i as int),
            seq_lt(a@, b@) == seq_lt(a@.skip(i as int), b@.skip(i as int)),
        decreases x.len() - i,
    {
        if x[i] != y[i] {
            proof {
                assert(a@.skip(i as int)[0] == x@[i as int]);
                assert(b@.skip(i as int)[0] == y@[i as int]);
            }
            return (x[i] as u32) < (y[i] as u32);
        }
        proof {
            assert(a@.skip(i as int).drop_first() =~= a@.skip(i + 1));
            assert(b@.skip(i as int).drop_first() =~= b@.skip(i + 1));
            assert(x@.take(i + 1) =~= x@.take(i as int).push(x@[i as int]));
            assert(y@.take(i + 1) =~= y@.take(i as int).push(y@[i as int]));
        }
        i += 1;
    }
    assert(a@.skip(i as int).len() == a@.len() - i);
    assert(b@.skip(i as int).len() == b@.len() - i);
    i < y.len()
}

/// Texts in strictly ascending order.
pub open spec fn sorted_unique(s: Seq<Seq<char>>) -> bool {
    forall|a: int, b: int| 0 <= a < b < s.len() ==> seq_lt(#[trigger] s[a], #[trigger] s[b])
}

pub proof fn lemma_lt_irreflexive(a: Seq<char>)
    ensures
        !seq_lt(a, a),
    decreases a.len(),
{
    if a.len() > 0 {
        lemma_lt_irreflexive(a.drop_first());
    }
}

/// Distinct texts are ordered one way or the other.
pub proof fn lemma_lt_total(a: Seq<char>, b: Seq<char>)
    requires
        a != b,
    ensures
        seq_lt(a, b) || seq_lt(b, a),
    decreases a.len(),
{
    if a.len() > 0 && b.len() > 0 && a[0] == b[0] {
        if a.drop_first() == b.drop_first() {
            assert(a =~= seq![a[0]] + a.drop_first());
            assert(b =~= seq![b[0]] + b.drop_first());
        }
        lemma_lt_total(a.drop_first(), b.drop_first());
    } else if a.len() > 0 && b.len() > 0 {
        vstd::utf8::char_u32_cast(a[0], a[0] as u32);
        vstd::utf8::char_u32_cast(b[0], b[0] as u32);
    } else if a.len() == 0 && b.len() == 0 {
        assert(a =~= b);
    }
}

pub proof fn lemma_lt_transitive(a: Seq<char>, b: Seq<char>, c: Seq<char>)
    requires
        seq_lt(a, b),
        seq_lt(b, c),
    ensures
        seq_lt(a, c),
    decreases a.len(),
{
    if a.len() > 0 && b.len() > 0 && c.len() > 0 && a[0] == b[0] && b[0] == c[0] {
        lemma_lt_transitive(a.drop_first(), b.drop_first(), c.drop_first());
    }
}

/// Two ascending sequences without repeats that hold the same texts are
/// the same sequence.
pub proof fn lemma_sorted_unique_determined(a: Seq<Seq<char>>, b: Seq<Seq<char>>)
    requires
        sorted_unique(a),
        sorted_unique(b),
        forall|x: Seq<char>| a.contains(x) <==> b.contains(x),
    ensures
        a == b,
    decreases a.len(),
{
    if a.len() == 0 {
        if b.len() > 0 {
            assert(b.contains(b[0]));
        }
        assert(a =~= b);
    } else {
        assert(a.contains(a[0]));
        let j = choose|j: int| 0 <= j < b.len() && b[j] == a[0];
        assert(b.contains(b[0]));
        let k = choose|k: int| 0 <= k < a.len() && a[k] == b[0];
        if j > 0 {
            assert(seq_lt(b[0], b[j]));
            if k > 0 {
                assert(seq_lt(a[0], a[k]));
                lemma_lt_transitive(a[0], a[k], a[0]);
            }
            lemma_lt_irreflexive(a[0]);
        }
        let a1 = a.drop_first();
        let b1 = b.drop_first();
        assert forall|x: Seq<char>| a1.contains(x) <==> b1.contains(x) by {
            if a1.contains(x) {
                let i = choose|i: int| 0 <= i < a1.len() && a1[i] == x;
                assert(a[i + 1] == x);
                assert(seq_lt(a[0], a[i + 1]));
                lemma_lt_irreflexive(x);
                assert(b.contains(x));
                let m = choose|m: int| 0 <= m < b.len() && b[m] == x;
                assert(m != 0);
                assert(b1[m - 1] == x);
            }
            if b1.contains(x) {
                let i = choose|i: int| 0 <= i < b1.len() && b1[i] == x;
                assert(b[i + 1] == x);
                assert(seq_lt(b[0], b[i + 1]));
                lemma_lt_irreflexive(x);
                assert(a.contains(x));
                let m = choose|m: int| 0 <= m < a.len() && a[m] == x;
                assert(m != 0);
                assert(a1[m - 1] == x);
            }
        }
        assert(sorted_unique(a1)) by {
            assert forall|p: int, q: int| 0 <= p < q < a1.len() implies seq_lt(#[trigger] a1[p], #[trigger] a1[q]) by {
                assert(a1[p] == a[p + 1] && a1[q] == a[q + 1]);
            }
        }
        assert(sorted_unique(b1)) by {
            assert forall|p: int, q: int| 0 <= p < q < b1.len() implies seq_lt(#[trigger] b1[p], #[trigger] b1[q]) by {
                assert(b1[p] == b[p + 1] && b1[q] == b[q + 1]);
            }
        }
        lemma_sorted_unique_determined(a1, b1);
        assert(a =~= seq![a[0]] + a1);
        assert(b =~= seq![b[0]] + b1);
    }
}

/// Adds `s` to the sorted set `set` unless it is already there; the set
/// stays in ascending order without repeats.
pub fn insert_sorted(set: &mut Vec<String>, s: String)
    ensures
        views(final(set)@).contains(s@),
        forall|x: Seq<char>| views(old(set)@).contains(x) ==> views(final(set)@).contains(x),
        forall|x: Seq<char>| views(final(set)@).contains(x) ==> x == s@ || views(old(set)@).contains(x),
        sorted_unique(views(old(set)@)) ==> sorted_unique(views(final(set)@)),
{
    let mut i: usize = 0;
    while i < set.len()
        invariant
            i <= set.len(),
            forall|k: int| 0 <= k < i ==> seq_lt(#[trigger] views(set@)[k], s@),
        ensures
            i <= set.len(),
            forall|k: int| 0 <= k < i ==> seq_lt(#[trigger] views(set@)[k], s@),
            i < set.len() ==> seq_lt(s@, views(set@)[i as int]),
        decreases set.len() - i,
    {
        if str_eq(set[i].as_str(), s.as_str()) {
            assert(views(set@)[i as int] == s@);
            return;
        }
        if str_lt(s.as_str(), set[i].as_str()) {
            break;
        }
        proof {
            lemma_lt_total(views(set@)[i as int], s@);
        }
        i += 1;
    }
    let ghost stop = i < set.len();
    assert(stop ==> seq_lt(s@, views(set@)[i as int]));
    let ghost before = set@;
    let ghost sv = s@;
    set.insert(i, s);
    proof {
        assert(set@ == before.insert(i as int, s));
        assert(views(set@)[i as int] == sv);
        assert forall|x: Seq<char>| views(before).contains(x) implies views(set@).contains(x) by {
            let j = choose|j: int| 0 <= j < views(before).len() && views(before)[j] == x;
            if j < i {
                assert(views(set@)[j] == x);
            } else {
                assert(views(set@)[j + 1] == x);
            }
        }
        assert forall|x: Seq<char>| views(set@).contains(x) implies x == sv || views(before).contains(x) by {
            let j = choose|j: int| 0 <= j < views(set@).len() && views(set@)[j] == x;
            if j < i {
                assert(views(before)[j] == x);
            } else if j > i {
                assert(views(before)[j - 1] == x);
            }
        }
        if sorted_unique(views(before)) {
            let vb = views(before);
            let va = views(set@);
            assert forall|a: int, b: int| 0 <= a < b < va.len() implies seq_lt(#[trigger] va[a], #[trigger] va[b]) by {
                if b < i {
                    assert(va[a] == vb[a] && va[b] == vb[b]);
                } else if b == i {
                    assert(va[a] == vb[a]);
                } else if a < i {
                    assert(va[a] == vb[a] && va[b] == vb[b - 1]);
                    assert(seq_lt(vb[a], sv));
                    assert(seq_lt(sv, vb[i as int]));
                    if b - 1 > i {
                        lemma_lt_transitive(sv, vb[i as int], vb[b - 1]);
                    }
                    lemma_lt_transitive(vb[a], sv, vb[b - 1]);
                } else if a == i {
                    assert(va[b] == vb[b - 1]);
                    if b - 1 > i {
                        lemma_lt_transitive(sv, vb[i as int], vb[b - 1]);
                    }
                } else {
                    assert(va[a] == vb[a - 1] && va[b] == vb[b - 1]);
                }
            }
        }
    }
}

pub open spec fn str_views(parts: Seq<&str>) -> Seq<Seq<char>> {
    parts.map_values(|p: &str| p@)
}

/// The pieces written one after another.
pub fn cat(parts: Vec<&str>) -> (out: String)
    ensures
        out@ == join_seq(str_views(parts@), Seq::empty()),
{
    let mut out = String::new();
    let mut i: usize = 0;
    while i < parts.len()
        invariant
            i <= parts.len(),
            out@ == join_seq(str_views(parts@).take(i as int), Seq::empty()),
        decreases parts.len() - i,
    {
        proof {
            assert(str_views(parts@).take(i + 1).drop_last() =~= str_views(parts@).take(i as int));
            if i == 0 {
                assert(out@ =~= Seq::<char>::empty());
            }
        }
        out.push_str(parts[i]);
        proof {
            if i > 0 {
                assert(out@ =~= join_seq(str_views(parts@).take(i as int), Seq::empty()) + Seq::<char>::empty() + parts@[i as int]@);
            }
        }
        i += 1;
    }
    assert(str_views(parts@).take(parts.len() as int) =~= str_views(parts@));
    out
}

/// The first position at or after `i` where `s` holds `c`, or `s.len()`.
pub open spec fn find_from(s: Seq<char>, c: char, i: int) -> int
    decreases s.len() - i,
{
    if i >= s.len() {
        s.len() as int
    } else if s[i] == c {
        i
    } else {
        find_from(s, c, i + 1)
    }
}

pub proof fn lemma_find_from_bounds(s: Seq<char>, c: char, i: int)
    requires
        0 <= i,
    ensures
        i <= find_from(s, c, i) <= s.len() || (i > s.len() && find_from(s, c, i) == s.len()),
        find_from(s, c, i) < s.len() ==> s[find_from(s, c, i)] == c,
    decreases s.len() - i,
{
    if i < s.len() && s[i] != c {
        lemma_find_from_bounds(s, c, i + 1);
    }
}

/// Where `c` next occurs in `cs` at or after `from`, or `cs.len()`.
pub fn find_char(cs: &Vec<char>, c: char, from: usize) -> (out: usize)
    ensures
        out == find_from(cs@, c, from as int) || (from > cs.len() && out == cs.len()),
        from <= cs.len() ==> from <= out <= cs.len(),
{
    if from >= cs.len() {
        return cs.len();
    }
    let mut j = from;
    while j < cs.len()
        invariant
            from <= j <= cs.len(),
            find_from(cs@, c, from as int) == find_from(cs@, c, j as int),
        decreases cs.len() - j,
    {
        if cs[j] == c {
            return j;
        }
        j += 1;
    }
    j
}

/// The line that starts at `i`: up to the next newline, without it and
/// without a carriage return right before it.
pub open spec fn line_at(s: Seq<char>, i: int) -> Seq<char> {
    let e = find_from(s, '\n', i);
    let piece = s.subrange(i, e);
    if e < s.len() && piece.len() > 0 && piece.last() == '\r' {
        piece.drop_last()
    } else {
        piece
    }
}

/// The lines of `s` from position `i` on, as `str::lines` splits them: a
/// final line ending adds no empty line.
pub open spec fn lines_from(s: Seq<char>, i: int) -> Seq<Seq<char>>
    decreases s.len() - i,
{
    if i < 0 || i >= s.len() {
        Seq::empty()
    } else {
        let e = find_from(s, '\n', i);
        if e < i || e >= s.len() {
            seq![line_at(s, i)]
        } else {
            seq![line_at(s, i)] + lines_from(s, e + 1)
        }
    }
}

/// The lines of `s`.
pub fn lines(s: &str) -> (out: Vec<String>)
    ensures
        views(out@) == lines_from(s@, 0),
{
    let cs = chars_of(s);
    let mut out: Vec<String> = Vec::new();
    let mut pos: usize = 0;
    while pos < cs.len()
        invariant
            cs@ == s@,
            pos <= cs.len(),
            views(out@) + lines_from(cs@, pos as int) == lines_from(cs@, 0),
        decreases cs.len() - pos,
    {
        let e = find_char(&cs, '\n', pos);
        proof {
            lemma_find_from_bounds(cs@, '\n', pos as int);
        }
        let mut end = e;
        if e < cs.len() && e > pos && cs[e - 1] == '\r' {
            end = e - 1;
        }
        let line = substring(cs.as_slice(), pos, end);
        let ghost before = out@;
        proof {
            let piece = cs@.subrange(pos as int, e as int);
            if e < cs.len() && e > pos && cs@[e - 1] == '\r' {
                assert(piece.drop_last() =~= cs@.subrange(pos as int, end as int));
            } else {
                assert(piece =~= cs@.subrange(pos as int, end as int));
            }
            assert(line@ == line_at(cs@, pos as int));
        }
        out.push(line);
        proof {
            assert(views(out@) =~= views(before).push(line@));
        }
        if e >= cs.len() {
            proof {
                assert(lines_from(cs@, pos as int) == seq![line_at(cs@, pos as int)]);
                assert(views(out@) =~= views(before) + lines_from(cs@, pos as int));
                assert(lines_from(cs@, cs.len() as int) =~= Seq::<Seq<char>>::empty());
                assert(views(out@) + lines_from(cs@, cs.len() as int) =~= views(out@));
            }
            pos = cs.len();
        } else {
            proof {
                assert(lines_from(cs@, pos as int) == seq![line_at(cs@, pos as int)] + lines_from(cs@, e + 1));
                assert(views(out@) + lines_from(cs@, e + 1) =~= views(before) + lines_from(cs@, pos as int));
            }
            pos = e + 1;
        }
    }
    proof {
        assert(lines_from(cs@, pos as int) =~= Seq::<Seq<char>>::empty());
        assert(views(out@) + lines_from(cs@, pos as int) =~= views(out@));
    }
    out
}

/// `s` with every non-overlapping occurrence of `from`, scanning left to
/// right, replaced by `to`.
pub open spec fn replace_spec(s: Seq<char>, from: Seq<char>, to: Seq<char>) -> Seq<char>
    decreases s.len(),
{
    if s.len() == 0 || from.len() == 0 {
        s
    } else if is_prefix(from, s) {
        to + replace_spec(s.skip(from.len() as int), from, to)
    } else {
        seq![s[0]] + replace_spec(s.drop_first(), from, to)
    }
}

/// `str::replace` with a non-empty pattern.
pub fn replace_all(s: &str, from: &str, to: &str) -> (out: String)
    ensures
        out@ == replace_spec(s@, from@, to@),
{
    let cs = chars_of(s);
    let ps = chars_of(from);
    if ps.len() == 0 {
        return owned(s);
    }
    let mut out = String::new();
    let mut i: usize = 0;
    assert(cs@.skip(0) =~= cs@);
    while i < cs.len()
        invariant
            cs@ == s@,
            ps@ == from@,
            ps@.len() > 0,
            i <= cs.len(),
            out@ + replace_spec(cs@.skip(i as int), from@, to@) == replace_spec(s@, from@, to@),
        decreases cs.len() - i,
    {
        let ghost rest = cs@.skip(i as int);
        let ghost before = out@;
        if seq_occurs_at(cs.as_slice(), ps.as_slice(), i) {
            proof {
                assert(rest.take(from@.len() as int) =~= cs@.subrange(i as int, i + from@.len()));
                assert(rest.skip(from@.len() as int) =~= cs@.skip(i + from@.len()));
            }
            out.push_str(to);
            proof {
                assert(out@ + replace_spec(cs@.skip(i + from@.len()), from@, to@) =~= before + replace_spec(rest, from@, to@));
            }
            i = i + ps.len();
        } else {
            proof {
                if is_prefix(from@, rest) {
                    assert(rest.take(from@.len() as int) =~= cs@.subrange(i as int, i + from@.len()));
                }
                assert(rest.drop_first() =~= cs@.skip(i + 1));
                assert(rest[0] == cs@[i as int]);
            }
            out.push(cs[i]);
            proof {
                assert(out@ + replace_spec(cs@.skip(i + 1), from@, to@) =~= before + replace_spec(rest, from@, to@));
            }
            i += 1;
        }
    }
    proof {
        assert(cs@.skip(i as int).len() == 0);
        assert(out@ + replace_spec(cs@.skip(i as int), from@, to@) =~= out@);
    }
    out
}

/// The pieces of `s` between occurrences of `c`, from position `i` on, as
/// `str::split` gives them.
pub open spec fn split_from(s: Seq<char>, c: char, i: int) -> Seq<Seq<char>>
    decreases s.len() - i,
{
    let e = find_from(s, c, i);
    if i < 0 || i > s.len() || e < i || e >= s.len() {
        seq![s.subrange(if 0 <= i <= s.len() { i } else { s.len() as int }, s.len() as int)]
    } else {
        seq![s.subrange(i, e)] + split_from(s, c, e + 1)
    }
}

/// `str::split` on one character.
pub fn split_char(s: &str, c: char) -> (out: Vec<String>)
    ensures
        views(out@) == split_from(s@, c, 0),
        out@.len() >= 1,
{
    let cs = chars_of(s);
    let mut out: Vec<String> = Vec::new();
    let mut pos: usize = 0;
    loop
        invariant
            cs@ == s@,
            pos <= cs.len(),
            views(out@) + split_from(cs@, c, pos as int) == split_from(cs@, c, 0),
        decreases cs.len() - pos,
    {
        let e = find_char(&cs, c, pos);
        proof {
            lemma_find_from_bounds(cs@, c, pos as int);
        }
        let piece = substring(cs.as_slice(), pos, e);
        let ghost before = out@;
        out.push(piece);
        proof {
            assert(views(out@) =~= views(before).push(piece@));
        }
        if e >= cs.len() {
            proof {
                assert(split_from(cs@, c, pos as int) == seq![cs@.subrange(pos as int, cs@.len() as int)]);
                assert(views(out@) =~= views(before) + split_from(cs@, c, pos as int));
            }
            return out;
        }
        proof {
            assert(views(out@) + split_from(cs@, c, e + 1) =~= views(before) + split_from(cs@, c, pos as int));
        }
        pos = e + 1;
    }
}

/// `find_from` stops no later than any occurrence at or after `i`.
pub proof fn lemma_find_from_le(s: Seq<char>, c: char, i: int, j: int)
    requires
        0 <= i <= j < s.len(),
        s[j] == c,
    ensures
        i <= find_from(s, c, i) <= j,
    decreases j - i,
{
    if s[i] != c {
        lemma_find_from_le(s, c, i + 1, j);
    }
}

/// `find_from` finds `c` right after a run without it.
pub proof fn lemma_find_from_exact(s: Seq<char>, c: char, i: int, k: int)
    requires
        0 <= i,
        0 <= k,
        i + k < s.len(),
        s[i + k] == c,
        forall|t: int| i <= t < i + k ==> s[t] != c,
    ensures
        find_from(s, c, i) == i + k,
    decreases k,
{
    if k > 0 {
        lemma_find_from_exact(s, c, i + 1, k - 1);
    }
}

/// The line starting right after a newline is one of the lines of the
/// text.
pub proof fn lemma_line_reached(s: Seq<char>, i: int, p: int)
    requires
        0 <= i <= p < s.len(),
        i == p || s[p - 1] == '\n',
    ensures
        exists|k: int| 0 <= k < lines_from(s, i).len() && #[trigger] lines_from(s, i)[k] == line_at(s, p),
    decreases p - i,
{
    if i == p {
        assert(lines_from(s, i)[0] == line_at(s, i));
    } else {
        lemma_find_from_le(s, '\n', i, p - 1);
        let e = find_from(s, '\n', i);
        assert(lines_from(s, i) == seq![line_at(s, i)] + lines_from(s, e + 1));
        lemma_line_reached(s, e + 1, p);
        let k = choose|k: int| 0 <= k < lines_from(s, e + 1).len() && #[trigger] lines_from(s, e + 1)[k] == line_at(s, p);
        assert(lines_from(s, i)[k + 1] == line_at(s, p));
    }
}

/// Text without surrounding white space trims to itself.
pub proof fn lemma_trim_fixed(s: Seq<char>)
    requires
        s.len() > 0,
        !is_white_space(s[0]),
        !is_white_space(s.last()),
    ensures
        trim_end_seq(trim_start_seq(s)) == s,
{
}

} // verus!
