//! Bencode, the framing nREPL speaks: byte strings, integers, lists and
//! dictionaries with byte-string keys in sorted order.

use vstd::prelude::*;
use crate::text::{decimal, decimal_digits, i64_to_string, usize_to_string};

verus! {

#[derive(Debug, PartialEq, Eq)]
pub enum BValue {
    Bytes(Vec<u8>),
    Int(i64),
    List(Vec<BValue>),
    /// Entries in ascending key order, each key once.
    Dict(Vec<(Vec<u8>, BValue)>),
}

/// What a bencoded value means.
pub enum BModel {
    Bytes(Seq<u8>),
    Int(int),
    List(Seq<BModel>),
    Dict(Seq<(Seq<u8>, BModel)>),
}

pub open spec fn model(v: BValue) -> BModel
    decreases v,
{
    match v {
        BValue::Bytes(b) => BModel::Bytes(b@),
        BValue::Int(n) => BModel::Int(n as int),
        BValue::List(vs) => BModel::List(models(vs@)),
        BValue::Dict(es) => BModel::Dict(entry_models(es@)),
    }
}

pub open spec fn models(vs: Seq<BValue>) -> Seq<BModel>
    decreases vs,
{
    if vs.len() == 0 {
        Seq::empty()
    } else {
        seq![model(vs[0])] + models(vs.subrange(1, vs.len() as int))
    }
}

pub open spec fn entry_models(es: Seq<(Vec<u8>, BValue)>) -> Seq<(Seq<u8>, BModel)>
    decreases es,
{
    if es.len() == 0 {
        Seq::empty()
    } else {
        seq![(es[0].0@, model(es[0].1))] + entry_models(es.subrange(1, es.len() as int))
    }
}

/// Byte-wise lexicographic order.
pub open spec fn bytes_lt(a: Seq<u8>, b: Seq<u8>) -> bool
    decreases a.len(),
{
    if a.len() == 0 {
        b.len() > 0
    } else if b.len() == 0 {
        false
    } else if a[0] != b[0] {
        a[0] < b[0]
    } else {
        bytes_lt(a.drop_first(), b.drop_first())
    }
}

/// Keys strictly ascending.
pub open spec fn keys_sorted(es: Seq<(Seq<u8>, BModel)>) -> bool {
    forall|i: int, j: int| 0 <= i < j < es.len() ==> bytes_lt(#[trigger] es[i].0, #[trigger] es[j].0)
}

/// Every dictionary, at every depth, has its keys in ascending order, and
/// every length and integer fits the machine types the decoder reads them
/// into.
pub open spec fn well_formed(m: BModel) -> bool
    decreases m,
{
    match m {
        BModel::Bytes(b) => b.len() <= usize::MAX,
        BModel::Int(n) => i64::MIN <= n <= i64::MAX,
        BModel::List(vs) => forall|k: int| 0 <= k < vs.len() ==> well_formed(#[trigger] vs[k]),
        BModel::Dict(es) => keys_sorted(es) && forall|k: int| 0 <= k < es.len() ==> (#[trigger] es[k]).0.len() <= usize::MAX
            && well_formed(es[k].1),
    }
}

/// The ASCII bytes of ASCII text.
pub open spec fn ascii(cs: Seq<char>) -> Seq<u8> {
    cs.map_values(|c: char| (c as u32) as u8)
}

/// Every character is ASCII.
pub open spec fn all_ascii(cs: Seq<char>) -> bool {
    forall|k: int| 0 <= k < cs.len() ==> (#[trigger] cs[k] as u32) < 128
}

pub proof fn lemma_digits_ascii(n: nat)
    ensures
        all_ascii(decimal_digits(n)),
    decreases n,
{
    if n >= 10 {
        lemma_digits_ascii(n / 10);
        let d = decimal_digits(n / 10);
        assert forall|k: int| 0 <= k < d.push(crate::text::digit_char(n % 10)).len() implies
            (#[trigger] d.push(crate::text::digit_char(n % 10))[k] as u32) < 128 by {
            if k < d.len() {
                assert(d.push(crate::text::digit_char(n % 10))[k] == d[k]);
            }
        }
    }
}

pub proof fn lemma_decimal_ascii(n: int)
    ensures
        all_ascii(decimal(n)),
{
    if n < 0 {
        lemma_digits_ascii((-n) as nat);
        let d = decimal_digits((-n) as nat);
        assert forall|k: int| 0 <= k < (seq!['-'] + d).len() implies ((#[trigger] (seq!['-'] + d)[k]) as u32) < 128 by {
            if k > 0 {
                assert((seq!['-'] + d)[k] == d[k - 1]);
            }
        }
    } else {
        lemma_digits_ascii(n as nat);
    }
}

/// The bencoding of a byte string: its length, `:`, the bytes.
pub open spec fn bytes_encoding(b: Seq<u8>) -> Seq<u8> {
    ascii(decimal_digits(b.len())) + seq![58u8] + b
}

/// The bencoding of a value.
pub open spec fn encoding(m: BModel) -> Seq<u8>
    decreases m,
{
    match m {
        BModel::Bytes(b) => bytes_encoding(b),
        BModel::Int(n) => seq![105u8] + ascii(decimal(n)) + seq![101u8],
        BModel::List(vs) => seq![108u8] + encode_all(vs) + seq![101u8],
        BModel::Dict(es) => seq![100u8] + encode_entries(es) + seq![101u8],
    }
}

pub open spec fn encode_all(vs: Seq<BModel>) -> Seq<u8>
    decreases vs,
{
    if vs.len() == 0 {
        Seq::empty()
    } else {
        encoding(vs[0]) + encode_all(vs.subrange(1, vs.len() as int))
    }
}

pub open spec fn encode_entries(es: Seq<(Seq<u8>, BModel)>) -> Seq<u8>
    decreases es,
{
    if es.len() == 0 {
        Seq::empty()
    } else {
        bytes_encoding(es[0].0) + encoding(es[0].1) + encode_entries(es.subrange(1, es.len() as int))
    }
}

/// Appends the ASCII bytes of `text`.
fn push_ascii(out: &mut Vec<u8>, text: &String)
    requires
        all_ascii(text@),
    ensures
        final(out)@ == old(out)@ + ascii(text@),
{
    let cs = crate::text::chars_of(text.as_str());
    let mut i: usize = 0;
    while i < cs.len()
        invariant
            i <= cs.len(),
            cs@ == text@,
            all_ascii(cs@),
            out@ == old(out)@ + ascii(cs@.take(i as int)),
        decreases cs.len() - i,
    {
        let c = cs[i];
        assert((cs@[i as int] as u32) < 128);
        let code: u32 = c as u32;
        let b: u8 = code as u8;
        out.push(b);
        proof {
            assert(ascii(cs@.take(i + 1)) =~= ascii(cs@.take(i as int)).push(b));
        }
        i += 1;
    }
    assert(cs@.take(cs.len() as int) =~= cs@);
}

fn push_all(out: &mut Vec<u8>, bytes: &Vec<u8>)
    ensures
        final(out)@ == old(out)@ + bytes@,
{
    let mut i: usize = 0;
    while i < bytes.len()
        invariant
            i <= bytes.len(),
            out@ == old(out)@ + bytes@.take(i as int),
        decreases bytes.len() - i,
    {
        out.push(bytes[i]);
        assert(bytes@.take(i + 1) =~= bytes@.take(i as int).push(bytes@[i as int]));
        i += 1;
    }
    assert(bytes@.take(bytes.len() as int) =~= bytes@);
}

fn encode_bytes(bytes: &Vec<u8>, out: &mut Vec<u8>)
    ensures
        final(out)@ == old(out)@ + encoding(BModel::Bytes(bytes@)),
{
    let len = usize_to_string(bytes.len());
    proof {
        lemma_digits_ascii(bytes.len() as nat);
    }
    push_ascii(out, &len);
    out.push(58u8);
    push_all(out, bytes);
    assert(final(out)@ =~= old(out)@ + encoding(BModel::Bytes(bytes@)));
}

/// Appends the bencoding of `value` to `out`.
#[verifier::loop_isolation(false)]
pub fn encode(value: &BValue, out: &mut Vec<u8>)
    ensures
        final(out)@ == old(out)@ + encoding(model(*value)),
    decreases value,
{
    match value {
        BValue::Bytes(bytes) => encode_bytes(bytes, out),
        BValue::Int(n) => {
            out.push(105u8);
            let text = i64_to_string(*n);
            proof {
                lemma_decimal_ascii(*n as int);
            }
            push_ascii(out, &text);
            out.push(101u8);
            assert(final(out)@ =~= old(out)@ + encoding(model(*value)));
        }
        BValue::List(values) => {
            out.push(108u8);
            let ghost start = out@;
            let mut i: usize = 0;
            assert(values@.subrange(0, 0) =~= Seq::<BValue>::empty());
            while i < values.len()
                invariant
                    i <= values.len(),
                    out@ == start + encode_all(models(values@.subrange(0, i as int))),
                decreases values.len() - i,
            {
                encode(&values[i], out);
                proof {
                    lemma_encode_all_push(values@.subrange(0, i as int), values@[i as int]);
                    assert(values@.subrange(0, i + 1) =~= values@.subrange(0, i as int).push(values@[i as int]));
                }
                i += 1;
            }
            out.push(101u8);
            assert(values@.subrange(0, values@.len() as int) =~= values@);
            assert(final(out)@ =~= old(out)@ + encoding(model(*value)));
        }
        BValue::Dict(entries) => {
            out.push(100u8);
            let ghost start = out@;
            let mut i: usize = 0;
            assert(entries@.subrange(0, 0) =~= Seq::<(Vec<u8>, BValue)>::empty());
            while i < entries.len()
                invariant
                    i <= entries.len(),
                    out@ == start + encode_entries(entry_models(entries@.subrange(0, i as int))),
                decreases entries.len() - i,
            {
                encode_bytes(&entries[i].0, out);
                encode(&entries[i].1, out);
                proof {
                    lemma_encode_entries_push(entries@.subrange(0, i as int), entries@[i as int]);
                    assert(entries@.subrange(0, i + 1) =~= entries@.subrange(0, i as int).push(entries@[i as int]));
                }
                i += 1;
            }
            out.push(101u8);
            assert(entries@.subrange(0, entries@.len() as int) =~= entries@);
            assert(final(out)@ =~= old(out)@ + encoding(model(*value)));
        }
    }
}

proof fn lemma_models_push(vs: Seq<BValue>, v: BValue)
    ensures
        models(vs.push(v)) == models(vs).push(model(v)),
    decreases vs.len(),
{
    if vs.len() == 0 {
        let w = vs.push(v);
        assert(w.subrange(1, 1) =~= Seq::<BValue>::empty());
        assert(models(Seq::<BValue>::empty()) =~= Seq::<BModel>::empty());
        assert(w[0] == v);
        assert(models(w) == seq![model(w[0])] + models(w.subrange(1, 1)));
        assert(models(vs) =~= Seq::<BModel>::empty());
        assert(models(w) =~= models(vs).push(model(v)));
    } else {
        assert(vs.push(v).subrange(1, vs.len() as int + 1) =~= vs.subrange(1, vs.len() as int).push(v));
        lemma_models_push(vs.subrange(1, vs.len() as int), v);
        assert(models(vs.push(v)) =~= models(vs).push(model(v)));
    }
}

proof fn lemma_encode_all_concat(a: Seq<BModel>, m: BModel)
    ensures
        encode_all(a.push(m)) == encode_all(a) + encoding(m),
    decreases a.len(),
{
    if a.len() == 0 {
        let w = a.push(m);
        assert(w.subrange(1, 1) =~= Seq::<BModel>::empty());
        assert(encode_all(Seq::<BModel>::empty()) =~= Seq::<u8>::empty());
        assert(w[0] == m);
        assert(encode_all(w) == encoding(w[0]) + encode_all(w.subrange(1, 1)));
        assert(encode_all(a) =~= Seq::<u8>::empty());
        assert(encode_all(w) =~= encode_all(a) + encoding(m));
    } else {
        assert(a.push(m).subrange(1, a.len() as int + 1) =~= a.subrange(1, a.len() as int).push(m));
        lemma_encode_all_concat(a.subrange(1, a.len() as int), m);
        assert(encode_all(a.push(m)) =~= encode_all(a) + encoding(m));
    }
}

proof fn lemma_encode_all_push(vs: Seq<BValue>, v: BValue)
    ensures
        encode_all(models(vs.push(v))) == encode_all(models(vs)) + encoding(model(v)),
{
    lemma_models_push(vs, v);
    lemma_encode_all_concat(models(vs), model(v));
}

proof fn lemma_entry_models_push(es: Seq<(Vec<u8>, BValue)>, e: (Vec<u8>, BValue))
    ensures
        entry_models(es.push(e)) == entry_models(es).push((e.0@, model(e.1))),
    decreases es.len(),
{
    if es.len() == 0 {
        let w = es.push(e);
        assert(w.subrange(1, 1) =~= Seq::<(Vec<u8>, BValue)>::empty());
        assert(entry_models(Seq::<(Vec<u8>, BValue)>::empty()) =~= Seq::<(Seq<u8>, BModel)>::empty());
        assert(w[0] == e);
        assert(entry_models(w) == seq![(w[0].0@, model(w[0].1))] + entry_models(w.subrange(1, 1)));
        assert(entry_models(es) =~= Seq::<(Seq<u8>, BModel)>::empty());
        assert(entry_models(w) =~= entry_models(es).push((e.0@, model(e.1))));
    } else {
        assert(es.push(e).subrange(1, es.len() as int + 1) =~= es.subrange(1, es.len() as int).push(e));
        lemma_entry_models_push(es.subrange(1, es.len() as int), e);
        assert(entry_models(es.push(e)) =~= entry_models(es).push((e.0@, model(e.1))));
    }
}

proof fn lemma_encode_entries_concat(a: Seq<(Seq<u8>, BModel)>, e: (Seq<u8>, BModel))
    ensures
        encode_entries(a.push(e)) == encode_entries(a) + bytes_encoding(e.0) + encoding(e.1),
    decreases a.len(),
{
    if a.len() == 0 {
        let w = a.push(e);
        assert(w.subrange(1, 1) =~= Seq::<(Seq<u8>, BModel)>::empty());
        assert(encode_entries(Seq::<(Seq<u8>, BModel)>::empty()) =~= Seq::<u8>::empty());
        assert(w[0] == e);
        assert(encode_entries(w) == bytes_encoding(w[0].0) + encoding(w[0].1) + encode_entries(w.subrange(1, 1)));
        assert(encode_entries(a) =~= Seq::<u8>::empty());
        assert(encode_entries(w) =~= encode_entries(a) + bytes_encoding(e.0) + encoding(e.1));
    } else {
        assert(a.push(e).subrange(1, a.len() as int + 1) =~= a.subrange(1, a.len() as int).push(e));
        lemma_encode_entries_concat(a.subrange(1, a.len() as int), e);
        assert(encode_entries(a.push(e)) =~= encode_entries(a) + bytes_encoding(e.0) + encoding(e.1));
    }
}

proof fn lemma_encode_entries_push(es: Seq<(Vec<u8>, BValue)>, e: (Vec<u8>, BValue))
    ensures
        encode_entries(entry_models(es.push(e))) == encode_entries(entry_models(es)) + bytes_encoding(e.0@)
            + encoding(model(e.1)),
{
    lemma_entry_models_push(es, e);
    lemma_encode_entries_concat(entry_models(es), (e.0@, model(e.1)));
}

/// The outcome of reading something from a buffer: the thing and the
/// position after it, a need for more bytes, or malformed input.
pub enum Parsed<T> {
    Done(T, int),
    Incomplete,
    Invalid,
}

/// The first position at or after `p` holding `t`, or `b.len()`.
pub open spec fn find_byte(b: Seq<u8>, p: int, t: u8) -> int
    decreases b.len() - p,
{
    if p < 0 || p >= b.len() {
        b.len() as int
    } else if b[p] == t {
        p
    } else {
        find_byte(b, p + 1, t)
    }
}

pub open spec fn is_digit_byte(c: u8) -> bool {
    48 <= c <= 57
}

/// The value of a run of decimal digits.
pub open spec fn digits_value(ds: Seq<u8>) -> nat
    decreases ds.len(),
{
    if ds.len() == 0 {
        0
    } else {
        digits_value(ds.drop_last()) * 10 + (ds.last() - 48) as nat
    }
}

/// Decimal digits, at least one.
pub open spec fn parse_nat(ds: Seq<u8>) -> Option<nat> {
    if ds.len() > 0 && forall|k: int| 0 <= k < ds.len() ==> is_digit_byte(#[trigger] ds[k]) {
        Some(digits_value(ds))
    } else {
        None
    }
}

/// A length as `str::parse::<usize>` reads it: an optional `+`, then
/// digits, within `usize`.
pub open spec fn parse_length(t: Seq<u8>) -> Option<nat> {
    let ds = if t.len() > 0 && t[0] == 43u8 { t.drop_first() } else { t };
    match parse_nat(ds) {
        Some(n) => if n <= usize::MAX { Some(n) } else { None },
        None => None,
    }
}

/// An integer as `str::parse::<i64>` reads it: an optional sign, then
/// digits, within `i64`.
pub open spec fn parse_integer(t: Seq<u8>) -> Option<int> {
    if t.len() > 0 && t[0] == 45u8 {
        match parse_nat(t.drop_first()) {
            Some(n) => if n <= 9223372036854775808 { Some(-(n as int)) } else { None },
            None => None,
        }
    } else {
        let ds = if t.len() > 0 && t[0] == 43u8 { t.drop_first() } else { t };
        match parse_nat(ds) {
            Some(n) => if n <= 9223372036854775807 { Some(n as int) } else { None },
            None => None,
        }
    }
}

/// Inserts into entries sorted by key, replacing an entry with the same
/// key.
pub open spec fn map_insert(es: Seq<(Seq<u8>, BModel)>, k: Seq<u8>, v: BModel) -> Seq<(Seq<u8>, BModel)>
    decreases es.len(),
{
    if es.len() == 0 {
        seq![(k, v)]
    } else if es[0].0 == k {
        seq![(k, v)] + es.drop_first()
    } else if bytes_lt(k, es[0].0) {
        seq![(k, v)] + es
    } else {
        seq![es[0]] + map_insert(es.drop_first(), k, v)
    }
}

/// The value that starts at `p`.
pub open spec fn value_at(b: Seq<u8>, p: int) -> Parsed<BModel>
    decreases b.len() - p, 0nat,
{
    if p < 0 || p >= b.len() {
        Parsed::Incomplete
    } else if b[p] == 105u8 {
        let q = find_byte(b, p + 1, 101u8);
        if q >= b.len() {
            Parsed::Incomplete
        } else {
            match parse_integer(b.subrange(p + 1, q)) {
                Some(n) => Parsed::Done(BModel::Int(n), q + 1),
                None => Parsed::Invalid,
            }
        }
    } else if b[p] == 108u8 {
        match items_at(b, p + 1, Seq::empty()) {
            Parsed::Done(vs, r) => Parsed::Done(BModel::List(vs), r),
            Parsed::Incomplete => Parsed::Incomplete,
            Parsed::Invalid => Parsed::Invalid,
        }
    } else if b[p] == 100u8 {
        match entries_at(b, p + 1, Seq::empty()) {
            Parsed::Done(es, r) => Parsed::Done(BModel::Dict(es), r),
            Parsed::Incomplete => Parsed::Incomplete,
            Parsed::Invalid => Parsed::Invalid,
        }
    } else if is_digit_byte(b[p]) {
        let q = find_byte(b, p, 58u8);
        if q >= b.len() {
            Parsed::Incomplete
        } else {
            match parse_length(b.subrange(p, q)) {
                Some(n) => if q + 1 + n <= b.len() {
                    Parsed::Done(BModel::Bytes(b.subrange(q + 1, q + 1 + n)), q + 1 + n)
                } else {
                    Parsed::Incomplete
                },
                None => Parsed::Invalid,
            }
        }
    } else {
        Parsed::Invalid
    }
}

/// The list items from `p` up to their closing `e`, after `acc`.
pub open spec fn items_at(b: Seq<u8>, p: int, acc: Seq<BModel>) -> Parsed<Seq<BModel>>
    decreases b.len() - p, 1nat,
{
    if p < 0 || p >= b.len() {
        Parsed::Incomplete
    } else if b[p] == 101u8 {
        Parsed::Done(acc, p + 1)
    } else {
        match value_at(b, p) {
            Parsed::Done(v, q) => if p < q <= b.len() {
                items_at(b, q, acc.push(v))
            } else {
                Parsed::Invalid
            },
            Parsed::Incomplete => Parsed::Incomplete,
            Parsed::Invalid => Parsed::Invalid,
        }
    }
}

/// The dictionary entries from `p` up to their closing `e`, inserted
/// into `acc`.
pub open spec fn entries_at(b: Seq<u8>, p: int, acc: Seq<(Seq<u8>, BModel)>) -> Parsed<Seq<(Seq<u8>, BModel)>>
    decreases b.len() - p, 1nat,
{
    if p < 0 || p >= b.len() {
        Parsed::Incomplete
    } else if b[p] == 101u8 {
        Parsed::Done(acc, p + 1)
    } else {
        match value_at(b, p) {
            Parsed::Done(BModel::Bytes(k), q) => if p < q <= b.len() {
                match value_at(b, q) {
                    Parsed::Done(v, r) => if q < r <= b.len() {
                        entries_at(b, r, map_insert(acc, k, v))
                    } else {
                        Parsed::Invalid
                    },
                    Parsed::Incomplete => Parsed::Incomplete,
                    Parsed::Invalid => Parsed::Invalid,
                }
            } else {
                Parsed::Invalid
            },
            Parsed::Done(_, _) => Parsed::Invalid,
            Parsed::Incomplete => Parsed::Incomplete,
            Parsed::Invalid => Parsed::Invalid,
        }
    }
}

/// What reading a value from a buffer gave.
#[derive(Debug)]
pub enum Decoded {
    /// The value and the position after it.
    Value(BValue, usize),
    /// The buffer ends before the value does.
    Incomplete,
    /// The bytes are not bencode; the message says why.
    Invalid(String),
}

pub open spec fn decoded_model(d: Decoded) -> Parsed<BModel> {
    match d {
        Decoded::Value(v, q) => Parsed::Done(model(v), q as int),
        Decoded::Incomplete => Parsed::Incomplete,
        Decoded::Invalid(_) => Parsed::Invalid,
    }
}

/// Where `t` next occurs at or after `p`, or `b.len()`.
fn find_byte_exec(b: &Vec<u8>, p: usize, t: u8) -> (out: usize)
    requires
        p <= b.len(),
    ensures
        out == find_byte(b@, p as int, t),
        p <= out <= b.len(),
{
    let mut q = p;
    while q < b.len()
        invariant
            p <= q <= b.len(),
            find_byte(b@, p as int, t) == find_byte(b@, q as int, t),
        decreases b.len() - q,
    {
        if b[q] == t {
            return q;
        }
        q += 1;
    }
    q
}

proof fn lemma_digits_grow(pre: Seq<u8>, full: Seq<u8>)
    requires
        pre.len() <= full.len(),
        full.take(pre.len() as int) == pre,
        forall|k: int| 0 <= k < full.len() ==> is_digit_byte(#[trigger] full[k]),
    ensures
        digits_value(full) >= digits_value(pre),
    decreases full.len(),
{
    if full.len() > pre.len() {
        let shorter = full.drop_last();
        assert(shorter.take(pre.len() as int) =~= pre);
        assert forall|k: int| 0 <= k < shorter.len() implies is_digit_byte(#[trigger] shorter[k]) by {
            assert(shorter[k] == full[k]);
        }
        lemma_digits_grow(pre, shorter);
    } else {
        assert(full =~= pre);
    }
}

/// The value of decimal digits `b[from..to]`, if it fits under `limit`.
fn digits_exec(b: &Vec<u8>, from: usize, to: usize, limit: u64) -> (out: Option<u64>)
    requires
        from <= to <= b.len(),
        limit >= 9,
    ensures
        out matches Some(n) ==> parse_nat(b@.subrange(from as int, to as int)) == Some(n as nat) && n <= limit,
        out is None ==> match parse_nat(b@.subrange(from as int, to as int)) {
            Some(n) => n > limit,
            None => true,
        },
{
    if from == to {
        return None;
    }
    let ghost ds = b@.subrange(from as int, to as int);
    let mut value: u64 = 0;
    let mut i = from;
    while i < to
        invariant
            from <= i <= to <= b.len(),
            ds == b@.subrange(from as int, to as int),
            value <= limit,
            limit >= 9,
            value == digits_value(b@.subrange(from as int, i as int)),
            forall|k: int| from <= k < i ==> is_digit_byte(#[trigger] b@[k]),
        decreases to - i,
    {
        let c = b[i];
        proof {
            assert(b@.subrange(from as int, i + 1).drop_last() =~= b@.subrange(from as int, i as int));
            assert(b@.subrange(from as int, i + 1).last() == c);
        }
        if !(48u8 <= c && c <= 57u8) {
            proof {
                assert(ds[i - from] == c);
                assert(!is_digit_byte(ds[i - from]));
            }
            return None;
        }
        let d: u64 = (c - 48u8) as u64;
        if value > (limit - d) / 10 {
            proof {
                let pre = b@.subrange(from as int, i + 1);
                assert(digits_value(pre) == value * 10 + d);
                assert(value * 10 + d > limit) by (nonlinear_arith)
                    requires
                        value > (limit - d) / 10,
                        d <= 9,
                        limit >= 9,
                ;
                if parse_nat(ds) is Some {
                    assert(ds.take(pre.len() as int) =~= pre);
                    lemma_digits_grow(pre, ds);
                }
            }
            return None;
        }
        assert(value * 10 + d <= limit) by (nonlinear_arith)
            requires
                value <= (limit - d) / 10,
                d <= 9,
                limit >= 9,
        ;
        value = value * 10 + d;
        assert(is_digit_byte(b@[i as int]));
        i += 1;
    }
    proof {
        assert(b@.subrange(from as int, to as int) =~= ds);
        assert forall|k: int| 0 <= k < ds.len() implies is_digit_byte(#[trigger] ds[k]) by {
            assert(ds[k] == b@[from + k]);
        }
    }
    Some(value)
}

/// Whether `a` sorts before `b`, byte by byte.
pub fn bytes_less(a: &Vec<u8>, b: &Vec<u8>) -> (r: bool)
    ensures
        r == bytes_lt(a@, b@),
{
    let mut i: usize = 0;
    assert(a@.skip(0) =~= a@);
    assert(b@.skip(0) =~= b@);
    while i < a.len() && i < b.len() && a[i] == b[i]
        invariant
            i <= a.len(),
            i <= b.len(),
            bytes_lt(a@, b@) == bytes_lt(a@.skip(i as int), b@.skip(i as int)),
        decreases a.len() - i,
    {
        proof {
            let x = a@.skip(i as int);
            let y = b@.skip(i as int);
            assert(x.drop_first() =~= a@.skip(i + 1));
            assert(y.drop_first() =~= b@.skip(i + 1));
            assert(x[0] == a@[i as int]);
            assert(y[0] == b@[i as int]);
        }
        i += 1;
    }
    proof {
        let x = a@.skip(i as int);
        let y = b@.skip(i as int);
        if i < a.len() && i < b.len() {
            assert(x[0] == a@[i as int]);
            assert(y[0] == b@[i as int]);
        }
    }
    if i == a.len() {
        i < b.len()
    } else if i == b.len() {
        false
    } else {
        a[i] < b[i]
    }
}

fn bytes_equal(a: &Vec<u8>, b: &Vec<u8>) -> (r: bool)
    ensures
        r == (a@ == b@),
{
    if a.len() != b.len() {
        return false;
    }
    let mut i: usize = 0;
    while i < a.len()
        invariant
            i <= a.len(),
            a.len() == b.len(),
            forall|k: int| 0 <= k < i ==> a@[k] == b@[k],
        decreases a.len() - i,
    {
        if a[i] != b[i] {
            return false;
        }
        i += 1;
    }
    assert(a@ =~= b@);
    true
}

proof fn lemma_map_insert_at(es: Seq<(Seq<u8>, BModel)>, k: Seq<u8>, v: BModel, j: int)
    requires
        0 <= j <= es.len(),
        forall|i: int| 0 <= i < j ==> (#[trigger] es[i]).0 != k && !bytes_lt(k, es[i].0),
        j < es.len() ==> es[j].0 == k || bytes_lt(k, es[j].0),
    ensures
        map_insert(es, k, v) == if j < es.len() && es[j].0 == k {
            es.take(j) + seq![(k, v)] + es.skip(j + 1)
        } else {
            es.take(j) + seq![(k, v)] + es.skip(j)
        },
    decreases j,
{
    if j == 0 {
        if es.len() > 0 && es[0].0 == k {
            assert(es.drop_first() =~= es.skip(1));
        }
        assert(es.take(0) + seq![(k, v)] + es.skip(0) =~= seq![(k, v)] + es);
        assert(es.take(0) + seq![(k, v)] + es.skip(1) =~= seq![(k, v)] + es.skip(1));
    } else {
        let rest = es.drop_first();
        assert forall|i: int| 0 <= i < j - 1 implies (#[trigger] rest[i]).0 != k && !bytes_lt(k, rest[i].0) by {
            assert(rest[i] == es[i + 1]);
        }
        if j < es.len() {
            assert(rest[j - 1] == es[j]);
        }
        lemma_map_insert_at(rest, k, v, j - 1);
        assert(es[0].0 != k && !bytes_lt(k, es[0].0));
        if j < es.len() && es[j].0 == k {
            assert(seq![es[0]] + (rest.take(j - 1) + seq![(k, v)] + rest.skip(j)) =~= es.take(j) + seq![(k, v)] + es.skip(j + 1));
        } else {
            assert(seq![es[0]] + (rest.take(j - 1) + seq![(k, v)] + rest.skip(j - 1)) =~= es.take(j) + seq![(k, v)] + es.skip(j));
        }
    }
}

/// Adds an entry to a sorted dictionary, replacing one with the same key.
fn dict_insert(entries: &mut Vec<(Vec<u8>, BValue)>, key: Vec<u8>, value: BValue)
    ensures
        entry_models(final(entries)@) == map_insert(entry_models(old(entries)@), key@, model(value)),
{
    let ghost es = entry_models(entries@);
    proof {
        lemma_entry_models_index(entries@);
    }
    let mut j: usize = 0;
    while j < entries.len() && !bytes_equal(&entries[j].0, &key) && !bytes_less(&key, &entries[j].0)
        invariant
            j <= entries.len(),
            es == entry_models(entries@),
            es.len() == entries@.len(),
            forall|i: int| 0 <= i < es.len() ==> (#[trigger] es[i]) == (entries@[i].0@, model(entries@[i].1)),
            forall|i: int| 0 <= i < j ==> (#[trigger] es[i]).0 != key@ && !bytes_lt(key@, es[i].0),
        decreases entries.len() - j,
    {
        j += 1;
    }
    let replace = j < entries.len() && bytes_equal(&entries[j].0, &key);
    proof {
        lemma_map_insert_at(es, key@, model(value), j as int);
    }
    let ghost before = entries@;
    if replace {
        entries.remove(j);
    }
    entries.insert(j, (key, value));
    proof {
        lemma_entry_models_index(entries@);
        let target = map_insert(es, key@, model(value));
        assert(entry_models(entries@).len() == target.len());
        assert forall|i: int| 0 <= i < target.len() implies entry_models(entries@)[i] == target[i] by {
            if i < j {
                assert(entries@[i] == before[i]);
            } else if i > j {
                if replace {
                    assert(entries@[i] == before[i]);
                } else {
                    assert(entries@[i] == before[i - 1]);
                }
            }
        }
        assert(entry_models(entries@) =~= target);
    }
}

proof fn lemma_entry_models_index(es: Seq<(Vec<u8>, BValue)>)
    ensures
        entry_models(es).len() == es.len(),
        forall|i: int| 0 <= i < es.len() ==> (#[trigger] entry_models(es)[i]) == (es[i].0@, model(es[i].1)),
    decreases es.len(),
{
    if es.len() > 0 {
        let rest = es.subrange(1, es.len() as int);
        lemma_entry_models_index(rest);
        assert forall|i: int| 0 <= i < es.len() implies (#[trigger] entry_models(es)[i]) == (es[i].0@, model(es[i].1)) by {
            if i > 0 {
                assert(entry_models(es)[i] == entry_models(rest)[i - 1]);
                assert(rest[i - 1] == es[i]);
            }
        }
    }
}

/// A length `b[from..to]` as `str::parse::<usize>` reads it.
fn parse_length_exec(b: &Vec<u8>, from: usize, to: usize) -> (out: Option<usize>)
    requires
        from <= to <= b.len(),
    ensures
        out matches Some(n) ==> parse_length(b@.subrange(from as int, to as int)) == Some(n as nat),
        out is None ==> parse_length(b@.subrange(from as int, to as int)) is None,
{
    let ghost t = b@.subrange(from as int, to as int);
    let start = if from < to && b[from] == 43u8 { from + 1 } else { from };
    proof {
        if from < to && b@[from as int] == 43u8 {
            assert(t.drop_first() =~= b@.subrange(start as int, to as int));
        } else {
            assert(t =~= b@.subrange(start as int, to as int));
        }
    }
    let limit: u64 = usize::MAX as u64;
    match digits_exec(b, start, to, limit) {
        Some(n) => Some(n as usize),
        None => None,
    }
}

/// An integer `b[from..to]` as `str::parse::<i64>` reads it.
fn parse_integer_exec(b: &Vec<u8>, from: usize, to: usize) -> (out: Option<i64>)
    requires
        from <= to <= b.len(),
    ensures
        out matches Some(n) ==> parse_integer(b@.subrange(from as int, to as int)) == Some(n as int),
        out is None ==> parse_integer(b@.subrange(from as int, to as int)) is None,
{
    let ghost t = b@.subrange(from as int, to as int);
    if from < to && b[from] == 45u8 {
        assert(t.drop_first() =~= b@.subrange(from + 1, to as int));
        match digits_exec(b, from + 1, to, 9223372036854775808u64) {
            Some(n) => {
                if n == 9223372036854775808u64 {
                    Some(i64::MIN)
                } else {
                    Some(-(n as i64))
                }
            }
            None => None,
        }
    } else {
        let start = if from < to && b[from] == 43u8 { from + 1 } else { from };
        proof {
            if from < to && b@[from as int] == 43u8 {
                assert(t.drop_first() =~= b@.subrange(start as int, to as int));
            } else {
                assert(t =~= b@.subrange(start as int, to as int));
            }
        }
        match digits_exec(b, start, to, 9223372036854775807u64) {
            Some(n) => Some(n as i64),
            None => None,
        }
    }
}

/// Reads the value that starts at `p`.
#[verifier::loop_isolation(false)]
pub fn decode(b: &Vec<u8>, p: usize) -> (out: Decoded)
    ensures
        decoded_model(out) == value_at(b@, p as int),
        out matches Decoded::Value(_, q) ==> p < q <= b.len(),
    decreases b.len() - p, 0nat,
{
    if p >= b.len() {
        return Decoded::Incomplete;
    }
    let c = b[p];
    if c == 105u8 {
        let q = find_byte_exec(b, p + 1, 101u8);
        if q >= b.len() {
            return Decoded::Incomplete;
        }
        match parse_integer_exec(b, p + 1, q) {
            Some(n) => Decoded::Value(BValue::Int(n), q + 1),
            None => Decoded::Invalid(crate::text::owned("invalid bencode integer")),
        }
    } else if c == 108u8 {
        let mut values: Vec<BValue> = Vec::new();
        let mut q = p + 1;
        proof {
            assert(models(values@) =~= Seq::<BModel>::empty());
        }
        loop
            invariant
                p < q <= b.len(),
                items_at(b@, q as int, models(values@)) == items_at(b@, p + 1, Seq::empty()),
            decreases b.len() - q,
        {
            if q >= b.len() {
                return Decoded::Incomplete;
            }
            if b[q] == 101u8 {
                return Decoded::Value(BValue::List(values), q + 1);
            }
            match decode(b, q) {
                Decoded::Value(v, r) => {
                    proof {
                        lemma_models_push(values@, v);
                    }
                    values.push(v);
                    q = r;
                }
                Decoded::Incomplete => {
                    return Decoded::Incomplete;
                }
                Decoded::Invalid(message) => {
                    return Decoded::Invalid(message);
                }
            }
        }
    } else if c == 100u8 {
        let mut entries: Vec<(Vec<u8>, BValue)> = Vec::new();
        let mut q = p + 1;
        proof {
            assert(entry_models(entries@) =~= Seq::<(Seq<u8>, BModel)>::empty());
        }
        loop
            invariant
                p < q <= b.len(),
                entries_at(b@, q as int, entry_models(entries@)) == entries_at(b@, p + 1, Seq::empty()),
            decreases b.len() - q,
        {
            if q >= b.len() {
                return Decoded::Incomplete;
            }
            if b[q] == 101u8 {
                return Decoded::Value(BValue::Dict(entries), q + 1);
            }
            let key = match decode(b, q) {
                Decoded::Value(BValue::Bytes(key), r) => {
                    q = r;
                    key
                }
                Decoded::Value(_, _) => {
                    return Decoded::Invalid(crate::text::owned("dictionary key is not bytes"));
                }
                Decoded::Incomplete => {
                    return Decoded::Incomplete;
                }
                Decoded::Invalid(message) => {
                    return Decoded::Invalid(message);
                }
            };
            match decode(b, q) {
                Decoded::Value(v, r) => {
                    dict_insert(&mut entries, key, v);
                    q = r;
                }
                Decoded::Incomplete => {
                    return Decoded::Incomplete;
                }
                Decoded::Invalid(message) => {
                    return Decoded::Invalid(message);
                }
            }
        }
    } else if 48u8 <= c && c <= 57u8 {
        let q = find_byte_exec(b, p, 58u8);
        if q >= b.len() {
            return Decoded::Incomplete;
        }
        match parse_length_exec(b, p, q) {
            Some(n) => {
                if n <= b.len() - (q + 1) {
                    let mut bytes: Vec<u8> = Vec::new();
                    let mut i = q + 1;
                    while i < q + 1 + n
                        invariant
                            q + 1 <= i <= q + 1 + n <= b.len(),
                            bytes@ == b@.subrange(q + 1, i as int),
                        decreases q + 1 + n - i,
                    {
                        bytes.push(b[i]);
                        assert(bytes@ =~= b@.subrange(q + 1, i + 1));
                        i += 1;
                    }
                    Decoded::Value(BValue::Bytes(bytes), q + 1 + n)
                } else {
                    Decoded::Incomplete
                }
            }
            None => Decoded::Invalid(crate::text::owned("invalid bencode length")),
        }
    } else {
        Decoded::Invalid(crate::text::owned("unexpected bencode marker"))
    }
}

/// A decimal length `b[from..to]` as `str::parse::<usize>` reads it.
pub fn parse_length_text(b: &Vec<u8>, from: usize, to: usize) -> (out: Option<usize>)
    requires
        from <= to <= b.len(),
    ensures
        out matches Some(n) ==> parse_length(b@.subrange(from as int, to as int)) == Some(n as nat),
        out is None ==> parse_length(b@.subrange(from as int, to as int)) is None,
{
    parse_length_exec(b, from, to)
}

proof fn lemma_digit_char_byte(d: nat)
    requires
        d < 10,
    ensures
        (crate::text::digit_char(d) as u32) as u8 == 48 + d,
{
}

/// The ASCII digits of `n` spell `n`.
proof fn lemma_parse_digits(n: nat)
    ensures
        parse_nat(ascii(decimal_digits(n))) == Some(n),
        ascii(decimal_digits(n)).len() > 0,
        forall|k: int| 0 <= k < ascii(decimal_digits(n)).len() ==> is_digit_byte(#[trigger] ascii(decimal_digits(n))[k]),
    decreases n,
{
    let ds = ascii(decimal_digits(n));
    if n < 10 {
        lemma_digit_char_byte(n);
        assert(ds =~= seq![(48 + n) as u8]);
        assert(ds.drop_last() =~= Seq::<u8>::empty());
        assert(digits_value(ds) == digits_value(ds.drop_last()) * 10 + (ds.last() - 48) as nat);
    } else {
        lemma_parse_digits(n / 10);
        lemma_digit_char_byte(n % 10);
        let prefix = ascii(decimal_digits(n / 10));
        assert(ds =~= prefix.push((48 + n % 10) as u8));
        assert(ds.drop_last() =~= prefix);
        assert(digits_value(ds) == digits_value(prefix) * 10 + (n % 10));
        assert(n == (n / 10) * 10 + n % 10);
        assert forall|k: int| 0 <= k < ds.len() implies is_digit_byte(#[trigger] ds[k]) by {
            if k < prefix.len() {
                assert(ds[k] == prefix[k]);
            }
        }
    }
}

/// `find_byte` stops at the first `t` after a run without one.
proof fn lemma_find_after(b: Seq<u8>, p: int, k: int, t: u8)
    requires
        0 <= p,
        0 <= k,
        p + k < b.len(),
        b[p + k] == t,
        forall|i: int| p <= i < p + k ==> b[i] != t,
    ensures
        find_byte(b, p, t) == p + k,
    decreases k,
{
    if k > 0 {
        lemma_find_after(b, p + 1, k - 1, t);
    }
}

/// Where `x + y` stands in `b` at `p`, `x` stands at `p` and `y` right
/// after it.
proof fn lemma_split(b: Seq<u8>, p: int, x: Seq<u8>, y: Seq<u8>)
    requires
        0 <= p,
        p + x.len() + y.len() <= b.len(),
        b.subrange(p, p + x.len() + y.len()) == x + y,
    ensures
        b.subrange(p, p + x.len()) == x,
        b.subrange(p + x.len(), p + x.len() + y.len()) == y,
{
    assert(b.subrange(p, p + x.len()) =~= (x + y).subrange(0, x.len() as int));
    assert(b.subrange(p + x.len(), p + x.len() + y.len()) =~= (x + y).subrange(x.len() as int, (x.len() + y.len()) as int));
    assert((x + y).subrange(0, x.len() as int) =~= x);
    assert((x + y).subrange(x.len() as int, (x.len() + y.len()) as int) =~= y);
}

/// A byte string's encoding reads back as that byte string.
proof fn lemma_bytes_roundtrip(bs: Seq<u8>, b: Seq<u8>, p: int)
    requires
        bs.len() <= usize::MAX,
        0 <= p,
        p + bytes_encoding(bs).len() <= b.len(),
        b.subrange(p, p + bytes_encoding(bs).len()) == bytes_encoding(bs),
    ensures
        value_at(b, p) == Parsed::Done(BModel::Bytes(bs), p + bytes_encoding(bs).len()),
{
    let ds = ascii(decimal_digits(bs.len()));
    lemma_parse_digits(bs.len());
    let enc = bytes_encoding(bs);
    assert(enc == ds + seq![58u8] + bs);
    lemma_split(b, p, ds + seq![58u8], bs);
    lemma_split(b, p, ds, seq![58u8]);
    assert(b[p] == b.subrange(p, p + ds.len())[0]);
    assert(is_digit_byte(b[p]));
    let q = p + ds.len();
    assert(b[q] == b.subrange(q, q + 1)[0]);
    assert forall|i: int| p <= i < q implies b[i] != 58u8 by {
        assert(b[i] == b.subrange(p, q)[i - p]);
        assert(is_digit_byte(ds[i - p]));
    }
    lemma_find_after(b, p, ds.len() as int, 58u8);
    assert(b.subrange(p, q) == ds);
    assert(!(ds.len() > 0 && ds[0] == 43u8));
    assert(parse_length(b.subrange(p, q)) == Some(bs.len()));
    assert(b.subrange(q + 1, q + 1 + bs.len()) == bs);
}

/// An integer's encoding reads back as that integer.
proof fn lemma_int_roundtrip(n: int, b: Seq<u8>, p: int)
    requires
        i64::MIN <= n <= i64::MAX,
        0 <= p,
        p + encoding(BModel::Int(n)).len() <= b.len(),
        b.subrange(p, p + encoding(BModel::Int(n)).len()) == encoding(BModel::Int(n)),
    ensures
        value_at(b, p) == Parsed::Done(BModel::Int(n), p + encoding(BModel::Int(n)).len()),
{
    let t = ascii(decimal(n));
    let enc = encoding(BModel::Int(n));
    assert(enc == seq![105u8] + t + seq![101u8]);
    lemma_split(b, p, seq![105u8] + t, seq![101u8]);
    lemma_split(b, p, seq![105u8], t);
    assert(b[p] == b.subrange(p, p + 1)[0]);
    let q = p + 1 + t.len();
    assert(b[q] == b.subrange(q, q + 1)[0]);
    if n < 0 {
        let ds = ascii(decimal_digits((-n) as nat));
        lemma_parse_digits((-n) as nat);
        assert(t =~= seq![45u8] + ds);
        assert(t.drop_first() =~= ds);
        assert forall|i: int| p + 1 <= i < q implies b[i] != 101u8 by {
            assert(b[i] == t[i - p - 1]);
            if i > p + 1 {
                assert(t[i - p - 1] == ds[i - p - 2]);
                assert(is_digit_byte(ds[i - p - 2]));
            }
        }
    } else {
        let ds = ascii(decimal_digits(n as nat));
        lemma_parse_digits(n as nat);
        assert(t =~= ds);
        assert forall|i: int| p + 1 <= i < q implies b[i] != 101u8 by {
            assert(b[i] == t[i - p - 1]);
            assert(is_digit_byte(ds[i - p - 1]));
        }
        assert(is_digit_byte(t[0]));
    }
    lemma_find_after(b, p + 1, t.len() as int, 101u8);
    assert(b.subrange(p + 1, q) == t);
}

proof fn lemma_bytes_lt_irreflexive(a: Seq<u8>)
    ensures
        !bytes_lt(a, a),
    decreases a.len(),
{
    if a.len() > 0 {
        lemma_bytes_lt_irreflexive(a.drop_first());
    }
}

proof fn lemma_bytes_lt_asymmetric(a: Seq<u8>, b: Seq<u8>)
    requires
        bytes_lt(a, b),
    ensures
        !bytes_lt(b, a),
    decreases a.len(),
{
    if a.len() > 0 && b.len() > 0 && a[0] == b[0] {
        lemma_bytes_lt_asymmetric(a.drop_first(), b.drop_first());
    }
}

/// Inserting a key larger than every key appends it.
proof fn lemma_map_insert_last(acc: Seq<(Seq<u8>, BModel)>, k: Seq<u8>, v: BModel)
    requires
        forall|i: int| 0 <= i < acc.len() ==> bytes_lt(#[trigger] acc[i].0, k),
    ensures
        map_insert(acc, k, v) == acc.push((k, v)),
    decreases acc.len(),
{
    if acc.len() > 0 {
        lemma_bytes_lt_irreflexive(k);
        lemma_bytes_lt_asymmetric(acc[0].0, k);
        let rest = acc.drop_first();
        assert forall|i: int| 0 <= i < rest.len() implies bytes_lt(#[trigger] rest[i].0, k) by {
            assert(rest[i] == acc[i + 1]);
        }
        lemma_map_insert_last(rest, k, v);
        assert(seq![acc[0]] + rest.push((k, v)) =~= acc.push((k, v)));
    } else {
        assert(seq![(k, v)] =~= acc.push((k, v)));
    }
}

/// The first byte of any encoding is never the closing `e`.
proof fn lemma_first_byte(m: BModel)
    ensures
        encoding(m).len() >= 2,
        encoding(m)[0] != 101u8,
{
    match m {
        BModel::Bytes(bs) => {
            lemma_parse_digits(bs.len());
            let ds = ascii(decimal_digits(bs.len()));
            assert(encoding(m)[0] == ds[0]);
            assert(is_digit_byte(ds[0]));
        }
        _ => {}
    }
}

/// Decoding the encoding of a well-formed value, wherever it stands,
/// gives back the value and the position right after it.
pub proof fn law_decode_encode(m: BModel, b: Seq<u8>, p: int)
    requires
        well_formed(m),
        0 <= p,
        p + encoding(m).len() <= b.len(),
        b.subrange(p, p + encoding(m).len()) == encoding(m),
    ensures
        value_at(b, p) == Parsed::Done(m, p + encoding(m).len()),
    decreases m, 1nat,
{
    match m {
        BModel::Bytes(bs) => {
            lemma_bytes_roundtrip(bs, b, p);
        }
        BModel::Int(n) => {
            lemma_int_roundtrip(n, b, p);
        }
        BModel::List(vs) => {
            let body = encode_all(vs);
            assert(encoding(m) == seq![108u8] + body + seq![101u8]);
            lemma_split(b, p, seq![108u8] + body, seq![101u8]);
            lemma_split(b, p, seq![108u8], body);
            assert(b[p] == b.subrange(p, p + 1)[0]);
            let close = p + 1 + body.len();
            assert(b[close] == b.subrange(close, close + 1)[0]);
            lemma_items(vs, Seq::empty(), b, p + 1);
            assert(Seq::<BModel>::empty() + vs =~= vs);
        }
        BModel::Dict(es) => {
            let body = encode_entries(es);
            assert(encoding(m) == seq![100u8] + body + seq![101u8]);
            lemma_split(b, p, seq![100u8] + body, seq![101u8]);
            lemma_split(b, p, seq![100u8], body);
            assert(b[p] == b.subrange(p, p + 1)[0]);
            let close = p + 1 + body.len();
            assert(b[close] == b.subrange(close, close + 1)[0]);
            assert(Seq::<(Seq<u8>, BModel)>::empty() + es =~= es);
            lemma_entries(es, Seq::empty(), b, p + 1);
        }
    }
}

/// Encoded list items followed by `e` read back as those items.
proof fn lemma_items(vs: Seq<BModel>, acc: Seq<BModel>, b: Seq<u8>, q: int)
    requires
        forall|k: int| 0 <= k < vs.len() ==> well_formed(#[trigger] vs[k]),
        0 <= q,
        q + encode_all(vs).len() < b.len(),
        b.subrange(q, q + encode_all(vs).len()) == encode_all(vs),
        b[q + encode_all(vs).len()] == 101u8,
    ensures
        items_at(b, q, acc) == Parsed::Done(acc + vs, q + encode_all(vs).len() + 1),
    decreases vs, 0nat,
{
    if vs.len() == 0 {
        assert(encode_all(vs).len() == 0);
        assert(acc + vs =~= acc);
    } else {
        let first = vs[0];
        let rest = vs.subrange(1, vs.len() as int);
        let e0 = encoding(first);
        assert(encode_all(vs) == e0 + encode_all(rest));
        lemma_split(b, q, e0, encode_all(rest));
        lemma_first_byte(first);
        assert(b[q] == b.subrange(q, q + e0.len())[0]);
        law_decode_encode(first, b, q);
        assert forall|k: int| 0 <= k < rest.len() implies well_formed(#[trigger] rest[k]) by {
            assert(rest[k] == vs[k + 1]);
        }
        lemma_items(rest, acc.push(first), b, q + e0.len());
        assert(acc.push(first) + rest =~= acc + vs);
    }
}

/// Encoded dictionary entries with ascending keys, followed by `e`, read
/// back as those entries.
proof fn lemma_entries(es: Seq<(Seq<u8>, BModel)>, acc: Seq<(Seq<u8>, BModel)>, b: Seq<u8>, q: int)
    requires
        keys_sorted(acc + es),
        forall|k: int| 0 <= k < es.len() ==> (#[trigger] es[k]).0.len() <= usize::MAX && well_formed(es[k].1),
        0 <= q,
        q + encode_entries(es).len() < b.len(),
        b.subrange(q, q + encode_entries(es).len()) == encode_entries(es),
        b[q + encode_entries(es).len()] == 101u8,
    ensures
        entries_at(b, q, acc) == Parsed::Done(acc + es, q + encode_entries(es).len() + 1),
    decreases es, 0nat,
{
    if es.len() == 0 {
        assert(encode_entries(es).len() == 0);
        assert(acc + es =~= acc);
    } else {
        let (key, value) = es[0];
        let rest = es.subrange(1, es.len() as int);
        let ek = bytes_encoding(key);
        let ev = encoding(value);
        assert(encode_entries(es) == ek + ev + encode_entries(rest));
        lemma_split(b, q, ek + ev, encode_entries(rest));
        lemma_split(b, q, ek, ev);
        lemma_first_byte(BModel::Bytes(key));
        assert(encoding(BModel::Bytes(key)) == ek);
        assert(b[q] == b.subrange(q, q + ek.len())[0]);
        lemma_bytes_roundtrip(key, b, q);
        law_decode_encode(value, b, q + ek.len());
        let all = acc + es;
        assert forall|i: int| 0 <= i < acc.len() implies bytes_lt(#[trigger] acc[i].0, key) by {
            assert(all[i] == acc[i]);
            assert(all[acc.len() as int] == es[0]);
        }
        lemma_map_insert_last(acc, key, value);
        assert(acc.push((key, value)) + rest =~= all);
        assert forall|k: int| 0 <= k < rest.len() implies (#[trigger] rest[k]).0.len() <= usize::MAX && well_formed(rest[k].1) by {
            assert(rest[k] == es[k + 1]);
        }
        lemma_entries(rest, acc.push((key, value)), b, q + ek.len() + ev.len());
    }
}

/// `find_byte` runs off the end of a buffer that holds no `t` from `p` on.
proof fn lemma_find_none(b: Seq<u8>, p: int, t: u8)
    requires
        0 <= p,
        forall|i: int| p <= i < b.len() ==> b[i] != t,
    ensures
        find_byte(b, p, t) == b.len(),
    decreases b.len() - p,
{
    if p < b.len() {
        lemma_find_none(b, p + 1, t);
    }
}

/// A byte string's encoding, cut short, reads as incomplete.
proof fn lemma_bytes_cut(bs: Seq<u8>, b: Seq<u8>, p: int)
    requires
        bs.len() <= usize::MAX,
        0 <= p < b.len(),
        b.len() < p + bytes_encoding(bs).len(),
        forall|i: int| p <= i < b.len() ==> b[i] == bytes_encoding(bs)[i - p],
    ensures
        value_at(b, p) == Parsed::<BModel>::Incomplete,
{
    let enc = bytes_encoding(bs);
    let cut = b.len() - p;
    assert(b[p] == enc[0]);
    let ds = ascii(decimal_digits(bs.len()));
    lemma_parse_digits(bs.len());
    assert(enc == ds + seq![58u8] + bs);
    assert(enc[0] == ds[0]);
    if cut <= ds.len() {
        assert forall|i: int| p <= i < b.len() implies b[i] != 58u8 by {
            assert(b[i] == ds[i - p]);
            assert(is_digit_byte(ds[i - p]));
        }
        lemma_find_none(b, p, 58u8);
    } else {
        let q = p + ds.len();
        assert(b[q] == enc[ds.len() as int]);
        assert forall|i: int| p <= i < q implies b[i] != 58u8 by {
            assert(b[i] == ds[i - p]);
            assert(is_digit_byte(ds[i - p]));
        }
        lemma_find_after(b, p, ds.len() as int, 58u8);
        assert(b.subrange(p, q) =~= ds) by {
            assert forall|i: int| 0 <= i < ds.len() implies b.subrange(p, q)[i] == ds[i] by {
                assert(b[p + i] == enc[i]);
            }
        }
        assert(!(ds.len() > 0 && ds[0] == 43u8));
        assert(parse_length(b.subrange(p, q)) == Some(bs.len()));
    }
}

/// A buffer that stops inside an encoding reads as incomplete: a reader
/// that gets `Incomplete` may wait for more bytes.
pub proof fn law_cut_encoding_is_incomplete(m: BModel, b: Seq<u8>, p: int)
    requires
        well_formed(m),
        0 <= p <= b.len(),
        b.len() < p + encoding(m).len(),
        b.subrange(p, b.len() as int) == encoding(m).take(b.len() - p),
    ensures
        value_at(b, p) == Parsed::<BModel>::Incomplete,
    decreases m, 1nat,
{
    let enc = encoding(m);
    let cut = b.len() - p;
    if cut == 0 {
        return;
    }
    assert(b[p] == enc[0]) by {
        assert(b.subrange(p, b.len() as int)[0] == enc.take(cut)[0]);
    }
    assert forall|i: int| p <= i < b.len() implies b[i] == enc[i - p] by {
        assert(b.subrange(p, b.len() as int)[i - p] == enc.take(cut)[i - p]);
    }
    match m {
        BModel::Bytes(bs) => {
            lemma_bytes_cut(bs, b, p);
        }
        BModel::Int(n) => {
            let t = ascii(decimal(n));
            assert(enc == seq![105u8] + t + seq![101u8]);
            assert forall|i: int| p + 1 <= i < b.len() implies b[i] != 101u8 by {
                assert(b[i] == enc[i - p]);
                assert(i - p <= t.len());
                assert(enc[i - p] == t[i - p - 1]);
                if n < 0 {
                    let ds = ascii(decimal_digits((-n) as nat));
                    lemma_parse_digits((-n) as nat);
                    assert(t =~= seq![45u8] + ds);
                    if i - p - 1 > 0 {
                        assert(t[i - p - 1] == ds[i - p - 2]);
                        assert(is_digit_byte(ds[i - p - 2]));
                    }
                } else {
                    lemma_parse_digits(n as nat);
                    assert(is_digit_byte(t[i - p - 1]));
                }
            }
            lemma_find_none(b, p + 1, 101u8);
        }
        BModel::List(vs) => {
            let body = encode_all(vs);
            assert(enc == seq![108u8] + body + seq![101u8]);
            lemma_items_cut(vs, Seq::empty(), b, p + 1);
        }
        BModel::Dict(es) => {
            let body = encode_entries(es);
            assert(enc == seq![100u8] + body + seq![101u8]);
            assert(Seq::<(Seq<u8>, BModel)>::empty() + es =~= es);
            lemma_entries_cut(es, Seq::empty(), b, p + 1);
        }
    }
}

/// List items followed by `e`, cut short, read as incomplete.
proof fn lemma_items_cut(vs: Seq<BModel>, acc: Seq<BModel>, b: Seq<u8>, q: int)
    requires
        forall|k: int| 0 <= k < vs.len() ==> well_formed(#[trigger] vs[k]),
        0 <= q <= b.len(),
        b.len() < q + encode_all(vs).len() + 1,
        forall|i: int| q <= i < b.len() ==> b[i] == (encode_all(vs) + seq![101u8])[i - q],
    ensures
        items_at(b, q, acc) == Parsed::<Seq<BModel>>::Incomplete,
    decreases vs, 0nat,
{
    if q == b.len() {
        return;
    }
    if vs.len() == 0 {
        assert(encode_all(vs).len() == 0);
        return;
    }
    let first = vs[0];
    let rest = vs.subrange(1, vs.len() as int);
    let e0 = encoding(first);
    assert(encode_all(vs) == e0 + encode_all(rest));
    lemma_first_byte(first);
    assert(b[q] == e0[0]);
    if b.len() < q + e0.len() {
        assert(b.subrange(q, b.len() as int) =~= e0.take(b.len() - q)) by {
            assert forall|i: int| 0 <= i < b.len() - q implies b.subrange(q, b.len() as int)[i] == e0.take(b.len() - q)[i] by {
                assert(b[q + i] == (encode_all(vs) + seq![101u8])[i]);
            }
        }
        law_cut_encoding_is_incomplete(first, b, q);
    } else {
        assert(b.subrange(q, q + e0.len()) =~= e0) by {
            assert forall|i: int| 0 <= i < e0.len() implies b.subrange(q, q + e0.len())[i] == e0[i] by {
                assert(b[q + i] == (encode_all(vs) + seq![101u8])[i]);
            }
        }
        law_decode_encode(first, b, q);
        assert forall|k: int| 0 <= k < rest.len() implies well_formed(#[trigger] rest[k]) by {
            assert(rest[k] == vs[k + 1]);
        }
        assert forall|i: int| q + e0.len() <= i < b.len() implies b[i] == (encode_all(rest) + seq![101u8])[i - q - e0.len()] by {
            assert(b[i] == (encode_all(vs) + seq![101u8])[i - q]);
        }
        lemma_items_cut(rest, acc.push(first), b, q + e0.len());
    }
}

/// Dictionary entries followed by `e`, cut short, read as incomplete.
proof fn lemma_entries_cut(es: Seq<(Seq<u8>, BModel)>, acc: Seq<(Seq<u8>, BModel)>, b: Seq<u8>, q: int)
    requires
        forall|k: int| 0 <= k < es.len() ==> (#[trigger] es[k]).0.len() <= usize::MAX && well_formed(es[k].1),
        0 <= q <= b.len(),
        b.len() < q + encode_entries(es).len() + 1,
        forall|i: int| q <= i < b.len() ==> b[i] == (encode_entries(es) + seq![101u8])[i - q],
    ensures
        entries_at(b, q, acc) == Parsed::<Seq<(Seq<u8>, BModel)>>::Incomplete,
    decreases es, 0nat,
{
    if q == b.len() {
        return;
    }
    if es.len() == 0 {
        assert(encode_entries(es).len() == 0);
        return;
    }
    let (key, value) = es[0];
    let rest = es.subrange(1, es.len() as int);
    let ek = bytes_encoding(key);
    let ev = encoding(value);
    let whole = encode_entries(es) + seq![101u8];
    assert(encode_entries(es) == ek + ev + encode_entries(rest));
    lemma_first_byte(BModel::Bytes(key));
    assert(encoding(BModel::Bytes(key)) == ek);
    assert(b[q] == ek[0]);
    if b.len() < q + ek.len() {
        assert(b.subrange(q, b.len() as int) =~= ek.take(b.len() - q)) by {
            assert forall|i: int| 0 <= i < b.len() - q implies b.subrange(q, b.len() as int)[i] == ek.take(b.len() - q)[i] by {
                assert(b[q + i] == whole[i]);
            }
        }
        assert forall|i: int| q <= i < b.len() implies b[i] == bytes_encoding(key)[i - q] by {
            assert(b[i] == whole[i - q]);
        }
        lemma_bytes_cut(key, b, q);
        return;
    }
    assert(b.subrange(q, q + ek.len()) =~= ek) by {
        assert forall|i: int| 0 <= i < ek.len() implies b.subrange(q, q + ek.len())[i] == ek[i] by {
            assert(b[q + i] == whole[i]);
        }
    }
    lemma_bytes_roundtrip(key, b, q);
    let r = q + ek.len();
    assert(value_at(b, q) == Parsed::Done(BModel::Bytes(key), r));
    if b.len() == r {
        assert(value_at(b, r) == Parsed::<BModel>::Incomplete);
        return;
    }
    lemma_first_byte(value);
    if b.len() < r + ev.len() {
        assert(b.subrange(r, b.len() as int) =~= ev.take(b.len() - r)) by {
            assert forall|i: int| 0 <= i < b.len() - r implies b.subrange(r, b.len() as int)[i] == ev.take(b.len() - r)[i] by {
                assert(b[r + i] == whole[ek.len() + i]);
            }
        }
        law_cut_encoding_is_incomplete(value, b, r);
        return;
    }
    assert(b.subrange(r, r + ev.len()) =~= ev) by {
        assert forall|i: int| 0 <= i < ev.len() implies b.subrange(r, r + ev.len())[i] == ev[i] by {
            assert(b[r + i] == whole[ek.len() + i]);
        }
    }
    law_decode_encode(value, b, r);
    assert forall|k: int| 0 <= k < rest.len() implies (#[trigger] rest[k]).0.len() <= usize::MAX && well_formed(rest[k].1) by {
        assert(rest[k] == es[k + 1]);
    }
    assert forall|i: int| r + ev.len() <= i < b.len() implies b[i] == (encode_entries(rest) + seq![101u8])[i - r - ev.len()] by {
        assert(b[i] == whole[i - q]);
    }
    lemma_entries_cut(rest, map_insert(acc, key, value), b, r + ev.len());
}

} // verus!
