//! Minimal nREPL protocol logic and the live Clojure/JVM oracle's queries.
//!
//! nREPL uses a stream of bencoded dictionaries. The connected runtime is the
//! type oracle, observation source, and future probe endpoint; reading and
//! writing the socket is left to the caller, which hands decoded messages
//! back to the functions here.

pub mod bencode;

use vstd::prelude::*;
use bencode::{bytes_less, BValue};
use crate::text::{cat, chars_of, ends_with, is_ascii_alnum, is_ascii_alnum_spec, join, lines, lines_from, owned, replace_all, replace_spec, split_char, split_from, starts_with, str_eq, string_from, trim, usize_to_string, views};

verus! {

#[derive(Debug)]
pub enum Error {
    /// A failure of the connection, with the system's message.
    Io(String),
    Protocol(String),
    Eval(String),
}

impl Error {
    /// The one-line description of the error.
    pub fn display_string(&self) -> (out: String)
        ensures
            self matches Error::Io(m) ==> out@ == "nREPL I/O error: "@ + m@,
            self matches Error::Protocol(m) ==> out@ == "nREPL protocol error: "@ + m@,
            self matches Error::Eval(m) ==> out@ == "nREPL evaluation error: "@ + m@,
    {
        match self {
            Error::Io(m) => crate::text::concat("nREPL I/O error: ", m.as_str()),
            Error::Protocol(m) => crate::text::concat("nREPL protocol error: ", m.as_str()),
            Error::Eval(m) => crate::text::concat("nREPL evaluation error: ", m.as_str()),
        }
    }
}

/// The UTF-8 text the bytes spell, if they are valid UTF-8.
pub open spec fn utf8_text(bytes: Seq<u8>) -> Option<Seq<char>> {
    if vstd::utf8::valid_utf8(bytes) {
        Some(vstd::utf8::decode_utf8(bytes))
    } else {
        None
    }
}

/// `String::from_utf8`: the text of valid UTF-8 bytes, `None` for any
/// other byte sequence.
#[verifier::external_body]
fn from_utf8(bytes: &Vec<u8>) -> (out: Option<String>)
    ensures
        out is Some <==> utf8_text(bytes@) is Some,
        out matches Some(s) ==> utf8_text(bytes@) == Some(s@),
{
    String::from_utf8(bytes.clone()).ok()
}

/// The UTF-8 bytes of `s`.
pub fn text_bytes(s: &str) -> (out: Vec<u8>)
    ensures
        out@ == vstd::utf8::encode_utf8(s@),
{
    let bytes = s.as_bytes();
    let mut out: Vec<u8> = Vec::new();
    let mut i: usize = 0;
    while i < bytes.len()
        invariant
            i <= bytes@.len(),
            bytes@ == vstd::utf8::encode_utf8(s@),
            out@ == bytes@.take(i as int),
        decreases bytes.len() - i,
    {
        out.push(bytes[i]);
        assert(out@ =~= bytes@.take(i + 1));
        i += 1;
    }
    assert(bytes@.take(bytes@.len() as int) =~= bytes@);
    out
}

/// A byte string holding the UTF-8 of `s`.
pub fn text_value(s: &str) -> (out: BValue)
    ensures
        out matches BValue::Bytes(b) && b@ == vstd::utf8::encode_utf8(s@),
{
    BValue::Bytes(text_bytes(s))
}

impl BValue {
    /// The text of a byte string that is valid UTF-8.
    pub fn as_text(&self) -> (out: Option<String>)
        ensures
            self matches BValue::Bytes(b) ==> (out is Some <==> utf8_text(b@) is Some),
            self matches BValue::Bytes(b) ==> (out matches Some(s) ==> utf8_text(b@) == Some(s@)),
            !(self is Bytes) ==> out is None,
    {
        match self {
            BValue::Bytes(bytes) => from_utf8(bytes),
            _ => None,
        }
    }
}

/// The value of the first entry stored under `key`.
pub open spec fn entry_for(entries: Seq<(Vec<u8>, BValue)>, key: Seq<u8>) -> Option<BValue>
    decreases entries.len(),
{
    if entries.len() == 0 {
        None
    } else if entries[0].0@ == key {
        Some(entries[0].1)
    } else {
        entry_for(entries.drop_first(), key)
    }
}

/// The value stored under `key`.
pub fn dict_get<'b>(entries: &'b Vec<(Vec<u8>, BValue)>, key: &Vec<u8>) -> (out: Option<&'b BValue>)
    ensures
        out matches Some(v) ==> entry_for(entries@, key@) == Some(*v),
        out is None ==> entry_for(entries@, key@) is None,
{
    let mut i: usize = 0;
    assert(entries@.skip(0) =~= entries@);
    while i < entries.len()
        invariant
            i <= entries.len(),
            entry_for(entries@, key@) == entry_for(entries@.skip(i as int), key@),
        decreases entries.len() - i,
    {
        proof {
            let rest = entries@.skip(i as int);
            assert(rest[0] == entries@[i as int]);
            assert(rest.drop_first() =~= entries@.skip(i + 1));
        }
        if !bytes_less(&entries[i].0, key) && !bytes_less(key, &entries[i].0) {
            proof {
                lemma_bytes_trichotomy(entries@[i as int].0@, key@);
            }
            return Some(&entries[i].1);
        }
        proof {
            if entries@[i as int].0@ == key@ {
                lemma_bytes_irreflexive(key@);
            }
        }
        i += 1;
    }
    assert(entries@.skip(i as int).len() == 0);
    None
}

proof fn lemma_bytes_irreflexive(a: Seq<u8>)
    ensures
        !bencode::bytes_lt(a, a),
    decreases a.len(),
{
    if a.len() > 0 {
        lemma_bytes_irreflexive(a.drop_first());
    }
}

proof fn lemma_bytes_trichotomy(a: Seq<u8>, b: Seq<u8>)
    requires
        !bencode::bytes_lt(a, b),
        !bencode::bytes_lt(b, a),
    ensures
        a == b,
    decreases a.len(),
{
    if a.len() > 0 && b.len() > 0 {
        lemma_bytes_trichotomy(a.drop_first(), b.drop_first());
        assert(a =~= seq![a[0]] + a.drop_first());
        assert(b =~= seq![b[0]] + b.drop_first());
    } else {
        assert(a.len() == 0 && b.len() == 0);
        assert(a =~= b);
    }
}

/// The text of a byte string that is valid UTF-8.
pub open spec fn value_text(v: Option<BValue>) -> Option<Seq<char>> {
    match v {
        Some(BValue::Bytes(b)) => utf8_text(b@),
        _ => None,
    }
}

/// The text stored under `key`, when it is a valid UTF-8 byte string.
pub fn text_field(message: &Vec<(Vec<u8>, BValue)>, key: &str) -> (out: Option<String>)
    ensures
        out is Some <==> value_text(entry_for(message@, vstd::utf8::encode_utf8(key@))) is Some,
        out matches Some(s) ==> value_text(entry_for(message@, vstd::utf8::encode_utf8(key@))) == Some(s@),
{
    let key_bytes = text_bytes(key);
    match dict_get(message, &key_bytes) {
        Some(value) => value.as_text(),
        None => None,
    }
}

/// Whether the message's `status` is, or lists, `expected`.
/// Whether the message's `status` is the byte string `expected`, or a
/// list with `expected` among its texts.
pub open spec fn status_says(message: Seq<(Vec<u8>, BValue)>, expected: Seq<char>) -> bool {
    match entry_for(message, vstd::utf8::encode_utf8("status"@)) {
        Some(BValue::List(statuses)) => exists|k: int|
            0 <= k < statuses@.len() && value_text(Some(#[trigger] statuses@[k])) == Some(expected),
        Some(BValue::Bytes(b)) => b@ == vstd::utf8::encode_utf8(expected),
        _ => false,
    }
}

pub fn status_contains(message: &Vec<(Vec<u8>, BValue)>, expected: &str) -> (r: bool)
    ensures
        r == status_says(message@, expected@),
{
    let key = text_bytes("status");
    let found = dict_get(message, &key);
    match found {
        Some(BValue::List(statuses)) => {
            let ghost listed = *statuses;
            assert(entry_for(message@, key@) == Some(BValue::List(listed)));
            let mut i: usize = 0;
            while i < statuses.len()
                invariant
                    i <= statuses.len(),
                    key@ == vstd::utf8::encode_utf8("status"@),
                    listed == *statuses,
                    entry_for(message@, key@) == Some(BValue::List(listed)),
                    forall|k: int| 0 <= k < i ==> value_text(Some(#[trigger] statuses@[k])) != Some(expected@),
                decreases statuses.len() - i,
            {
                match statuses[i].as_text() {
                    Some(status) => {
                        if str_eq(status.as_str(), expected) {
                            assert(value_text(Some(statuses@[i as int])) == Some(expected@));
                            assert(key@ == vstd::utf8::encode_utf8("status"@));
                            assert(entry_for(message@, key@) == Some(BValue::List(*statuses)));
                            assert(status_says(message@, expected@));
                            return true;
                        }
                    }
                    None => {},
                }
                i += 1;
            }
            false
        }
        Some(BValue::Bytes(status)) => {
            let wanted = text_bytes(expected);
            let r = !bytes_less(status, &wanted) && !bytes_less(&wanted, status);
            proof {
                if r {
                    lemma_bytes_trichotomy(status@, wanted@);
                } else if status@ == wanted@ {
                    lemma_bytes_irreflexive(wanted@);
                }
            }
            r
        }
        _ => false,
    }
}

/// The `eval` request for `code` under request id `id`; its keys are in
/// sorted order.
pub fn eval_request(code: &str, id: &str) -> (out: BValue)
    ensures
        bencode::model(out) == bencode::BModel::Dict(
            seq![
                (vstd::utf8::encode_utf8("code"@), bencode::BModel::Bytes(vstd::utf8::encode_utf8(code@))),
                (vstd::utf8::encode_utf8("id"@), bencode::BModel::Bytes(vstd::utf8::encode_utf8(id@))),
                (vstd::utf8::encode_utf8("op"@), bencode::BModel::Bytes(vstd::utf8::encode_utf8("eval"@))),
            ],
        ),
{
    let entries = vec![
        (text_bytes("code"), text_value(code)),
        (text_bytes("id"), text_value(id)),
        (text_bytes("op"), text_value("eval")),
    ];
    proof {
        reveal_with_fuel(bencode::entry_models, 4);
        assert(entries@.subrange(1, 3).subrange(1, 2) =~= seq![entries@[2]]);
        assert(entries@.subrange(1, 3) =~= seq![entries@[1], entries@[2]]);
        assert(seq![entries@[2]].subrange(1, 1) =~= Seq::<(Vec<u8>, BValue)>::empty());
        assert(bencode::entry_models(entries@) =~= seq![
            (vstd::utf8::encode_utf8("code"@), bencode::BModel::Bytes(vstd::utf8::encode_utf8(code@))),
            (vstd::utf8::encode_utf8("id"@), bencode::BModel::Bytes(vstd::utf8::encode_utf8(id@))),
            (vstd::utf8::encode_utf8("op"@), bencode::BModel::Bytes(vstd::utf8::encode_utf8("eval"@))),
        ]);
    }
    BValue::Dict(entries)
}

/// The text, or nothing.
pub open spec fn text_or_empty(t: Option<Seq<char>>) -> Seq<char> {
    match t {
        Some(s) => s,
        None => Seq::empty(),
    }
}

/// What one evaluation produced: its values, and the text written to
/// `*out*` and `*err*`.
#[derive(Debug, Clone)]
pub struct EvalResponse {
    pub values: Vec<String>,
    pub out: String,
    pub err: String,
}

impl EvalResponse {
    pub fn new() -> (out: Self)
        ensures
            out.values@.len() == 0,
            out.out@.len() == 0,
            out.err@.len() == 0,
    {
        EvalResponse { values: Vec::new(), out: String::new(), err: String::new() }
    }

    /// Takes in one streamed message: messages of other requests are
    /// skipped; values, output, errors and exceptions of this one are
    /// collected. `Ok(true)` once the message reports `done`.
    pub fn absorb(&mut self, message: &BValue, id: &str) -> (out: Result<bool, Error>)
        ensures
            !(message is Dict) ==> out is Err && final(self).values@ == old(self).values@
                && final(self).out@ == old(self).out@ && final(self).err@ == old(self).err@,
            message matches BValue::Dict(es) ==> {
                let field = |k: Seq<char>| value_text(entry_for(es@, vstd::utf8::encode_utf8(k)));
                if field("id"@) != Some(id@) {
                    out matches Ok(false) && final(self).values@ == old(self).values@ && final(self).out@
                        == old(self).out@ && final(self).err@ == old(self).err@
                } else {
                    out == Ok::<bool, Error>(status_says(es@, "done"@)) && final(self).values@.len()
                        == old(self).values@.len() + (if field("value"@) is Some { 1int } else { 0int })
                        && final(self).out@ == old(self).out@ + text_or_empty(field("out"@)) && final(self).err@
                        == old(self).err@ + text_or_empty(field("err"@)) + text_or_empty(field("ex"@))
                }
            },
    {
        let entries = match message {
            BValue::Dict(entries) => entries,
            _ => {
                return Err(Error::Protocol(owned("nREPL response is not a dictionary")));
            },
        };
        match text_field(entries, "id") {
            Some(found) => {
                if !str_eq(found.as_str(), id) {
                    return Ok(false);
                }
            }
            None => {
                return Ok(false);
            },
        }
        if let Some(value) = text_field(entries, "value") {
            self.values.push(value);
        }
        let ghost out_before = self.out@;
        if let Some(out) = text_field(entries, "out") {
            self.out.push_str(out.as_str());
        }
        assert(self.out@ =~= out_before + text_or_empty(value_text(entry_for(entries@, vstd::utf8::encode_utf8("out"@)))));
        let ghost err_before = self.err@;
        if let Some(err) = text_field(entries, "err") {
            self.err.push_str(err.as_str());
        }
        let ghost err_mid = self.err@;
        assert(err_mid =~= err_before + text_or_empty(value_text(entry_for(entries@, vstd::utf8::encode_utf8("err"@)))));
        if let Some(ex) = text_field(entries, "ex") {
            self.err.push_str(ex.as_str());
        }
        assert(self.err@ =~= err_mid + text_or_empty(value_text(entry_for(entries@, vstd::utf8::encode_utf8("ex"@)))));
        Ok(status_contains(entries, "done"))
    }

    /// The response, or its error text as an evaluation error.
    pub fn finish(self) -> (out: Result<EvalResponse, Error>)
        ensures
            self.err@.len() == 0 ==> out is Ok,
            self.err@.len() > 0 ==> (out matches Err(Error::Eval(m)) && m@ == self.err@),
    {
        if chars_of(self.err.as_str()).len() == 0 {
            Ok(self)
        } else {
            Err(Error::Eval(self.err))
        }
    }
}

#[derive(Debug, Clone, PartialEq, Eq)]
pub struct Observation {
    pub var_name: String,
    pub argument_types: Vec<String>,
    pub return_type: String,
}

/// The part of a qualified Var name after its last `/`.
pub open spec fn short_name(name: Seq<char>) -> Seq<char>
    decreases name.len(),
{
    if name.len() == 0 {
        name
    } else if name.last() == '/' {
        Seq::empty()
    } else {
        short_name(name.drop_last()).push(name.last())
    }
}

pub fn source_var_name(name: &str) -> (out: String)
    ensures
        out@ == short_name(name@),
{
    let cs = chars_of(name);
    let mut start = cs.len();
    assert(cs@.take(cs@.len() as int) =~= cs@);
    assert(cs@.skip(cs@.len() as int) =~= Seq::<char>::empty());
    assert(short_name(name@) =~= short_name(cs@.take(start as int)) + cs@.skip(start as int));
    while start > 0 && cs[start - 1] != '/'
        invariant
            start <= cs.len(),
            cs@ == name@,
            short_name(name@) == short_name(cs@.take(start as int)) + cs@.skip(start as int),
        decreases start,
    {
        proof {
            let t = cs@.take(start as int);
            assert(t.drop_last() =~= cs@.take(start - 1));
            assert(t.last() == cs@[start - 1]);
            assert(cs@.skip(start - 1) =~= seq![cs@[start - 1]] + cs@.skip(start as int));
            assert(short_name(t) == short_name(t.drop_last()).push(t.last()));
            assert(short_name(t.drop_last()).push(t.last()) + cs@.skip(start as int) =~= short_name(cs@.take(start - 1))
                + cs@.skip(start - 1));
        }
        start -= 1;
    }
    proof {
        let t = cs@.take(start as int);
        if start > 0 {
            assert(t.last() == '/');
        }
        assert(short_name(t) =~= Seq::<char>::empty());
        assert(short_name(name@) =~= cs@.skip(start as int));
        assert(cs@.take(cs@.len() as int) =~= cs@);
    }
    substring(cs.as_slice(), start, cs.len())
}

fn substring(cs: &[char], start: usize, end: usize) -> (out: String)
    requires
        start <= end <= cs.len(),
    ensures
        out@ == cs@.subrange(start as int, end as int),
{
    crate::text::substring(cs, start, end)
}

/// `argN: TYPE` for each observed argument type.
pub open spec fn param_texts(types: Seq<String>) -> Seq<Seq<char>> {
    Seq::new(types.len(), |i: int| "arg"@ + crate::text::decimal_digits(i as nat) + ": "@ + types[i]@)
}

/// The source `extern` that pins an observed call:
/// `extern SHORT = VAR(arg0: T0, …) -> R`.
pub open spec fn declaration_spec(o: Observation) -> Seq<char> {
    "extern "@ + short_name(o.var_name@) + " = "@ + o.var_name@ + "("@ + crate::text::join_seq(
        param_texts(o.argument_types@),
        ", "@,
    ) + ") -> "@ + o.return_type@
}

impl Observation {
    pub fn extern_declaration(&self) -> (out: String)
        ensures
            out@ == declaration_spec(*self),
    {
        let mut params: Vec<String> = Vec::new();
        let mut i: usize = 0;
        while i < self.argument_types.len()
            invariant
                i <= self.argument_types.len(),
                views(params@) == param_texts(self.argument_types@).take(i as int),
            decreases self.argument_types.len() - i,
        {
            let index = usize_to_string(i);
            let mut param = owned("arg");
            param.push_str(index.as_str());
            param.push_str(": ");
            param.push_str(self.argument_types[i].as_str());
            let ghost before = params@;
            params.push(param);
            proof {
                assert(views(params@) =~= views(before).push(param@));
                assert(param_texts(self.argument_types@).take(i + 1) =~= param_texts(self.argument_types@).take(
                    i as int,
                ).push(param@));
            }
            i += 1;
        }
        assert(param_texts(self.argument_types@).take(i as int) =~= param_texts(self.argument_types@));
        let joined = join(&params, ", ");
        let short = source_var_name(self.var_name.as_str());
        let mut out = owned("extern ");
        out.push_str(short.as_str());
        out.push_str(" = ");
        out.push_str(self.var_name.as_str());
        out.push_str("(");
        out.push_str(joined.as_str());
        out.push_str(") -> ");
        out.push_str(self.return_type.as_str());
        out
    }
}

/// `source`, ending in a newline.
pub open spec fn owned_text_with_newline(source: Seq<char>) -> Seq<char> {
    if crate::text::is_suffix("\n"@, source) { source } else { source.push('\n') }
}

/// The source with the observation appended: a blank line, a note naming
/// the Var, and the declaration on a line of its own.
pub open spec fn pin_text(source: Seq<char>, o: Observation) -> Seq<char> {
    owned_text_with_newline(source) + "\n// observed from `"@ + o.var_name@
        + "` through nREPL; concrete sample, safe to generalize\n"@ + declaration_spec(o) + "\n"@
}

/// Whether some line of `source`, trimmed, is `declaration`.
pub open spec fn pinned(source: Seq<char>, declaration: Seq<char>) -> bool {
    exists|i: int|
        0 <= i < lines_from(source, 0).len() && crate::text::trim_end_seq(
            crate::text::trim_start_seq(#[trigger] lines_from(source, 0)[i]),
        ) == declaration
}

proof fn lemma_find_first(s: Seq<char>, c: char, i: int, k: int)
    requires
        0 <= i <= k < s.len(),
        s[k] == c,
        forall|m: int| i <= m < k ==> s[m] != c,
    ensures
        crate::text::find_from(s, c, i) == k,
    decreases k - i,
{
    if i < k {
        lemma_find_first(s, c, i + 1, k);
    }
}

proof fn lemma_find_before(s: Seq<char>, c: char, i: int, k: int)
    requires
        0 <= i <= k < s.len(),
        s[k] == c,
    ensures
        i <= crate::text::find_from(s, c, i) <= k,
    decreases k - i,
{
    if i < k && s[i] != c {
        lemma_find_before(s, c, i + 1, k);
    }
}

/// A line starting at `j` appears among the lines from an earlier line
/// start `i`.
proof fn lemma_line_listed(s: Seq<char>, i: int, j: int)
    requires
        0 <= i <= j < s.len(),
        i == 0 || s[i - 1] == '\n',
        i == j || s[j - 1] == '\n',
    ensures
        exists|idx: int| 0 <= idx < crate::text::lines_from(s, i).len() && #[trigger] crate::text::lines_from(s, i)[idx] == crate::text::line_at(s, j),
    decreases j - i,
{
    if i == j {
        assert(crate::text::lines_from(s, i)[0] == crate::text::line_at(s, j));
    } else {
        lemma_find_before(s, '\n', i, j - 1);
        let e = crate::text::find_from(s, '\n', i);
        crate::text::lemma_find_from_bounds(s, '\n', i);
        lemma_line_listed(s, e + 1, j);
        let idx = choose|idx: int| 0 <= idx < crate::text::lines_from(s, e + 1).len() && #[trigger] crate::text::lines_from(s, e + 1)[idx]
            == crate::text::line_at(s, j);
        assert(crate::text::lines_from(s, i) == seq![crate::text::line_at(s, i)] + crate::text::lines_from(s, e + 1));
        assert(crate::text::lines_from(s, i)[idx + 1] == crate::text::line_at(s, j));
    }
}

/// Pinning is idempotent: once an observation is pinned, pinning it again
/// finds it and leaves the source unchanged. This holds when the
/// declaration fits on one line and does not end in white space.
pub proof fn law_pinning_idempotent(source: Seq<char>, o: Observation)
    requires
        forall|k: int| 0 <= k < declaration_spec(o).len() ==> declaration_spec(o)[k] != '\n',
        !crate::text::is_white_space(declaration_spec(o).last()),
    ensures
        pinned(pin_text(source, o), declaration_spec(o)),
{
    let d = declaration_spec(o);
    let s = pin_text(source, o);
    reveal_strlit("extern ");
    reveal_strlit("\n");
    reveal_strlit("` through nREPL; concrete sample, safe to generalize\n");
    assert(d[0] == 'e');
    let j = s.len() - 1 - d.len();
    assert(s.subrange(j, j + d.len()) =~= d);
    assert(s[j - 1] == '\n');
    assert(s[j + d.len()] == '\n');
    assert forall|m: int| j <= m < j + d.len() implies s[m] != '\n' by {
        assert(s[m] == d[m - j]);
    }
    lemma_find_first(s, '\n', j, j + d.len());
    assert(crate::text::line_at(s, j) == d);
    lemma_line_listed(s, 0, j);
    assert(crate::text::trim_start_seq(d) == d);
    assert(crate::text::trim_end_seq(d) == d);
}

/// Appends the observation as a source `extern` with a note of where it
/// came from, unless a line of the source already declares it. The flag
/// says whether the source changed.
pub fn pin_observation(source: &str, observation: &Observation) -> (out: (String, bool))
    ensures
        out.1 == !pinned(source@, declaration_spec(*observation)),
        !out.1 ==> out.0@ == source@,
        out.1 ==> out.0@ == pin_text(source@, *observation),
{
    let declaration = observation.extern_declaration();
    let ls = lines(source);
    let mut i: usize = 0;
    while i < ls.len()
        invariant
            i <= ls.len(),
            views(ls@) == lines_from(source@, 0),
            declaration@ == declaration_spec(*observation),
            forall|k: int| 0 <= k < i ==> crate::text::trim_end_seq(crate::text::trim_start_seq(#[trigger] ls@[k]@))
                != declaration@,
        decreases ls.len() - i,
    {
        let trimmed = trim(ls[i].as_str());
        if str_eq(trimmed.as_str(), declaration.as_str()) {
            proof {
                assert(views(ls@)[i as int] == ls@[i as int]@);
                assert(lines_from(source@, 0)[i as int] == ls@[i as int]@);
                assert(crate::text::trim_end_seq(crate::text::trim_start_seq(lines_from(source@, 0)[i as int]))
                    == declaration@);
                assert(i < lines_from(source@, 0).len());
                assert(declaration@ == declaration_spec(*observation));
                assert(pinned(source@, declaration_spec(*observation)));
            }
            return (owned(source), false);
        }
        i += 1;
    }
    proof {
        assert forall|k: int| 0 <= k < lines_from(source@, 0).len() implies crate::text::trim_end_seq(
            crate::text::trim_start_seq(#[trigger] lines_from(source@, 0)[k]),
        ) != declaration@ by {
            assert(views(ls@)[k] == ls@[k]@);
        }
    }
    let mut output = owned(source);
    if !ends_with(source, "\n") {
        output.push('\n');
    }
    let ghost prefix = output@;
    assert(prefix == owned_text_with_newline(source@));
    output.push_str("\n// observed from `");
    output.push_str(observation.var_name.as_str());
    output.push_str("` through nREPL; concrete sample, safe to generalize\n");
    output.push_str(declaration.as_str());
    output.push_str("\n");
    assert(output@ =~= pin_text(source@, *observation));
    (output, true)
}

#[derive(Debug, Clone, PartialEq, Eq)]
pub struct VarInfo {
    pub qualified_name: String,
    pub arities: Vec<Vec<String>>,
    pub has_varargs: bool,
}

/// A parameter typed as `Unknown`, its name made safe.
pub open spec fn typed_param(name: Seq<char>) -> Seq<char> {
    sanitize_param_spec(name) + ": Unknown"@
}

/// `extern name = qualified(p: Unknown, …) -> Unknown` for one arity.
pub open spec fn arity_suggestion(name: Seq<char>, qualified: Seq<char>, params: Seq<Seq<char>>) -> Seq<char> {
    "extern "@ + name + " = "@ + qualified + "("@ + crate::text::join_seq(params.map_values(|x: Seq<char>| typed_param(x)), ", "@)
        + ") -> Unknown"@
}

/// A parameter name kept when it may stand in source, `arg` otherwise.
pub open spec fn param_char(c: char) -> char {
    if is_ascii_alnum_spec(c) || c == '_' || c == '-' || c == '?' { c } else { '_' }
}

pub open spec fn sanitize_param_spec(name: Seq<char>) -> Seq<char> {
    let s = name.map_values(|c: char| param_char(c));
    if s.len() == 0 || s == seq!['&'] { "arg"@ } else { s }
}

pub fn sanitize_param(name: &str) -> (out: String)
    ensures
        out@ == sanitize_param_spec(name@),
{
    let cs = chars_of(name);
    let mut mapped: Vec<char> = Vec::new();
    let mut i: usize = 0;
    while i < cs.len()
        invariant
            i <= cs.len(),
            cs@ == name@,
            mapped@ == cs@.take(i as int).map_values(|c: char| param_char(c)),
        decreases cs.len() - i,
    {
        let c = cs[i];
        let d = if is_ascii_alnum(c) || c == '_' || c == '-' || c == '?' { c } else { '_' };
        mapped.push(d);
        assert(cs@.take(i + 1).map_values(|c: char| param_char(c)) =~= cs@.take(i as int).map_values(
            |c: char| param_char(c),
        ).push(d));
        i += 1;
    }
    assert(cs@.take(cs.len() as int) =~= cs@);
    if mapped.len() == 0 || (mapped.len() == 1 && mapped[0] == '&') {
        proof {
            if mapped.len() == 1 {
                assert(mapped@ =~= seq!['&']);
            }
        }
        owned("arg")
    } else {
        proof {
            if mapped@ == seq!['&'] {
                assert(mapped@[0] == '&');
            }
        }
        string_from(mapped.as_slice())
    }
}

impl VarInfo {
    /// One gradual `extern` per fixed arity, with `Unknown` types, and a
    /// note when the Var also has a variadic arity.
    pub fn extern_suggestions(&self) -> (out: Vec<String>)
        ensures
            out@.len() == self.arities@.len() + if self.has_varargs { 1int } else { 0int },
            forall|a: int| 0 <= a < self.arities@.len() ==> (#[trigger] out@[a])@ == arity_suggestion(
                short_name(self.qualified_name@),
                self.qualified_name@,
                views(self.arities@[a]@),
            ),
            self.has_varargs ==> out@.last()@ == "// `"@ + self.qualified_name@
                + "` has a variadic arity; observe concrete calls before pinning it"@,
    {
        let name = source_var_name(self.qualified_name.as_str());
        let mut suggestions: Vec<String> = Vec::new();
        let mut a: usize = 0;
        while a < self.arities.len()
            invariant
                a <= self.arities.len(),
                name@ == short_name(self.qualified_name@),
                suggestions@.len() == a,
                forall|k: int| 0 <= k < a ==> (#[trigger] suggestions@[k])@ == arity_suggestion(
                    short_name(self.qualified_name@),
                    self.qualified_name@,
                    views(self.arities@[k]@),
                ),
            decreases self.arities.len() - a,
        {
            let params = &self.arities[a];
            let ghost ps = views(params@);
            let mut typed: Vec<String> = Vec::new();
            let mut p: usize = 0;
            while p < params.len()
                invariant
                    p <= params.len(),
                    ps == views(params@),
                    views(typed@) == ps.take(p as int).map_values(|x: Seq<char>| typed_param(x)),
                decreases params.len() - p,
            {
                let clean = sanitize_param(params[p].as_str());
                let mut entry = owned(clean.as_str());
                entry.push_str(": Unknown");
                let ghost prev = typed@;
                typed.push(entry);
                proof {
                    assert(ps[p as int] == params@[p as int]@);
                    assert(views(typed@) =~= views(prev).push(typed_param(ps[p as int])));
                    assert(ps.take(p + 1).map_values(|x: Seq<char>| typed_param(x)) =~= ps.take(p as int).map_values(
                        |x: Seq<char>| typed_param(x),
                    ).push(typed_param(ps[p as int])));
                }
                p += 1;
            }
            assert(ps.take(params@.len() as int) =~= ps);
            let joined = join(&typed, ", ");
            let mut line = owned("extern ");
            line.push_str(name.as_str());
            line.push_str(" = ");
            line.push_str(self.qualified_name.as_str());
            line.push_str("(");
            line.push_str(joined.as_str());
            line.push_str(") -> Unknown");
            let ghost prev = suggestions@;
            suggestions.push(line);
            proof {
                assert forall|k: int| 0 <= k < a + 1 implies (#[trigger] suggestions@[k])@ == arity_suggestion(
                    short_name(self.qualified_name@),
                    self.qualified_name@,
                    views(self.arities@[k]@),
                ) by {
                    if k < a {
                        assert(suggestions@[k] == prev[k]);
                    }
                }
            }
            a += 1;
        }
        if self.has_varargs {
            let mut note = owned("// `");
            note.push_str(self.qualified_name.as_str());
            note.push_str("` has a variadic arity; observe concrete calls before pinning it");
            let ghost prev = suggestions@;
            suggestions.push(note);
            proof {
                assert forall|k: int| 0 <= k < self.arities@.len() implies (#[trigger] suggestions@[k])@ == arity_suggestion(
                    short_name(self.qualified_name@),
                    self.qualified_name@,
                    views(self.arities@[k]@),
                ) by {
                    assert(suggestions@[k] == prev[k]);
                }
            }
        }
        suggestions
    }
}

/// A value as the REPL printed it: a quoted string loses its quotes and
/// its `\n`, `\t`, `\"` and `\\` escapes, one replacement after another.
pub open spec fn unquote_spec(value: Seq<char>) -> Seq<char> {
    if value.len() >= 2 && value[0] == '"' && value.last() == '"' {
        replace_spec(
            replace_spec(
                replace_spec(replace_spec(value.subrange(1, value.len() - 1), "\\n"@, "\n"@), "\\t"@, "\t"@),
                "\\\""@,
                "\""@,
            ),
            "\\\\"@,
            "\\"@,
        )
    } else {
        value
    }
}

pub fn unquote_nrepl_value(value: &str) -> (out: String)
    requires
        value@ != seq!['"'],
    ensures
        out@ == unquote_spec(value@),
{
    let cs = chars_of(value);
    if cs.len() >= 2 && cs[0] == '"' && cs[cs.len() - 1] == '"' {
        let inner = substring(cs.as_slice(), 1, cs.len() - 1);
        let a = replace_all(inner.as_str(), "\\n", "\n");
        let b = replace_all(a.as_str(), "\\t", "\t");
        let c = replace_all(b.as_str(), "\\\"", "\"");
        replace_all(c.as_str(), "\\\\", "\\")
    } else {
        proof {
            if cs@.len() == 1 && cs@[0] == '"' {
                assert(cs@ =~= seq!['"']);
            }
        }
        owned(value)
    }
}

/// `value` as a Clojure string literal.
pub open spec fn clj_string_spec(value: Seq<char>) -> Seq<char> {
    seq!['"'] + replace_spec(
        replace_spec(
            replace_spec(replace_spec(replace_spec(value, "\\"@, "\\\\"@), "\""@, "\\\""@), "\n"@, "\\n"@),
            "\r"@,
            "\\r"@,
        ),
        "\t"@,
        "\\t"@,
    ) + seq!['"']
}

pub fn clj_string(value: &str) -> (out: String)
    ensures
        out@ == clj_string_spec(value@),
{
    let a = replace_all(value, "\\", "\\\\");
    let b = replace_all(a.as_str(), "\"", "\\\"");
    let c = replace_all(b.as_str(), "\n", "\\n");
    let d = replace_all(c.as_str(), "\r", "\\r");
    let e = replace_all(d.as_str(), "\t", "\\t");
    let mut out = String::new();
    out.push('"');
    out.push_str(e.as_str());
    out.push('"');
    assert(out@ =~= clj_string_spec(value@));
    out
}

/// The Clojure that resolves a Var and reports its qualified name and
/// fixed arities, or `NOT_FOUND`.
pub fn var_info_code(name: &str) -> (out: String)
    ensures
        out@ == "(let [requested (symbol "@ + clj_string_spec(name@) + ") v (if (namespace requested) (requiring-resolve requested) (or (ns-resolve *ns* requested) (ns-resolve 'clojure.core requested)))] (if (nil? v) \"NOT_FOUND\" (let [m (meta v) q (str (ns-name (:ns m)) \"/\" (:name m)) rows (mapv (fn [args] (let [parts (vec (map str args)) amp (.indexOf parts \"&\") fixed (if (neg? amp) (count parts) amp)] (str fixed \"\\t\" (if (neg? amp) \"0\" \"1\") \"\\t\" (clojure.string/join \",\" (take fixed parts))))) (:arglists m))] (str \"FOUND\\t\" q \"\\n\" (clojure.string/join \"\\n\" rows)))))"@,
{
    let quoted = clj_string(name);
    let mut out = owned("(let [requested (symbol ");
    out.push_str(quoted.as_str());
    out.push_str(") v (if (namespace requested) (requiring-resolve requested) (or (ns-resolve *ns* requested) (ns-resolve 'clojure.core requested)))] (if (nil? v) \"NOT_FOUND\" (let [m (meta v) q (str (ns-name (:ns m)) \"/\" (:name m)) rows (mapv (fn [args] (let [parts (vec (map str args)) amp (.indexOf parts \"&\") fixed (if (neg? amp) (count parts) amp)] (str fixed \"\\t\" (if (neg? amp) \"0\" \"1\") \"\\t\" (clojure.string/join \",\" (take fixed parts))))) (:arglists m))] (str \"FOUND\\t\" q \"\\n\" (clojure.string/join \"\\n\" rows)))))");
    out
}

/// The Clojure that applies a Var to EDN arguments and describes the
/// argument and result types.
pub fn observe_code(var: &str, args_edn: &str) -> (out: String)
    ensures
        out@ == "(letfn [(join-types [types] (let [types (vec (distinct (sort types)))] (cond (empty? types) \"Never\" (= 1 (count types)) (first types) :else (clojure.string/join \" | \" types)))) (describe [value] (cond (nil? value) \"Nil\" (string? value) \"String\" (instance? java.lang.Long value) \"Long\" (instance? java.lang.Integer value) \"Int\" (instance? java.lang.Boolean value) \"Boolean\" (map? value) (str \"java.util.Map<\" (join-types (map describe (keys value))) \", \" (join-types (map describe (vals value))) \">\") (set? value) (str \"java.util.Set<\" (join-types (map describe value)) \">\") (or (sequential? value) (instance? java.util.List value)) (str \"java.util.List<\" (join-types (map describe value)) \">\") (ifn? value) \"Fn<(Unknown) -> Unknown>\" :else (.getName (class value))))] (let [requested (symbol "@ + clj_string_spec(var@) + ") f (if (namespace requested) (requiring-resolve requested) (or (ns-resolve *ns* requested) (ns-resolve 'clojure.core requested))) args "@ + args_edn@ + "] (when-not f (throw (ex-info \"Var not found\" {:var (str requested)}))) (when-not (sequential? args) (throw (ex-info \"--args must be an EDN sequential value\" {:args args}))) (let [result (apply f args)] (str \"OK\\n\" (clojure.string/join \"\\t\" (map describe args)) \"\\n\" (describe result)))))"@,
{
    let quoted = clj_string(var);
    let mut out = owned("(letfn [(join-types [types] (let [types (vec (distinct (sort types)))] (cond (empty? types) \"Never\" (= 1 (count types)) (first types) :else (clojure.string/join \" | \" types)))) (describe [value] (cond (nil? value) \"Nil\" (string? value) \"String\" (instance? java.lang.Long value) \"Long\" (instance? java.lang.Integer value) \"Int\" (instance? java.lang.Boolean value) \"Boolean\" (map? value) (str \"java.util.Map<\" (join-types (map describe (keys value))) \", \" (join-types (map describe (vals value))) \">\") (set? value) (str \"java.util.Set<\" (join-types (map describe value)) \">\") (or (sequential? value) (instance? java.util.List value)) (str \"java.util.List<\" (join-types (map describe value)) \">\") (ifn? value) \"Fn<(Unknown) -> Unknown>\" :else (.getName (class value))))] (let [requested (symbol ");
    out.push_str(quoted.as_str());
    out.push_str(") f (if (namespace requested) (requiring-resolve requested) (or (ns-resolve *ns* requested) (ns-resolve 'clojure.core requested))) args ");
    out.push_str(args_edn);
    out.push_str("] (when-not f (throw (ex-info \"Var not found\" {:var (str requested)}))) (when-not (sequential? args) (throw (ex-info \"--args must be an EDN sequential value\" {:args args}))) (let [result (apply f args)] (str \"OK\\n\" (clojure.string/join \"\\t\" (map describe args)) \"\\n\" (describe result)))))");
    out
}

/// The Clojure that asks the live classloader whether class `actual` is
/// assignable to class `expected`.
pub fn assignability_code(actual: &str, expected: &str) -> (out: String)
    ensures
        out@ == "(let [loader (.getContextClassLoader (Thread/currentThread)) actual (Class/forName "@ + clj_string_spec(actual@) + " false loader) expected (Class/forName "@ + clj_string_spec(expected@) + " false loader)] (.isAssignableFrom expected actual))"@,
{
    let a = clj_string(actual);
    let e = clj_string(expected);
    let mut out = owned("(let [loader (.getContextClassLoader (Thread/currentThread)) actual (Class/forName ");
    out.push_str(a.as_str());
    out.push_str(" false loader) expected (Class/forName ");
    out.push_str(e.as_str());
    out.push_str(" false loader)] (.isAssignableFrom expected actual))");
    out
}

/// The answer of an assignability query: its last value must print as
/// `true` or `false`.
pub fn parse_assignability(last: Option<&String>) -> (out: Result<bool, Error>)
    ensures
        (last matches Some(v) && v@ == "true"@) ==> out matches Ok(true),
        (last matches Some(v) && v@ == "false"@) ==> out matches Ok(false),
        out is Ok ==> (last matches Some(v) && (v@ == "true"@ || v@ == "false"@)),
{
    proof {
        reveal_strlit("true");
        reveal_strlit("false");
        assert("true"@.len() == 4);
        assert("false"@.len() == 5);
        assert("true"@ != "false"@);
    }
    match last {
        Some(v) => {
            if str_eq(v.as_str(), "true") {
                return Ok(true);
            }
            if str_eq(v.as_str(), "false") {
                return Ok(false);
            }
            let shown = crate::text::debug_quote(v.as_str());
            Err(Error::Protocol(cat(vec!["assignability query returned Some(", shown.as_str(), ")"])))
        }
        None => Err(Error::Protocol(owned("assignability query returned None"))),
    }
}

/// A decimal length as `str::parse::<usize>` reads it.
fn parse_count(text: &str) -> (out: Option<usize>)
    ensures
        match out {
            Some(n) => bencode::parse_length(vstd::utf8::encode_utf8(text@)) == Some(n as nat),
            None => bencode::parse_length(vstd::utf8::encode_utf8(text@)) is None,
        },
{
    let bytes = text_bytes(text);
    let n = bytes.len();
    assert(bytes@.subrange(0, n as int) =~= bytes@);
    bencode::parse_length_text(&bytes, 0, n)
}

/// One arity line of a Var info: whether it takes varargs, and its
/// parameter names; `None` when its count does not parse.
fn parse_arity_line(line: &str) -> (out: Option<(bool, Vec<String>)>)
    ensures
        match out {
            Some((flag, names)) => arity_line(line@) == Some((flag, views(names@))),
            None => arity_line(line@) is None,
        },
{
    let fields = split_tab3_text(line);
    let fixed = match parse_count(fields.0.as_str()) {
        Some(n) => n,
        None => {
            return None;
        },
    };
    let flagged = match &fields.1 {
        Some(flag) => str_eq(flag.as_str(), "1"),
        None => false,
    };
    let list = match &fields.2 {
        Some(names) => owned(names.as_str()),
        None => String::new(),
    };
    let pieces = split_char(list.as_str(), ',');
    let ghost pv = views(pieces@);
    let mut names: Vec<String> = Vec::new();
    let mut k: usize = 0;
    assert(pv.skip(0) =~= pv);
    assert(views(names@) =~= Seq::<Seq<char>>::empty());
    while k < pieces.len() && names.len() < fixed
        invariant
            k <= pieces.len(),
            pv == views(pieces@),
            names@.len() <= fixed,
            views(names@) + first_nonempty(pv.skip(k as int), (fixed - names@.len()) as nat) == first_nonempty(pv, fixed as nat),
        decreases pieces.len() - k,
    {
        assert(pv.skip(k as int)[0] == pieces@[k as int]@);
        assert(pv.skip(k as int).skip(1) =~= pv.skip(k + 1));
        let ghost before = views(names@);
        if chars_of(pieces[k].as_str()).len() > 0 {
            let piece = pieces[k].clone();
            assert(piece@ == pieces@[k as int]@);
            names.push(piece);
            assert(views(names@) =~= before.push(piece@));
        }
        k += 1;
    }
    proof {
        if k >= pieces.len() {
            assert(pv.skip(k as int) =~= Seq::<Seq<char>>::empty());
        }
        assert(views(names@) =~= first_nonempty(pv, fixed as nat));
    }
    Some((flagged, names))
}

/// Var metadata as `var_info_code` reports it: `None` when the Var does
/// not exist.
#[verifier::rlimit(60)]
pub fn parse_var_info(value: &str) -> (out: Result<Option<VarInfo>, Error>)
    requires
        value@ != seq!['"'],
    ensures
        (value@ == "\"NOT_FOUND\""@ || value@ == "NOT_FOUND"@) ==> out matches Ok(None),
        !(value@ == "\"NOT_FOUND\""@ || value@ == "NOT_FOUND"@) ==> ({
            let ls = lines_from(unquote_spec(value@), 0);
            if ls.len() == 0 {
                out matches Err(Error::Protocol(m)) && m@ == "empty Var info"@
            } else if !crate::text::is_prefix("FOUND\t"@, ls[0]) {
                out matches Err(Error::Protocol(m)) && m@ == "invalid Var info header `"@ + ls[0] + "`"@
            } else if exists|j: int| 1 <= j < ls.len() && arity_line(#[trigger] ls[j]) is None {
                out matches Err(Error::Protocol(m)) && exists|j: int|
                    1 <= j < ls.len() && arity_line(#[trigger] ls[j]) is None && (forall|q: int| 1 <= q < j ==> arity_line(#[trigger] ls[q]) is Some)
                        && m@ == "invalid arity `"@ + ls[j] + "`"@
            } else {
                out matches Ok(Some(v)) && v.qualified_name@ == ls[0].skip(6) && v.arities@.len() == ls.len() - 1
                    && (forall|k: int| 0 <= k < v.arities@.len() ==> views(#[trigger] v.arities@[k]@) == arity_names(ls[k + 1]))
                    && v.has_varargs == exists|j: int| 1 <= j < ls.len() && arity_varargs(#[trigger] ls[j])
            }
        }),
{
    if str_eq(value, "\"NOT_FOUND\"") || str_eq(value, "NOT_FOUND") {
        return Ok(None);
    }
    let unquoted = unquote_nrepl_value(value);
    let ls = lines(unquoted.as_str());
    let ghost lv = views(ls@);
    if ls.len() == 0 {
        return Err(Error::Protocol(owned("empty Var info")));
    }
    assert(lv[0] == ls@[0]@);
    let header = ls[0].as_str();
    if !starts_with(header, "FOUND\t") {
        let mut message = owned("invalid Var info header `");
        message.push_str(header);
        message.push_str("`");
        return Err(Error::Protocol(message));
    }
    proof {
        reveal_strlit("FOUND\t");
    }
    let header_chars = chars_of(header);
    let qualified_name = substring(header_chars.as_slice(), 6, header_chars.len());
    assert(qualified_name@ =~= lv[0].skip(6));
    let mut arities: Vec<Vec<String>> = Vec::new();
    let mut has_varargs = false;
    let mut i: usize = 1;
    while i < ls.len()
        invariant
            1 <= i <= ls.len(),
            lv == views(ls@),
            lv == lines_from(unquote_spec(value@), 0),
            lv.len() > 0,
            crate::text::is_prefix("FOUND\t"@, lv[0]),
            qualified_name@ == lv[0].skip(6),
            !(value@ == "\"NOT_FOUND\""@ || value@ == "NOT_FOUND"@),
            arities@.len() == i - 1,
            forall|q: int| 1 <= q < i ==> arity_line(#[trigger] lv[q]) is Some,
            forall|k: int| 0 <= k < arities@.len() ==> views(#[trigger] arities@[k]@) == arity_names(lv[k + 1]),
            has_varargs == exists|q: int| 1 <= q < i && arity_varargs(#[trigger] lv[q]),
        decreases ls.len() - i,
    {
        let line = ls[i].as_str();
        assert(lv[i as int] == line@);
        let (flagged, names) = match parse_arity_line(line) {
            Some(parsed) => parsed,
            None => {
                let mut message = owned("invalid arity `");
                message.push_str(line);
                message.push_str("`");
                proof {
                    assert(arity_line(lv[i as int]) is None);
                    assert(exists|j: int| 1 <= j < lv.len() && arity_line(#[trigger] lv[j]) is None);
                    assert(message@ == "invalid arity `"@ + lv[i as int] + "`"@);
                }
                return Err(Error::Protocol(message));
            },
        };
        if flagged {
            has_varargs = true;
        }
        let ghost prev = arities@;
        let ghost nv = views(names@);
        arities.push(names);
        proof {
            assert(arity_line(lv[i as int]) == Some((flagged, nv)));
            assert forall|k: int| 0 <= k < arities@.len() implies views(#[trigger] arities@[k]@) == arity_names(lv[k + 1]) by {
                if k < prev.len() {
                    assert(arities@[k] == prev[k]);
                }
            }
        }
        i += 1;
    }
    proof {
        assert forall|j: int| 1 <= j < lv.len() implies arity_line(#[trigger] lv[j]) is Some by {}
    }
    Ok(Some(VarInfo { qualified_name, arities, has_varargs }))
}

/// The fields of a tab-separated line: before the first tab, between the
/// first two, and after the second.
pub open spec fn tab_fields(s: Seq<char>) -> (Seq<char>, Option<Seq<char>>, Option<Seq<char>>) {
    let t1 = crate::text::find_from(s, '\t', 0);
    let t2 = crate::text::find_from(s, '\t', t1 + 1);
    (
        s.subrange(0, t1),
        if t1 >= s.len() { None } else { Some(s.subrange(t1 + 1, t2)) },
        if t1 >= s.len() || t2 >= s.len() { None } else { Some(s.subrange(t2 + 1, s.len() as int)) },
    )
}

pub open spec fn arity_names(line: Seq<char>) -> Seq<Seq<char>> {
    match arity_line(line) {
        Some(a) => a.1,
        None => Seq::empty(),
    }
}

pub open spec fn arity_varargs(line: Seq<char>) -> bool {
    match arity_line(line) {
        Some(a) => a.0,
        None => false,
    }
}

/// The first `limit` non-empty pieces.
pub open spec fn first_nonempty(pieces: Seq<Seq<char>>, limit: nat) -> Seq<Seq<char>>
    decreases pieces.len(),
{
    if pieces.len() == 0 || limit == 0 {
        Seq::empty()
    } else if pieces[0].len() > 0 {
        seq![pieces[0]] + first_nonempty(pieces.skip(1), (limit - 1) as nat)
    } else {
        first_nonempty(pieces.skip(1), limit)
    }
}

/// One arity line: whether it takes varargs, and its parameter names (the
/// count's first non-empty names); `None` when the count does not parse.
pub open spec fn arity_line(line: Seq<char>) -> Option<(bool, Seq<Seq<char>>)> {
    let f = tab_fields(line);
    match bencode::parse_length(vstd::utf8::encode_utf8(f.0)) {
        None => None,
        Some(n) => {
            let list = match f.2 {
                Some(names) => names,
                None => Seq::empty(),
            };
            Some((f.1 == Some("1"@), first_nonempty(split_from(list, ',', 0), n)))
        },
    }
}

/// `line.splitn(3, '\t')`: the first field, and the second and the rest
/// when there are tabs for them.
pub fn split_tab3_text(line: &str) -> (out: (String, Option<String>, Option<String>))
    ensures
        ({
            let s = line@;
            let t1 = crate::text::find_from(s, '\t', 0);
            let t2 = crate::text::find_from(s, '\t', t1 + 1);
            &&& out.0@ == s.subrange(0, t1)
            &&& t1 >= s.len() ==> out.1 is None && out.2 is None
            &&& t1 < s.len() ==> (out.1 matches Some(f) && f@ == s.subrange(t1 + 1, t2))
            &&& t1 < s.len() && t2 >= s.len() ==> out.2 is None
            &&& t1 < s.len() && t2 < s.len() ==> (out.2 matches Some(f) && f@ == s.subrange(t2 + 1, s.len() as int))
        }),
{
    let cs = chars_of(line);
    let t1 = crate::text::find_char(&cs, '\t', 0);
    proof {
        crate::text::lemma_find_from_bounds(cs@, '\t', 0);
    }
    let first = substring(cs.as_slice(), 0, t1);
    if t1 >= cs.len() {
        return (first, None, None);
    }
    let t2 = crate::text::find_char(&cs, '\t', t1 + 1);
    proof {
        crate::text::lemma_find_from_bounds(cs@, '\t', t1 + 1);
    }
    let second = substring(cs.as_slice(), t1 + 1, t2);
    if t2 >= cs.len() {
        return (first, Some(second), None);
    }
    let third = substring(cs.as_slice(), t2 + 1, cs.len());
    (first, Some(second), Some(third))
}

/// A call observation as `observe_code` reports it: `OK`, the argument
/// types separated by tabs, then the return type.
pub fn parse_observation(var: &str, value: &str) -> (out: Result<Observation, Error>)
    requires
        value@ != seq!['"'],
    ensures
        out matches Ok(o) ==> o.var_name@ == var@,
        ({
            let u = unquote_spec(value@);
            let ls = lines_from(u, 0);
            if ls.len() == 0 || ls[0] != "OK"@ {
                out matches Err(Error::Protocol(m)) && m@ == "invalid observe-call result `"@ + u + "`"@
            } else if ls.len() < 3 {
                out matches Err(Error::Protocol(m)) && m@ == "observe-call omitted return type"@
            } else {
                out matches Ok(o) && o.var_name@ == var@ && o.return_type@ == ls[2] && views(o.argument_types@) == if ls[1].len() == 0 {
                    Seq::<Seq<char>>::empty()
                } else {
                    split_from(ls[1], '\t', 0)
                }
            }
        }),
{
    let unquoted = unquote_nrepl_value(value);
    let ls = lines(unquoted.as_str());
    if ls.len() == 0 || !str_eq(ls[0].as_str(), "OK") {
        let mut message = owned("invalid observe-call result `");
        message.push_str(unquoted.as_str());
        message.push_str("`");
        return Err(Error::Protocol(message));
    }
    assert(views(ls@)[0] == ls@[0]@);
    if ls.len() < 3 {
        if ls.len() < 2 || ls.len() == 2 {
            return Err(Error::Protocol(owned("observe-call omitted return type")));
        }
    }
    assert(views(ls@)[1] == ls@[1]@ && views(ls@)[2] == ls@[2]@);
    let arguments = ls[1].as_str();
    let argument_types = if chars_of(arguments).len() == 0 {
        let none: Vec<String> = Vec::new();
        assert(views(none@) =~= Seq::<Seq<char>>::empty());
        none
    } else {
        split_char(arguments, '\t')
    };
    let return_type = ls[2].clone();
    assert(return_type@ == ls@[2]@);
    Ok(Observation { var_name: owned(var), argument_types, return_type })
}

/// Pinning is idempotent: once an observation is pinned, its declaration
/// is a line of the source, so pinning it again changes nothing. This
/// holds when the declaration is one line without surrounding white space.
pub proof fn law_pin_observation_idempotent(source: Seq<char>, o: Observation)
    requires
        declaration_spec(o).len() > 0,
        forall|k: int| 0 <= k < declaration_spec(o).len() ==> declaration_spec(o)[k] != '\n',
        !crate::text::is_white_space(declaration_spec(o)[0]),
        !crate::text::is_white_space(declaration_spec(o).last()),
    ensures
        pinned(pin_text(source, o), declaration_spec(o)),
{
    let decl = declaration_spec(o);
    let note = "` through nREPL; concrete sample, safe to generalize\n"@;
    reveal_strlit("` through nREPL; concrete sample, safe to generalize\n");
    reveal_strlit("\n");
    let head = owned_text_with_newline(source) + "\n// observed from `"@ + o.var_name@ + note;
    let s = pin_text(source, o);
    assert(s =~= head + decl + "\n"@);
    let p = head.len() as int;
    assert(head.last() == '\n');
    assert(s[p - 1] == '\n');
    assert forall|t: int| p <= t < p + decl.len() implies s[t] != '\n' by {
        assert(s[t] == decl[t - p]);
    }
    assert(s[p + decl.len()] == '\n');
    crate::text::lemma_find_from_exact(s, '\n', p, decl.len() as int);
    assert(s.subrange(p, p + decl.len()) =~= decl);
    assert(decl.last() != '\r');
    assert(crate::text::line_at(s, p) == decl);
    crate::text::lemma_line_reached(s, 0, p);
    crate::text::lemma_trim_fixed(decl);
    let k = choose|k: int| 0 <= k < lines_from(s, 0).len() && #[trigger] lines_from(s, 0)[k] == crate::text::line_at(s, p);
    assert(crate::text::trim_end_seq(crate::text::trim_start_seq(lines_from(s, 0)[k])) == decl);
}

} // verus!
