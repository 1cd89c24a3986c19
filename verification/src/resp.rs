//! The wire protocol codec: the value type, its byte encoding, and a
//! streaming parser whose behaviour is pinned down by a specification-level
//! parser over byte sequences.
use vstd::prelude::*;

use crate::text::{
    all_digits, check_float_text, check_symbolic_float, check_utf8, dec_val, finite_double_text,
    float_grammar, int_digits, int_grammar, int_val, is_finite_double_text, is_utf8, i64_dec,
    lemma_udec_digits, parse_i64_text, spec_idec, spec_parse_i64, spec_udec, usize_dec,
    symbolic_float_text,
};

verus! {

/// Payload of a double frame: the three symbolic forms, or finite decimal
/// text kept exactly as it appeared on the wire.
#[derive(Debug, Clone, PartialEq)]
pub enum DoubleRepr {
    Inf,
    NegInf,
    Nan,
    Num(Vec<u8>),
}

pub ghost enum DoubleVal {
    Inf,
    NegInf,
    Nan,
    Num(Seq<u8>),
}

impl View for DoubleRepr {
    type V = DoubleVal;

    open spec fn view(&self) -> DoubleVal {
        match self {
            DoubleRepr::Inf => DoubleVal::Inf,
            DoubleRepr::NegInf => DoubleVal::NegInf,
            DoubleRepr::Nan => DoubleVal::Nan,
            DoubleRepr::Num(t) => DoubleVal::Num(t@),
        }
    }
}

/// One protocol value. Simple strings and errors hold UTF-8 text, bulk
/// payloads hold arbitrary bytes, and the aggregate variants nest.
#[derive(Debug, PartialEq)]
pub enum Resp {
    SimpleString(Vec<u8>),
    SimpleError(Vec<u8>),
    Integer(i64),
    BulkString(Vec<u8>),
    BulkStringNull,
    Array(Vec<Resp>),
    ArrayNull,
    Null,
    Boolean(bool),
    Double(DoubleRepr),
    BigNumber(Vec<u8>),
    BulkError(Vec<u8>),
    VerbatimString(Vec<u8>),
    Dict(Vec<(Resp, Resp)>),
    SetOf(Vec<Resp>),
    Push(Vec<Resp>),
}

pub ghost enum RespVal {
    SimpleString(Seq<u8>),
    SimpleError(Seq<u8>),
    Integer(int),
    BulkString(Seq<u8>),
    BulkStringNull,
    Array(Seq<RespVal>),
    ArrayNull,
    Null,
    Boolean(bool),
    Double(DoubleVal),
    BigNumber(Seq<u8>),
    BulkError(Seq<u8>),
    VerbatimString(Seq<u8>),
    Dict(Seq<(RespVal, RespVal)>),
    SetOf(Seq<RespVal>),
    Push(Seq<RespVal>),
}

/// Views of each element of a value sequence.
pub open spec fn deep_views(items: Seq<Resp>) -> Seq<RespVal>
    decreases items,
{
    Seq::new(
        items.len(),
        |i: int|
            if 0 <= i < items.len() {
                items[i]@
            } else {
                RespVal::Null
            },
    )
}

/// Views of each pair of a key/value sequence.
pub open spec fn deep_views_pairs(pairs: Seq<(Resp, Resp)>) -> Seq<(RespVal, RespVal)>
    decreases pairs,
{
    Seq::new(
        pairs.len(),
        |i: int|
            if 0 <= i < pairs.len() {
                (pairs[i].0@, pairs[i].1@)
            } else {
                (RespVal::Null, RespVal::Null)
            },
    )
}

impl View for Resp {
    type V = RespVal;

    open spec fn view(&self) -> RespVal
        decreases self,
    {
        match self {
            Resp::SimpleString(s) => RespVal::SimpleString(s@),
            Resp::SimpleError(s) => RespVal::SimpleError(s@),
            Resp::Integer(i) => RespVal::Integer(*i as int),
            Resp::BulkString(s) => RespVal::BulkString(s@),
            Resp::BulkStringNull => RespVal::BulkStringNull,
            Resp::Array(items) => RespVal::Array(deep_views(items@)),
            Resp::ArrayNull => RespVal::ArrayNull,
            Resp::Null => RespVal::Null,
            Resp::Boolean(b) => RespVal::Boolean(*b),
            Resp::Double(d) => RespVal::Double(d@),
            Resp::BigNumber(s) => RespVal::BigNumber(s@),
            Resp::BulkError(s) => RespVal::BulkError(s@),
            Resp::VerbatimString(s) => RespVal::VerbatimString(s@),
            Resp::Dict(pairs) => RespVal::Dict(deep_views_pairs(pairs@)),
            Resp::SetOf(items) => RespVal::SetOf(deep_views(items@)),
            Resp::Push(items) => RespVal::Push(deep_views(items@)),
        }
    }
}

/// The parse error kinds. Only `UnexpectedEndOfInput` is recoverable by
/// reading more bytes; every other kind is fatal for the connection.
#[derive(Debug, Clone, Copy, PartialEq, Eq, Structural)]
pub enum ParseError {
    UnexpectedEndOfInput,
    InvalidByte,
    InvalidUtf8,
    InvalidInteger,
    InvalidFloat,
    InvalidLength,
    InvalidConversion,
}

// ---------------------------------------------------------------------------
// The byte encoding, at the specification level
// ---------------------------------------------------------------------------

pub open spec fn crlf() -> Seq<u8> {
    seq![13u8, 10u8]
}

pub open spec fn no_cr(s: Seq<u8>) -> bool {
    forall|i: int| 0 <= i < s.len() ==> s[i] != 13
}

pub open spec fn double_text(d: DoubleVal) -> Seq<u8> {
    match d {
        DoubleVal::Inf => seq![105u8, 110, 102],
        DoubleVal::NegInf => seq![45u8, 105, 110, 102],
        DoubleVal::Nan => seq![110u8, 97, 110],
        DoubleVal::Num(t) => t,
    }
}

pub open spec fn enc_line(tag: u8, payload: Seq<u8>) -> Seq<u8> {
    seq![tag] + payload + crlf()
}

pub open spec fn enc_bulk(tag: u8, payload: Seq<u8>) -> Seq<u8> {
    seq![tag] + spec_udec(payload.len() as int) + crlf() + payload + crlf()
}

pub open spec fn enc_header(tag: u8, count: int) -> Seq<u8> {
    seq![tag] + spec_udec(count) + crlf()
}

/// The exact bytes of one encoded value.
pub open spec fn spec_encode(v: RespVal) -> Seq<u8>
    decreases v,
{
    match v {
        RespVal::SimpleString(s) => enc_line(43, s),
        RespVal::SimpleError(s) => enc_line(45, s),
        RespVal::Integer(i) => enc_line(58, spec_idec(i)),
        RespVal::BulkString(s) => enc_bulk(36, s),
        RespVal::BulkStringNull => seq![36u8, 45, 49, 13, 10],
        RespVal::Array(items) => enc_header(42, items.len() as int) + spec_encode_list(items),
        RespVal::ArrayNull => seq![42u8, 45, 49, 13, 10],
        RespVal::Null => seq![95u8, 13, 10],
        RespVal::Boolean(b) => seq![35u8, if b { 116u8 } else { 102u8 }, 13, 10],
        RespVal::Double(d) => enc_line(44, double_text(d)),
        RespVal::BigNumber(s) => enc_line(40, s),
        RespVal::BulkError(s) => enc_bulk(33, s),
        RespVal::VerbatimString(s) => enc_bulk(61, s),
        RespVal::Dict(pairs) => enc_header(37, pairs.len() as int) + spec_encode_pairs(pairs),
        RespVal::SetOf(items) => enc_header(126, items.len() as int) + spec_encode_list(items),
        RespVal::Push(items) => enc_header(62, items.len() as int) + spec_encode_list(items),
    }
}

pub open spec fn spec_encode_list(items: Seq<RespVal>) -> Seq<u8>
    decreases items,
{
    if items.len() == 0 {
        Seq::<u8>::empty()
    } else {
        spec_encode(items[0]) + spec_encode_list(items.skip(1))
    }
}

pub open spec fn spec_encode_pair(p: (RespVal, RespVal)) -> Seq<u8>
    decreases p,
{
    spec_encode(p.0) + spec_encode(p.1)
}

pub open spec fn spec_encode_pairs(pairs: Seq<(RespVal, RespVal)>) -> Seq<u8>
    decreases pairs,
{
    if pairs.len() == 0 {
        Seq::<u8>::empty()
    } else {
        spec_encode_pair(pairs[0]) + spec_encode_pairs(pairs.skip(1))
    }
}

/// Well-formed values: those the parser itself can produce, for which the
/// encoding round-trips bit for bit.
pub open spec fn wf(v: RespVal) -> bool
    decreases v,
{
    match v {
        RespVal::SimpleString(s) => no_cr(s) && is_utf8(s),
        RespVal::SimpleError(s) => no_cr(s) && is_utf8(s),
        RespVal::Integer(i) => i64::MIN <= i <= i64::MAX,
        RespVal::BulkString(s) => s.len() <= i64::MAX,
        RespVal::BulkStringNull => true,
        RespVal::Array(items) => items.len() <= i64::MAX && forall|i: int|
            0 <= i < items.len() ==> wf(#[trigger] items[i]),
        RespVal::ArrayNull => true,
        RespVal::Null => true,
        RespVal::Boolean(_) => true,
        RespVal::Double(d) => match d {
            DoubleVal::Num(t) => float_grammar(t) && finite_double_text(t),
            _ => true,
        },
        RespVal::BigNumber(s) => no_cr(s) && is_utf8(s),
        RespVal::BulkError(s) => s.len() <= i64::MAX,
        RespVal::VerbatimString(s) => s.len() <= i64::MAX,
        RespVal::Dict(pairs) => pairs.len() <= i64::MAX && forall|i: int|
            0 <= i < pairs.len() ==> wf(#[trigger] pairs[i].0) && wf(pairs[i].1),
        RespVal::SetOf(items) => items.len() <= i64::MAX && forall|i: int|
            0 <= i < items.len() ==> wf(#[trigger] items[i]),
        RespVal::Push(items) => items.len() <= i64::MAX && forall|i: int|
            0 <= i < items.len() ==> wf(#[trigger] items[i]),
    }
}

// ---------------------------------------------------------------------------
// The verified encoder
// ---------------------------------------------------------------------------

proof fn lemma_encode_list_push(items: Seq<RespVal>, x: RespVal)
    ensures
        spec_encode_list(items.push(x)) == spec_encode_list(items) + spec_encode(x),
    decreases items.len(),
{
    if items.len() == 0 {
        let p = items.push(x);
        assert(p[0] == x);
        assert(p.skip(1) =~= Seq::<RespVal>::empty());
        assert(spec_encode_list(p.skip(1)) =~= Seq::<u8>::empty());
        assert(spec_encode_list(p) == spec_encode(x) + spec_encode_list(p.skip(1)));
        assert(spec_encode(x) + Seq::<u8>::empty() =~= spec_encode(x));
        assert(spec_encode_list(items) =~= Seq::<u8>::empty());
        assert(Seq::<u8>::empty() + spec_encode(x) =~= spec_encode(x));
    } else {
        assert(items.push(x).skip(1) =~= items.skip(1).push(x));
        lemma_encode_list_push(items.skip(1), x);
        assert(items.push(x)[0] == items[0]);
        assert(spec_encode_list(items.push(x)) == spec_encode(items[0]) + (spec_encode_list(
            items.skip(1),
        ) + spec_encode(x)));
        assert(spec_encode(items[0]) + (spec_encode_list(items.skip(1)) + spec_encode(x)) =~= (
        spec_encode(items[0]) + spec_encode_list(items.skip(1))) + spec_encode(x));
    }
}

proof fn lemma_encode_pairs_push(pairs: Seq<(RespVal, RespVal)>, x: (RespVal, RespVal))
    ensures
        spec_encode_pairs(pairs.push(x)) == spec_encode_pairs(pairs) + spec_encode_pair(x),
    decreases pairs.len(),
{
    if pairs.len() == 0 {
        let p = pairs.push(x);
        assert(p[0] == x);
        assert(p.skip(1) =~= Seq::<(RespVal, RespVal)>::empty());
        assert(spec_encode_pairs(p.skip(1)) =~= Seq::<u8>::empty());
        assert(spec_encode_pairs(p) == spec_encode_pair(x) + spec_encode_pairs(p.skip(1)));
        assert(spec_encode_pair(x) + Seq::<u8>::empty() =~= spec_encode_pair(x));
        assert(spec_encode_pairs(pairs) =~= Seq::<u8>::empty());
        assert(Seq::<u8>::empty() + spec_encode_pair(x) =~= spec_encode_pair(x));
    } else {
        assert(pairs.push(x).skip(1) =~= pairs.skip(1).push(x));
        lemma_encode_pairs_push(pairs.skip(1), x);
        assert(pairs.push(x)[0] == pairs[0]);
        assert(spec_encode_pairs(pairs.push(x)) == spec_encode_pair(pairs[0]) + (spec_encode_pairs(
            pairs.skip(1),
        ) + spec_encode_pair(x)));
        assert(spec_encode_pair(pairs[0]) + (spec_encode_pairs(pairs.skip(1)) + spec_encode_pair(x))
            =~= (spec_encode_pair(pairs[0]) + spec_encode_pairs(pairs.skip(1))) + spec_encode_pair(
            x,
        ));
    }
}

fn push_crlf(out: &mut Vec<u8>)
    ensures
        final(out)@ == old(out)@ + crlf(),
{
    out.push(13);
    out.push(10);
    assert(out@ =~= old(out)@ + crlf());
}

pub fn push_all(out: &mut Vec<u8>, s: &[u8])
    ensures
        final(out)@ == old(out)@ + s@,
{
    let n = s.len();
    let mut i: usize = 0;
    while i < n
        invariant
            0 <= i <= n,
            n == s@.len(),
            out@ == old(out)@ + s@.subrange(0, i as int),
        decreases n - i,
    {
        out.push(s[i]);
        i += 1;
        assert(out@ =~= old(out)@ + s@.subrange(0, i as int));
    }
    assert(s@.subrange(0, n as int) =~= s@);
}

fn push_line(out: &mut Vec<u8>, tag: u8, payload: &[u8])
    ensures
        final(out)@ == old(out)@ + enc_line(tag, payload@),
{
    out.push(tag);
    push_all(out, payload);
    push_crlf(out);
    assert(out@ =~= old(out)@ + enc_line(tag, payload@));
}

fn push_bulk(out: &mut Vec<u8>, tag: u8, payload: &[u8])
    ensures
        final(out)@ == old(out)@ + enc_bulk(tag, payload@),
{
    out.push(tag);
    let len_text = usize_dec(payload.len());
    push_all(out, len_text.as_slice());
    push_crlf(out);
    push_all(out, payload);
    push_crlf(out);
    assert(out@ =~= old(out)@ + enc_bulk(tag, payload@));
}

fn push_header(out: &mut Vec<u8>, tag: u8, count: usize)
    ensures
        final(out)@ == old(out)@ + enc_header(tag, count as int),
{
    out.push(tag);
    let len_text = usize_dec(count);
    push_all(out, len_text.as_slice());
    push_crlf(out);
    assert(out@ =~= old(out)@ + enc_header(tag, count as int));
}

/// Append the encoding of one value to a byte buffer.
pub fn encode_value(v: &Resp, out: &mut Vec<u8>)
    ensures
        final(out)@ == old(out)@ + spec_encode(v@),
    decreases *v,
{
    match v {
        Resp::SimpleString(s) => {
            push_line(out, 43, s.as_slice());
        },
        Resp::SimpleError(s) => {
            push_line(out, 45, s.as_slice());
        },
        Resp::Integer(i) => {
            let text = i64_dec(*i);
            push_line(out, 58, text.as_slice());
        },
        Resp::BulkString(s) => {
            push_bulk(out, 36, s.as_slice());
        },
        Resp::BulkStringNull => {
            out.push(36);
            out.push(45);
            out.push(49);
            push_crlf(out);
            assert(out@ =~= old(out)@ + spec_encode(v@));
        },
        Resp::Array(items) => {
            encode_items(out, 42, items);
        },
        Resp::ArrayNull => {
            out.push(42);
            out.push(45);
            out.push(49);
            push_crlf(out);
            assert(out@ =~= old(out)@ + spec_encode(v@));
        },
        Resp::Null => {
            out.push(95);
            push_crlf(out);
            assert(out@ =~= old(out)@ + spec_encode(v@));
        },
        Resp::Boolean(b) => {
            out.push(35);
            out.push(if *b {
                116
            } else {
                102
            });
            push_crlf(out);
            assert(out@ =~= old(out)@ + spec_encode(v@));
        },
        Resp::Double(d) => {
            out.push(44);
            match d {
                DoubleRepr::Inf => {
                    out.push(105);
                    out.push(110);
                    out.push(102);
                },
                DoubleRepr::NegInf => {
                    out.push(45);
                    out.push(105);
                    out.push(110);
                    out.push(102);
                },
                DoubleRepr::Nan => {
                    out.push(110);
                    out.push(97);
                    out.push(110);
                },
                DoubleRepr::Num(t) => {
                    push_all(out, t.as_slice());
                },
            }
            push_crlf(out);
            assert(out@ =~= old(out)@ + spec_encode(v@));
        },
        Resp::BigNumber(s) => {
            push_line(out, 40, s.as_slice());
        },
        Resp::BulkError(s) => {
            push_bulk(out, 33, s.as_slice());
        },
        Resp::VerbatimString(s) => {
            push_bulk(out, 61, s.as_slice());
        },
        Resp::Dict(pairs) => {
            encode_dict(out, pairs);
        },
        Resp::SetOf(items) => {
            encode_items(out, 126, items);
        },
        Resp::Push(items) => {
            encode_items(out, 62, items);
        },
    }
}

/// Append a count header and each element's encoding.
fn encode_items(out: &mut Vec<u8>, tag: u8, items: &Vec<Resp>)
    ensures
        final(out)@ == old(out)@ + enc_header(tag, items@.len() as int) + spec_encode_list(
            deep_views(items@),
        ),
    decreases *items,
{
    let ghost vitems = deep_views(items@);
    push_header(out, tag, items.len());
    let n = items.len();
    let mut i: usize = 0;
    while i < n
        invariant
            0 <= i <= n,
            n == items@.len(),
            vitems == deep_views(items@),
            out@ == old(out)@ + enc_header(tag, n as int) + spec_encode_list(
                vitems.subrange(0, i as int),
            ),
        decreases n - i,
    {
        proof {
            assert(spec_encode_list(vitems.subrange(0, 0)) =~= Seq::<u8>::empty());
        }
        encode_value(&items[i], out);
        i += 1;
        proof {
            lemma_encode_list_push(vitems.subrange(0, i - 1), vitems[i - 1]);
            assert(vitems.subrange(0, i - 1).push(vitems[i - 1]) =~= vitems.subrange(0, i as int));
            assert(vitems[i - 1] == items@[i - 1]@);
            assert(out@ =~= old(out)@ + enc_header(tag, n as int) + spec_encode_list(
                vitems.subrange(0, i as int),
            ));
        }
    }
    proof {
        assert(vitems.subrange(0, n as int) =~= vitems);
    }
}

/// Append the encodings of a key and its value.
fn encode_pair(out: &mut Vec<u8>, kv: &(Resp, Resp))
    ensures
        final(out)@ == old(out)@ + spec_encode_pair((kv.0@, kv.1@)),
    decreases *kv,
{
    encode_value(&kv.0, out);
    encode_value(&kv.1, out);
    assert(out@ =~= old(out)@ + spec_encode_pair((kv.0@, kv.1@)));
}

/// Append a pair-count header and each key/value encoding.
fn encode_dict(out: &mut Vec<u8>, pairs: &Vec<(Resp, Resp)>)
    ensures
        final(out)@ == old(out)@ + enc_header(37, pairs@.len() as int) + spec_encode_pairs(
            deep_views_pairs(pairs@),
        ),
    decreases *pairs,
{
    let ghost vpairs = deep_views_pairs(pairs@);
    push_header(out, 37, pairs.len());
    let n = pairs.len();
    let mut i: usize = 0;
    while i < n
        invariant
            0 <= i <= n,
            n == pairs@.len(),
            vpairs == deep_views_pairs(pairs@),
            out@ == old(out)@ + enc_header(37, n as int) + spec_encode_pairs(
                vpairs.subrange(0, i as int),
            ),
        decreases n - i,
    {
        proof {
            assert(spec_encode_pairs(vpairs.subrange(0, 0)) =~= Seq::<u8>::empty());
        }
        encode_pair(out, &pairs[i]);
        i += 1;
        proof {
            lemma_encode_pairs_push(vpairs.subrange(0, i - 1), vpairs[i - 1]);
            assert(vpairs.subrange(0, i - 1).push(vpairs[i - 1]) =~= vpairs.subrange(
                0,
                i as int,
            ));
            assert(vpairs[i - 1].0 == pairs@[i - 1].0@);
            assert(out@ =~= old(out)@ + enc_header(37, n as int) + spec_encode_pairs(
                vpairs.subrange(0, i as int),
            ));
        }
    }
    proof {
        assert(vpairs.subrange(0, n as int) =~= vpairs);
    }
}

} // verus!

verus! {

impl Clone for Resp {
    /// A deep copy whose view is the same value.
    fn clone(&self) -> (r: Self)
        ensures
            r@ == self@,
        decreases self,
    {
        match self {
            Resp::SimpleString(s) => Resp::SimpleString(clone_bytes(s)),
            Resp::SimpleError(s) => Resp::SimpleError(clone_bytes(s)),
            Resp::Integer(i) => Resp::Integer(*i),
            Resp::BulkString(s) => Resp::BulkString(clone_bytes(s)),
            Resp::BulkStringNull => Resp::BulkStringNull,
            Resp::Array(items) => Resp::Array(clone_items(items)),
            Resp::ArrayNull => Resp::ArrayNull,
            Resp::Null => Resp::Null,
            Resp::Boolean(b) => Resp::Boolean(*b),
            Resp::Double(d) => Resp::Double(
                match d {
                    DoubleRepr::Inf => DoubleRepr::Inf,
                    DoubleRepr::NegInf => DoubleRepr::NegInf,
                    DoubleRepr::Nan => DoubleRepr::Nan,
                    DoubleRepr::Num(t) => DoubleRepr::Num(clone_bytes(t)),
                },
            ),
            Resp::BigNumber(s) => Resp::BigNumber(clone_bytes(s)),
            Resp::BulkError(s) => Resp::BulkError(clone_bytes(s)),
            Resp::VerbatimString(s) => Resp::VerbatimString(clone_bytes(s)),
            Resp::Dict(pairs) => Resp::Dict(clone_pairs(pairs)),
            Resp::SetOf(items) => Resp::SetOf(clone_items(items)),
            Resp::Push(items) => Resp::Push(clone_items(items)),
        }
    }
}

/// A copy of a byte vector with the same contents.
pub fn clone_bytes(v: &Vec<u8>) -> (r: Vec<u8>)
    ensures
        r@ == v@,
{
    let n = v.len();
    let mut out: Vec<u8> = Vec::new();
    let mut i: usize = 0;
    while i < n
        invariant
            0 <= i <= n,
            n == v@.len(),
            out@ =~= v@.subrange(0, i as int),
        decreases n - i,
    {
        out.push(v[i]);
        i += 1;
        assert(out@ =~= v@.subrange(0, i as int));
    }
    assert(v@.subrange(0, n as int) =~= v@);
    out
}

fn clone_pairs(pairs: &Vec<(Resp, Resp)>) -> (r: Vec<(Resp, Resp)>)
    ensures
        deep_views_pairs(r@) == deep_views_pairs(pairs@),
    decreases *pairs,
{
    let n = pairs.len();
    let mut out: Vec<(Resp, Resp)> = Vec::new();
    let mut i: usize = 0;
    while i < n
        invariant
            0 <= i <= n,
            n == pairs@.len(),
            out@.len() == i,
            forall|k: int|
                0 <= k < i ==> (#[trigger] out@[k]).0@ == pairs@[k].0@ && out@[k].1@
                    == pairs@[k].1@,
        decreases n - i,
    {
        out.push(clone_pair(&pairs[i]));
        i += 1;
    }
    proof {
        assert(deep_views_pairs(out@) =~= deep_views_pairs(pairs@));
    }
    out
}

fn clone_pair(kv: &(Resp, Resp)) -> (r: (Resp, Resp))
    ensures
        r.0@ == kv.0@,
        r.1@ == kv.1@,
    decreases *kv,
{
    (kv.0.clone(), kv.1.clone())
}

fn clone_items(items: &Vec<Resp>) -> (r: Vec<Resp>)
    ensures
        deep_views(r@) == deep_views(items@),
    decreases *items,
{
    let n = items.len();
    let mut out: Vec<Resp> = Vec::new();
    let mut i: usize = 0;
    while i < n
        invariant
            0 <= i <= n,
            n == items@.len(),
            out@.len() == i,
            forall|k: int| 0 <= k < i ==> (#[trigger] out@[k])@ == items@[k]@,
        decreases n - i,
    {
        out.push(items[i].clone());
        i += 1;
    }
    proof {
        assert(deep_views(out@) =~= deep_views(items@));
    }
    out
}

} // verus!

verus! {

// ---------------------------------------------------------------------------
// The parser, at the specification level
// ---------------------------------------------------------------------------

pub ghost enum LineStep {
    LDone(Seq<u8>, int),
    LFail(ParseError),
}

pub ghost enum ParseStep {
    Done(RespVal, int),
    Fail(ParseError),
}

pub ghost enum BulkStep {
    BNull(int),
    BData(Seq<u8>, int),
    BFail(ParseError),
}

pub ghost enum CountStep {
    Count(int, int),
    CFail(ParseError),
}

pub ghost enum ElemsStep {
    EDone(Seq<RespVal>, int),
    EFail(ParseError),
}

pub ghost enum PairsStep {
    PDone(Seq<(RespVal, RespVal)>, int),
    PFail(ParseError),
}

/// Consume bytes up to and including the next CRLF; a bare CR followed by
/// anything but LF is malformed, and running out of bytes is recoverable.
pub open spec fn spec_line(s: Seq<u8>, pos: int) -> LineStep
    decreases s.len() - pos,
{
    if pos < 0 || pos >= s.len() {
        LineStep::LFail(ParseError::UnexpectedEndOfInput)
    } else if s[pos] == 13 {
        if pos + 1 >= s.len() {
            LineStep::LFail(ParseError::UnexpectedEndOfInput)
        } else if s[pos + 1] == 10 {
            LineStep::LDone(Seq::<u8>::empty(), pos + 2)
        } else {
            LineStep::LFail(ParseError::InvalidByte)
        }
    } else {
        match spec_line(s, pos + 1) {
            LineStep::LDone(c, p) => LineStep::LDone(seq![s[pos]] + c, p),
            f => f,
        }
    }
}

/// A count or length header line: UTF-8 text holding a decimal i64.
pub open spec fn spec_count(s: Seq<u8>, pos: int) -> CountStep {
    match spec_line(s, pos) {
        LineStep::LDone(h, p) => if !is_utf8(h) {
            CountStep::CFail(ParseError::InvalidUtf8)
        } else {
            match spec_parse_i64(h) {
                Option::Some(len) => CountStep::Count(len as int, p),
                Option::None => CountStep::CFail(ParseError::InvalidInteger),
            }
        },
        LineStep::LFail(k) => CountStep::CFail(k),
    }
}

/// A length-prefixed payload: header line, then exactly `len` bytes, then CRLF.
/// A length of -1 stands for the null form; below -1 is malformed.
pub open spec fn spec_bulk(s: Seq<u8>, pos: int) -> BulkStep {
    match spec_count(s, pos) {
        CountStep::Count(len, p) => if len == -1 {
            BulkStep::BNull(p)
        } else if len < -1 {
            BulkStep::BFail(ParseError::InvalidLength)
        } else if p + len + 1 >= s.len() {
            BulkStep::BFail(ParseError::UnexpectedEndOfInput)
        } else if s[p + len] != 13 {
            BulkStep::BFail(ParseError::InvalidByte)
        } else if s[p + len + 1] != 10 {
            BulkStep::BFail(ParseError::InvalidByte)
        } else {
            BulkStep::BData(s.subrange(p, p + len), p + len + 2)
        },
        CountStep::CFail(k) => BulkStep::BFail(k),
    }
}

/// Classification of one double payload line, after UTF-8 validation:
/// the three exact symbolic forms; other symbolic spellings and
/// out-of-range decimal text are conversion errors; text outside the float
/// grammar is a float error.
pub open spec fn spec_double(c: Seq<u8>, p: int) -> ParseStep {
    if c == seq![105u8, 110, 102] {
        ParseStep::Done(RespVal::Double(DoubleVal::Inf), p)
    } else if c == seq![45u8, 105, 110, 102] {
        ParseStep::Done(RespVal::Double(DoubleVal::NegInf), p)
    } else if c == seq![110u8, 97, 110] {
        ParseStep::Done(RespVal::Double(DoubleVal::Nan), p)
    } else if symbolic_float_text(c) {
        ParseStep::Fail(ParseError::InvalidConversion)
    } else if float_grammar(c) {
        if finite_double_text(c) {
            ParseStep::Done(RespVal::Double(DoubleVal::Num(c)), p)
        } else {
            ParseStep::Fail(ParseError::InvalidConversion)
        }
    } else {
        ParseStep::Fail(ParseError::InvalidFloat)
    }
}

/// Parse one framed value starting at `pos`.
pub open spec fn spec_parse(s: Seq<u8>, pos: int) -> ParseStep
    decreases s.len() - pos, 0int, 0int,
{
    if pos < 0 || pos >= s.len() {
        ParseStep::Fail(ParseError::UnexpectedEndOfInput)
    } else {
        let b = s[pos];
        let p1 = pos + 1;
        if b == 43 {
            match spec_line(s, p1) {
                LineStep::LDone(c, p) => if is_utf8(c) {
                    ParseStep::Done(RespVal::SimpleString(c), p)
                } else {
                    ParseStep::Fail(ParseError::InvalidUtf8)
                },
                LineStep::LFail(k) => ParseStep::Fail(k),
            }
        } else if b == 45 {
            match spec_line(s, p1) {
                LineStep::LDone(c, p) => if is_utf8(c) {
                    ParseStep::Done(RespVal::SimpleError(c), p)
                } else {
                    ParseStep::Fail(ParseError::InvalidUtf8)
                },
                LineStep::LFail(k) => ParseStep::Fail(k),
            }
        } else if b == 58 {
            match spec_line(s, p1) {
                LineStep::LDone(c, p) => if !is_utf8(c) {
                    ParseStep::Fail(ParseError::InvalidUtf8)
                } else {
                    match spec_parse_i64(c) {
                        Option::Some(i) => ParseStep::Done(RespVal::Integer(i as int), p),
                        Option::None => ParseStep::Fail(ParseError::InvalidInteger),
                    }
                },
                LineStep::LFail(k) => ParseStep::Fail(k),
            }
        } else if b == 36 {
            match spec_bulk(s, p1) {
                BulkStep::BNull(p) => ParseStep::Done(RespVal::BulkStringNull, p),
                BulkStep::BData(d, p) => ParseStep::Done(RespVal::BulkString(d), p),
                BulkStep::BFail(k) => ParseStep::Fail(k),
            }
        } else if b == 33 {
            match spec_bulk(s, p1) {
                BulkStep::BNull(_) => ParseStep::Fail(ParseError::InvalidLength),
                BulkStep::BData(d, p) => ParseStep::Done(RespVal::BulkError(d), p),
                BulkStep::BFail(k) => ParseStep::Fail(k),
            }
        } else if b == 61 {
            match spec_bulk(s, p1) {
                BulkStep::BNull(_) => ParseStep::Fail(ParseError::InvalidLength),
                BulkStep::BData(d, p) => ParseStep::Done(RespVal::VerbatimString(d), p),
                BulkStep::BFail(k) => ParseStep::Fail(k),
            }
        } else if b == 42 {
            match spec_count(s, p1) {
                CountStep::Count(c, p) => if c == -1 {
                    ParseStep::Done(RespVal::ArrayNull, p)
                } else if c < -1 {
                    ParseStep::Fail(ParseError::InvalidLength)
                } else if !(pos < p <= s.len()) {
                    ParseStep::Fail(ParseError::InvalidByte)
                } else {
                    match spec_elems(s, p, c) {
                        ElemsStep::EDone(list, p2) => ParseStep::Done(RespVal::Array(list), p2),
                        ElemsStep::EFail(k) => ParseStep::Fail(k),
                    }
                },
                CountStep::CFail(k) => ParseStep::Fail(k),
            }
        } else if b == 126 {
            match spec_count(s, p1) {
                CountStep::Count(c, p) => if c < 0 {
                    ParseStep::Fail(ParseError::InvalidLength)
                } else if !(pos < p <= s.len()) {
                    ParseStep::Fail(ParseError::InvalidByte)
                } else {
                    match spec_elems(s, p, c) {
                        ElemsStep::EDone(list, p2) => ParseStep::Done(RespVal::SetOf(list), p2),
                        ElemsStep::EFail(k) => ParseStep::Fail(k),
                    }
                },
                CountStep::CFail(k) => ParseStep::Fail(k),
            }
        } else if b == 62 {
            match spec_count(s, p1) {
                CountStep::Count(c, p) => if c < 0 {
                    ParseStep::Fail(ParseError::InvalidLength)
                } else if !(pos < p <= s.len()) {
                    ParseStep::Fail(ParseError::InvalidByte)
                } else {
                    match spec_elems(s, p, c) {
                        ElemsStep::EDone(list, p2) => ParseStep::Done(RespVal::Push(list), p2),
                        ElemsStep::EFail(k) => ParseStep::Fail(k),
                    }
                },
                CountStep::CFail(k) => ParseStep::Fail(k),
            }
        } else if b == 37 {
            match spec_count(s, p1) {
                CountStep::Count(c, p) => if c < 0 {
                    ParseStep::Fail(ParseError::InvalidLength)
                } else if !(pos < p <= s.len()) {
                    ParseStep::Fail(ParseError::InvalidByte)
                } else {
                    match spec_pairs(s, p, c) {
                        PairsStep::PDone(list, p2) => ParseStep::Done(RespVal::Dict(list), p2),
                        PairsStep::PFail(k) => ParseStep::Fail(k),
                    }
                },
                CountStep::CFail(k) => ParseStep::Fail(k),
            }
        } else if b == 95 {
            match spec_line(s, p1) {
                LineStep::LDone(_, p) => ParseStep::Done(RespVal::Null, p),
                LineStep::LFail(k) => ParseStep::Fail(k),
            }
        } else if b == 35 {
            if p1 >= s.len() {
                ParseStep::Fail(ParseError::UnexpectedEndOfInput)
            } else if s[p1] != 116 && s[p1] != 102 {
                ParseStep::Fail(ParseError::InvalidByte)
            } else if p1 + 1 >= s.len() {
                ParseStep::Fail(ParseError::UnexpectedEndOfInput)
            } else if s[p1 + 1] != 13 {
                ParseStep::Fail(ParseError::InvalidByte)
            } else if p1 + 2 >= s.len() {
                ParseStep::Fail(ParseError::UnexpectedEndOfInput)
            } else if s[p1 + 2] != 10 {
                ParseStep::Fail(ParseError::InvalidByte)
            } else {
                ParseStep::Done(RespVal::Boolean(s[p1] == 116), p1 + 3)
            }
        } else if b == 44 {
            match spec_line(s, p1) {
                LineStep::LDone(c, p) => if !is_utf8(c) {
                    ParseStep::Fail(ParseError::InvalidUtf8)
                } else {
                    spec_double(c, p)
                },
                LineStep::LFail(k) => ParseStep::Fail(k),
            }
        } else if b == 40 {
            match spec_line(s, p1) {
                LineStep::LDone(c, p) => ParseStep::Done(RespVal::BigNumber(c), p),
                LineStep::LFail(k) => ParseStep::Fail(k),
            }
        } else {
            ParseStep::Fail(ParseError::InvalidByte)
        }
    }
}

/// Parse `n` consecutive values.
pub open spec fn spec_elems(s: Seq<u8>, pos: int, n: int) -> ElemsStep
    decreases s.len() - pos, 1int, n,
{
    if n <= 0 {
        ElemsStep::EDone(Seq::<RespVal>::empty(), pos)
    } else {
        match spec_parse(s, pos) {
            ParseStep::Done(v, p) => if !(pos < p <= s.len()) {
                ElemsStep::EFail(ParseError::InvalidByte)
            } else {
                match spec_elems(s, p, n - 1) {
                    ElemsStep::EDone(rest, p2) => ElemsStep::EDone(seq![v] + rest, p2),
                    f => f,
                }
            },
            ParseStep::Fail(k) => ElemsStep::EFail(k),
        }
    }
}

/// Parse `n` consecutive key/value pairs.
pub open spec fn spec_pairs(s: Seq<u8>, pos: int, n: int) -> PairsStep
    decreases s.len() - pos, 1int, n,
{
    if n <= 0 {
        PairsStep::PDone(Seq::<(RespVal, RespVal)>::empty(), pos)
    } else {
        match spec_parse(s, pos) {
            ParseStep::Done(k, p1) => if !(pos < p1 <= s.len()) {
                PairsStep::PFail(ParseError::InvalidByte)
            } else {
                match spec_parse(s, p1) {
                    ParseStep::Done(v, p2) => if !(p1 < p2 <= s.len()) {
                        PairsStep::PFail(ParseError::InvalidByte)
                    } else {
                        match spec_pairs(s, p2, n - 1) {
                            PairsStep::PDone(rest, p3) => PairsStep::PDone(
                                seq![(k, v)] + rest,
                                p3,
                            ),
                            f => f,
                        }
                    },
                    ParseStep::Fail(kk) => PairsStep::PFail(kk),
                }
            },
            ParseStep::Fail(kk) => PairsStep::PFail(kk),
        }
    }
}

/// A completed line lies between `pos` and `p`: its content is exactly the
/// consumed bytes minus the final CRLF, and holds no CR.
pub proof fn lemma_line_props(s: Seq<u8>, pos: int)
    requires
        0 <= pos,
    ensures
        match spec_line(s, pos) {
            LineStep::LDone(c, p) => pos + 2 <= p <= s.len() && c =~= s.subrange(pos, p - 2)
                && no_cr(c) && s[p - 2] == 13 && s[p - 1] == 10,
            LineStep::LFail(_) => true,
        },
    decreases s.len() - pos,
{
    if pos < s.len() && s[pos] != 13 {
        lemma_line_props(s, pos + 1);
        match spec_line(s, pos + 1) {
            LineStep::LDone(c, p) => {
                assert(seq![s[pos]] + c =~= s.subrange(pos, p - 2));
            },
            LineStep::LFail(_) => {},
        }
    }
}

/// A parsed value always consumes at least one byte and never passes the
/// end of the buffer.
pub proof fn lemma_parse_bounds(s: Seq<u8>, pos: int)
    requires
        0 <= pos,
    ensures
        match spec_parse(s, pos) {
            ParseStep::Done(v, p) => pos < p <= s.len(),
            ParseStep::Fail(_) => true,
        },
    decreases s.len() - pos, 0int, 0int,
{
    if 0 <= pos < s.len() {
        let b = s[pos];
        let p1 = pos + 1;
        lemma_line_props(s, p1);
        if b == 36 || b == 33 || b == 61 {
            match spec_count(s, p1) {
                CountStep::Count(len, p) => {},
                CountStep::CFail(_) => {},
            }
        }
        if b == 42 || b == 126 || b == 62 {
            match spec_count(s, p1) {
                CountStep::Count(c, p) => {
                    if c >= 0 && pos < p <= s.len() {
                        lemma_elems_bounds(s, p, c);
                    }
                },
                CountStep::CFail(_) => {},
            }
        }
        if b == 37 {
            match spec_count(s, p1) {
                CountStep::Count(c, p) => {
                    if c >= 0 && pos < p <= s.len() {
                        lemma_pairs_bounds(s, p, c);
                    }
                },
                CountStep::CFail(_) => {},
            }
        }
    }
}

pub proof fn lemma_elems_bounds(s: Seq<u8>, pos: int, n: int)
    requires
        0 <= pos <= s.len(),
    ensures
        match spec_elems(s, pos, n) {
            ElemsStep::EDone(list, p) => pos <= p <= s.len() && list.len() == if n >= 0 {
                n
            } else {
                0
            },
            ElemsStep::EFail(_) => true,
        },
    decreases s.len() - pos, 1int, n,
{
    if n > 0 {
        lemma_parse_bounds(s, pos);
        match spec_parse(s, pos) {
            ParseStep::Done(v, p) => {
                lemma_elems_bounds(s, p, n - 1);
            },
            ParseStep::Fail(_) => {},
        }
    }
}

pub proof fn lemma_pairs_bounds(s: Seq<u8>, pos: int, n: int)
    requires
        0 <= pos <= s.len(),
    ensures
        match spec_pairs(s, pos, n) {
            PairsStep::PDone(list, p) => pos <= p <= s.len() && list.len() == if n >= 0 {
                n
            } else {
                0
            },
            PairsStep::PFail(_) => true,
        },
    decreases s.len() - pos, 1int, n,
{
    if n > 0 {
        lemma_parse_bounds(s, pos);
        match spec_parse(s, pos) {
            ParseStep::Done(k, p1) => {
                if pos < p1 <= s.len() {
                    lemma_parse_bounds(s, p1);
                    match spec_parse(s, p1) {
                        ParseStep::Done(v, p2) => {
                            lemma_pairs_bounds(s, p2, n - 1);
                        },
                        ParseStep::Fail(_) => {},
                    }
                }
            },
            ParseStep::Fail(_) => {},
        }
    }
}

} // verus!

verus! {

// ---------------------------------------------------------------------------
// The executable parser, verified against the specification parser
// ---------------------------------------------------------------------------

pub open spec fn line_matches(r: Result<(Vec<u8>, usize), ParseError>, st: LineStep) -> bool {
    match st {
        LineStep::LDone(c, p) => match r {
            Result::Ok(pr) => pr.0@ == c && pr.1 as int == p,
            Result::Err(_) => false,
        },
        LineStep::LFail(k) => match r {
            Result::Ok(_) => false,
            Result::Err(e) => e == k,
        },
    }
}

pub open spec fn count_matches(r: Result<(i64, usize), ParseError>, st: CountStep) -> bool {
    match st {
        CountStep::Count(c, p) => match r {
            Result::Ok(pr) => pr.0 as int == c && pr.1 as int == p,
            Result::Err(_) => false,
        },
        CountStep::CFail(k) => match r {
            Result::Ok(_) => false,
            Result::Err(e) => e == k,
        },
    }
}

pub open spec fn bulk_matches(r: Result<(Option<Vec<u8>>, usize), ParseError>, st: BulkStep) -> bool {
    match st {
        BulkStep::BNull(p) => match r {
            Result::Ok(pr) => pr.0 is None && pr.1 as int == p,
            Result::Err(_) => false,
        },
        BulkStep::BData(d, p) => match r {
            Result::Ok(pr) => match pr.0 {
                Option::Some(v) => v@ == d && pr.1 as int == p,
                Option::None => false,
            },
            Result::Err(_) => false,
        },
        BulkStep::BFail(k) => match r {
            Result::Ok(_) => false,
            Result::Err(e) => e == k,
        },
    }
}

pub open spec fn parse_matches(r: Result<(Resp, usize), ParseError>, st: ParseStep) -> bool {
    match st {
        ParseStep::Done(v, p) => match r {
            Result::Ok(pr) => pr.0@ == v && pr.1 as int == p,
            Result::Err(_) => false,
        },
        ParseStep::Fail(k) => match r {
            Result::Ok(_) => false,
            Result::Err(e) => e == k,
        },
    }
}

pub open spec fn line_prepend(prefix: Seq<u8>, st: LineStep) -> LineStep {
    match st {
        LineStep::LDone(c, p) => LineStep::LDone(prefix + c, p),
        f => f,
    }
}

proof fn lemma_line_unfold(s: Seq<u8>, pos: int)
    requires
        0 <= pos < s.len(),
        s[pos] != 13,
    ensures
        spec_line(s, pos) == line_prepend(seq![s[pos]], spec_line(s, pos + 1)),
{
    match spec_line(s, pos + 1) {
        LineStep::LDone(c, p) => {},
        LineStep::LFail(_) => {},
    }
}

pub fn read_line(data: &[u8], pos: usize) -> (r: Result<(Vec<u8>, usize), ParseError>)
    requires
        pos <= data@.len(),
    ensures
        line_matches(r, spec_line(data@, pos as int)),
{
    let n = data.len();
    let mut i = pos;
    let mut content: Vec<u8> = Vec::new();
    assert(content@ + Seq::<u8>::empty() =~= content@);
    loop
        invariant
            pos <= i <= n,
            n == data@.len(),
            spec_line(data@, pos as int) == line_prepend(content@, spec_line(data@, i as int)),
        decreases n - i,
    {
        if i >= n {
            return Err(ParseError::UnexpectedEndOfInput);
        }
        let b = data[i];
        if b == 13 {
            if i + 1 >= n {
                return Err(ParseError::UnexpectedEndOfInput);
            }
            if data[i + 1] == 10 {
                proof {
                    assert(content@ + Seq::<u8>::empty() =~= content@);
                }
                return Ok((content, i + 2));
            }
            return Err(ParseError::InvalidByte);
        }
        proof {
            lemma_line_unfold(data@, i as int);
        }
        let ghost pre = content@;
        content.push(b);
        proof {
            assert(content@ =~= pre + seq![data@[i as int]]);
            match spec_line(data@, i + 1) {
                LineStep::LDone(c, p) => {
                    assert(pre + (seq![data@[i as int]] + c) =~= content@ + c);
                },
                LineStep::LFail(_) => {},
            }
        }
        i += 1;
    }
}

fn parse_count(data: &[u8], pos: usize) -> (r: Result<(i64, usize), ParseError>)
    requires
        pos <= data@.len(),
    ensures
        count_matches(r, spec_count(data@, pos as int)),
        r is Ok ==> pos + 2 <= spec_count_pos(data@, pos as int) <= data@.len(),
{
    proof {
        lemma_line_props(data@, pos as int);
    }
    let line = read_line(data, pos);
    match line {
        Ok((content, p)) => {
            if !check_utf8(content.as_slice()) {
                return Err(ParseError::InvalidUtf8);
            }
            match parse_i64_text(content.as_slice()) {
                Some(v) => Ok((v, p)),
                None => Err(ParseError::InvalidInteger),
            }
        },
        Err(k) => Err(k),
    }
}

/// The position after a successfully parsed count header.
pub open spec fn spec_count_pos(s: Seq<u8>, pos: int) -> int {
    match spec_count(s, pos) {
        CountStep::Count(_, p) => p,
        CountStep::CFail(_) => pos,
    }
}

pub fn copy_range(data: &[u8], a: usize, b: usize) -> (r: Vec<u8>)
    requires
        a <= b <= data@.len(),
    ensures
        r@ == data@.subrange(a as int, b as int),
{
    let mut out: Vec<u8> = Vec::new();
    let mut i = a;
    while i < b
        invariant
            a <= i <= b <= data@.len(),
            out@ =~= data@.subrange(a as int, i as int),
        decreases b - i,
    {
        out.push(data[i]);
        i += 1;
        assert(out@ =~= data@.subrange(a as int, i as int));
    }
    out
}

fn parse_bulk(data: &[u8], pos: usize) -> (r: Result<(Option<Vec<u8>>, usize), ParseError>)
    requires
        pos <= data@.len(),
    ensures
        bulk_matches(r, spec_bulk(data@, pos as int)),
{
    let n = data.len();
    let hdr = parse_count(data, pos);
    match hdr {
        Ok((len, p)) => {
            if len == -1 {
                return Ok((None, p));
            }
            if len < -1 {
                return Err(ParseError::InvalidLength);
            }
            let lenu64 = len as u64;
            let rem = (n - p) as u64;
            if rem < lenu64 + 2 {
                return Err(ParseError::UnexpectedEndOfInput);
            }
            let lenu = lenu64 as usize;
            if data[p + lenu] != 13 {
                return Err(ParseError::InvalidByte);
            }
            if data[p + lenu + 1] != 10 {
                return Err(ParseError::InvalidByte);
            }
            let payload = copy_range(data, p, p + lenu);
            Ok((Some(payload), p + lenu + 2))
        },
        Err(k) => Err(k),
    }
}

fn bytes_is(v: &Vec<u8>, lit: &Vec<u8>) -> (r: bool)
    ensures
        r == (v@ == lit@),
{
    let n = v.len();
    if n != lit.len() {
        proof {
            assert(v@.len() != lit@.len());
        }
        return false;
    }
    let mut i: usize = 0;
    while i < n
        invariant
            0 <= i <= n,
            n == v@.len() == lit@.len(),
            forall|k: int| 0 <= k < i ==> v@[k] == lit@[k],
        decreases n - i,
    {
        if v[i] != lit[i] {
            proof {
                assert(v@[i as int] != lit@[i as int]);
            }
            return false;
        }
        i += 1;
    }
    proof {
        assert(v@ =~= lit@);
    }
    true
}

pub open spec fn elems_matches(r: Result<(Vec<Resp>, usize), ParseError>, st: ElemsStep) -> bool {
    match st {
        ElemsStep::EDone(list, p) => match r {
            Result::Ok(pr) => deep_views(pr.0@) == list && pr.1 as int == p,
            Result::Err(_) => false,
        },
        ElemsStep::EFail(k) => match r {
            Result::Ok(_) => false,
            Result::Err(e) => e == k,
        },
    }
}

pub open spec fn pairs_matches(
    r: Result<(Vec<(Resp, Resp)>, usize), ParseError>,
    st: PairsStep,
) -> bool {
    match st {
        PairsStep::PDone(list, p) => match r {
            Result::Ok(pr) => deep_views_pairs(pr.0@) == list && pr.1 as int == p,
            Result::Err(_) => false,
        },
        PairsStep::PFail(k) => match r {
            Result::Ok(_) => false,
            Result::Err(e) => e == k,
        },
    }
}

pub open spec fn elems_prepend(prefix: Seq<RespVal>, st: ElemsStep) -> ElemsStep {
    match st {
        ElemsStep::EDone(r, p) => ElemsStep::EDone(prefix + r, p),
        f => f,
    }
}

pub open spec fn pairs_prepend(prefix: Seq<(RespVal, RespVal)>, st: PairsStep) -> PairsStep {
    match st {
        PairsStep::PDone(r, p) => PairsStep::PDone(prefix + r, p),
        f => f,
    }
}

proof fn lemma_elems_prepend_compose(a: Seq<RespVal>, b: Seq<RespVal>, st: ElemsStep)
    ensures
        elems_prepend(a, elems_prepend(b, st)) == elems_prepend(a + b, st),
{
    match st {
        ElemsStep::EDone(r, p) => {
            assert(a + (b + r) =~= (a + b) + r);
        },
        ElemsStep::EFail(_) => {},
    }
}

proof fn lemma_pairs_prepend_compose(
    a: Seq<(RespVal, RespVal)>,
    b: Seq<(RespVal, RespVal)>,
    st: PairsStep,
)
    ensures
        pairs_prepend(a, pairs_prepend(b, st)) == pairs_prepend(a + b, st),
{
    match st {
        PairsStep::PDone(r, p) => {
            assert(a + (b + r) =~= (a + b) + r);
        },
        PairsStep::PFail(_) => {},
    }
}

proof fn lemma_deep_views_push(q: Seq<Resp>, x: Resp)
    ensures
        deep_views(q.push(x)) == deep_views(q).push(x@),
{
    assert(deep_views(q.push(x)) =~= deep_views(q).push(x@));
}

proof fn lemma_deep_views_pairs_push(q: Seq<(Resp, Resp)>, x: (Resp, Resp))
    ensures
        deep_views_pairs(q.push(x)) == deep_views_pairs(q).push((x.0@, x.1@)),
{
    assert(deep_views_pairs(q.push(x)) =~= deep_views_pairs(q).push((x.0@, x.1@)));
}

/// Parse one framed value at `pos`, returning it with the position after it.
pub fn parse_value(data: &[u8], pos: usize) -> (r: Result<(Resp, usize), ParseError>)
    requires
        pos <= data@.len(),
    ensures
        parse_matches(r, spec_parse(data@, pos as int)),
        r is Ok ==> pos < spec_parse_pos(data@, pos as int) <= data@.len(),
    decreases data@.len() - pos, 0int, 0int,
{
    proof {
        lemma_parse_bounds(data@, pos as int);
    }
    let n = data.len();
    if pos >= n {
        return Err(ParseError::UnexpectedEndOfInput);
    }
    let b = data[pos];
    let p1 = pos + 1;
    if b == 43 || b == 45 {
        match read_line(data, p1) {
            Ok((content, p)) => {
                if !check_utf8(content.as_slice()) {
                    return Err(ParseError::InvalidUtf8);
                }
                if b == 43 {
                    Ok((Resp::SimpleString(content), p))
                } else {
                    Ok((Resp::SimpleError(content), p))
                }
            },
            Err(k) => Err(k),
        }
    } else if b == 58 {
        match read_line(data, p1) {
            Ok((content, p)) => {
                if !check_utf8(content.as_slice()) {
                    return Err(ParseError::InvalidUtf8);
                }
                match parse_i64_text(content.as_slice()) {
                    Some(v) => Ok((Resp::Integer(v), p)),
                    None => Err(ParseError::InvalidInteger),
                }
            },
            Err(k) => Err(k),
        }
    } else if b == 36 {
        match parse_bulk(data, p1) {
            Ok((Some(d), p)) => Ok((Resp::BulkString(d), p)),
            Ok((None, p)) => Ok((Resp::BulkStringNull, p)),
            Err(k) => Err(k),
        }
    } else if b == 33 {
        match parse_bulk(data, p1) {
            Ok((Some(d), p)) => Ok((Resp::BulkError(d), p)),
            Ok((None, _)) => Err(ParseError::InvalidLength),
            Err(k) => Err(k),
        }
    } else if b == 61 {
        match parse_bulk(data, p1) {
            Ok((Some(d), p)) => Ok((Resp::VerbatimString(d), p)),
            Ok((None, _)) => Err(ParseError::InvalidLength),
            Err(k) => Err(k),
        }
    } else if b == 42 {
        match parse_count(data, p1) {
            Ok((c, p)) => {
                if c == -1 {
                    return Ok((Resp::ArrayNull, p));
                }
                if c < -1 {
                    return Err(ParseError::InvalidLength);
                }
                match parse_items(data, p, c as u64) {
                    Ok((items, p2)) => Ok((Resp::Array(items), p2)),
                    Err(k) => Err(k),
                }
            },
            Err(k) => Err(k),
        }
    } else if b == 126 {
        match parse_count(data, p1) {
            Ok((c, p)) => {
                if c < 0 {
                    return Err(ParseError::InvalidLength);
                }
                match parse_items(data, p, c as u64) {
                    Ok((items, p2)) => Ok((Resp::SetOf(items), p2)),
                    Err(k) => Err(k),
                }
            },
            Err(k) => Err(k),
        }
    } else if b == 62 {
        match parse_count(data, p1) {
            Ok((c, p)) => {
                if c < 0 {
                    return Err(ParseError::InvalidLength);
                }
                match parse_items(data, p, c as u64) {
                    Ok((items, p2)) => Ok((Resp::Push(items), p2)),
                    Err(k) => Err(k),
                }
            },
            Err(k) => Err(k),
        }
    } else if b == 37 {
        match parse_count(data, p1) {
            Ok((c, p)) => {
                if c < 0 {
                    return Err(ParseError::InvalidLength);
                }
                match parse_pair_items(data, p, c as u64) {
                    Ok((pairs, p2)) => Ok((Resp::Dict(pairs), p2)),
                    Err(k) => Err(k),
                }
            },
            Err(k) => Err(k),
        }
    } else if b == 95 {
        match read_line(data, p1) {
            Ok((_, p)) => Ok((Resp::Null, p)),
            Err(k) => Err(k),
        }
    } else if b == 35 {
        if p1 >= n {
            return Err(ParseError::UnexpectedEndOfInput);
        }
        let v = data[p1];
        if v != 116 && v != 102 {
            return Err(ParseError::InvalidByte);
        }
        if p1 + 1 >= n {
            return Err(ParseError::UnexpectedEndOfInput);
        }
        if data[p1 + 1] != 13 {
            return Err(ParseError::InvalidByte);
        }
        if p1 + 2 >= n {
            return Err(ParseError::UnexpectedEndOfInput);
        }
        if data[p1 + 2] != 10 {
            return Err(ParseError::InvalidByte);
        }
        Ok((Resp::Boolean(v == 116), p1 + 3))
    } else if b == 44 {
        match read_line(data, p1) {
            Ok((content, p)) => {
                if !check_utf8(content.as_slice()) {
                    return Err(ParseError::InvalidUtf8);
                }
                let inf: Vec<u8> = vec![105u8, 110, 102];
                let neg_inf: Vec<u8> = vec![45u8, 105, 110, 102];
                let nan: Vec<u8> = vec![110u8, 97, 110];
                proof {
                    assert(inf@ =~= seq![105u8, 110, 102]);
                    assert(neg_inf@ =~= seq![45u8, 105, 110, 102]);
                    assert(nan@ =~= seq![110u8, 97, 110]);
                }
                if bytes_is(&content, &inf) {
                    return Ok((Resp::Double(DoubleRepr::Inf), p));
                }
                if bytes_is(&content, &neg_inf) {
                    return Ok((Resp::Double(DoubleRepr::NegInf), p));
                }
                if bytes_is(&content, &nan) {
                    return Ok((Resp::Double(DoubleRepr::Nan), p));
                }
                if check_symbolic_float(content.as_slice()) {
                    return Err(ParseError::InvalidConversion);
                }
                if check_float_text(content.as_slice()) {
                    if is_finite_double_text(content.as_slice()) {
                        Ok((Resp::Double(DoubleRepr::Num(content)), p))
                    } else {
                        Err(ParseError::InvalidConversion)
                    }
                } else {
                    Err(ParseError::InvalidFloat)
                }
            },
            Err(k) => Err(k),
        }
    } else if b == 40 {
        match read_line(data, p1) {
            Ok((content, p)) => Ok((Resp::BigNumber(content), p)),
            Err(k) => Err(k),
        }
    } else {
        Err(ParseError::InvalidByte)
    }
}

/// The position after a successfully parsed value.
pub open spec fn spec_parse_pos(s: Seq<u8>, pos: int) -> int {
    match spec_parse(s, pos) {
        ParseStep::Done(_, p) => p,
        ParseStep::Fail(_) => pos,
    }
}

fn parse_items(data: &[u8], pos: usize, n: u64) -> (r: Result<(Vec<Resp>, usize), ParseError>)
    requires
        pos <= data@.len(),
    ensures
        elems_matches(r, spec_elems(data@, pos as int, n as int)),
        r is Ok ==> pos <= spec_elems_pos(data@, pos as int, n as int) <= data@.len(),
    decreases data@.len() - pos, 1int, n,
{
    proof {
        lemma_elems_bounds(data@, pos as int, n as int);
    }
    let ghost s = data@;
    let mut out: Vec<Resp> = Vec::new();
    let mut cur = pos;
    let mut i: u64 = 0;
    while i < n
        invariant
            0 <= i <= n,
            pos <= cur <= data@.len(),
            s == data@,
            spec_elems(s, pos as int, n as int) == elems_prepend(
                deep_views(out@),
                spec_elems(s, cur as int, (n - i) as int),
            ),
        decreases n - i,
    {
        proof {
            lemma_parse_bounds(s, cur as int);
        }
        match parse_value(data, cur) {
            Ok((v, p)) => {
                proof {
                    let st_rest = spec_elems(s, p as int, (n - i - 1) as int);
                    lemma_elems_prepend_compose(deep_views(out@), seq![v@], st_rest);
                    lemma_deep_views_push(out@, v);
                    assert(deep_views(out@).push(v@) =~= deep_views(out@) + seq![v@]);
                }
                out.push(v);
                cur = p;
                i += 1;
            },
            Err(k) => {
                return Err(k);
            },
        }
    }
    proof {
        assert(spec_elems(s, cur as int, 0) == ElemsStep::EDone(Seq::<RespVal>::empty(), cur as int));
        assert(deep_views(out@) + Seq::<RespVal>::empty() =~= deep_views(out@));
    }
    Ok((out, cur))
}

/// The position after `n` successfully parsed values.
pub open spec fn spec_elems_pos(s: Seq<u8>, pos: int, n: int) -> int {
    match spec_elems(s, pos, n) {
        ElemsStep::EDone(_, p) => p,
        ElemsStep::EFail(_) => pos,
    }
}

fn parse_pair_items(data: &[u8], pos: usize, n: u64) -> (r: Result<
    (Vec<(Resp, Resp)>, usize),
    ParseError,
>)
    requires
        pos <= data@.len(),
    ensures
        pairs_matches(r, spec_pairs(data@, pos as int, n as int)),
    decreases data@.len() - pos, 1int, n,
{
    proof {
        lemma_pairs_bounds(data@, pos as int, n as int);
    }
    let ghost s = data@;
    let mut out: Vec<(Resp, Resp)> = Vec::new();
    let mut cur = pos;
    let mut i: u64 = 0;
    while i < n
        invariant
            0 <= i <= n,
            pos <= cur <= data@.len(),
            s == data@,
            spec_pairs(s, pos as int, n as int) == pairs_prepend(
                deep_views_pairs(out@),
                spec_pairs(s, cur as int, (n - i) as int),
            ),
        decreases n - i,
    {
        proof {
            lemma_parse_bounds(s, cur as int);
        }
        match parse_value(data, cur) {
            Ok((k, p1)) => {
                proof {
                    lemma_parse_bounds(s, p1 as int);
                }
                match parse_value(data, p1) {
                    Ok((v, p2)) => {
                        proof {
                            let st_rest = spec_pairs(s, p2 as int, (n - i - 1) as int);
                            lemma_pairs_prepend_compose(
                                deep_views_pairs(out@),
                                seq![(k@, v@)],
                                st_rest,
                            );
                            lemma_deep_views_pairs_push(out@, (k, v));
                            assert(deep_views_pairs(out@).push((k@, v@)) =~= deep_views_pairs(out@)
                                + seq![(k@, v@)]);
                        }
                        out.push((k, v));
                        cur = p2;
                        i += 1;
                    },
                    Err(kk) => {
                        return Err(kk);
                    },
                }
            },
            Err(kk) => {
                return Err(kk);
            },
        }
    }
    proof {
        assert(spec_pairs(s, cur as int, 0) == PairsStep::PDone(
            Seq::<(RespVal, RespVal)>::empty(),
            cur as int,
        ));
        assert(deep_views_pairs(out@) + Seq::<(RespVal, RespVal)>::empty() =~= deep_views_pairs(
            out@,
        ));
    }
    Ok((out, cur))
}

} // verus!

use crate::bytebuf::{buf_bytes, buf_extend, buf_new, buf_slice};
use bytes::BytesMut;

verus! {

// ---------------------------------------------------------------------------
// The public codec interface
// ---------------------------------------------------------------------------

/// A cursor over a byte slice that parses one framed value at a time.
pub struct RespParser<'a> {
    data: &'a [u8],
    pos: usize,
}

impl<'a> RespParser<'a> {
    pub closed spec fn bytes(&self) -> Seq<u8> {
        self.data@
    }

    pub closed spec fn position(&self) -> int {
        self.pos as int
    }

    pub closed spec fn valid(&self) -> bool {
        self.pos <= self.data@.len()
    }

    pub fn new(data: &'a [u8]) -> (r: RespParser<'a>)
        ensures
            r.bytes() == data@,
            r.position() == 0,
            r.valid(),
    {
        RespParser { data, pos: 0 }
    }

    pub fn is_eof(&self) -> (r: bool)
        ensures
            r == (self.position() >= self.bytes().len()),
    {
        self.pos >= self.data.len()
    }

    /// Where the cursor stands.
    pub fn cursor(&self) -> (r: usize)
        ensures
            r as int == self.position(),
    {
        self.pos
    }

    /// Parse one value and advance past it; on an error the cursor stays.
    pub fn parse(&mut self) -> (r: Result<Resp, ParseError>)
        requires
            old(self).valid(),
        ensures
            final(self).valid(),
            final(self).bytes() == old(self).bytes(),
            match spec_parse(old(self).bytes(), old(self).position()) {
                ParseStep::Done(v, p) => r matches Result::Ok(rv) && rv@ == v
                    && final(self).position() == p,
                ParseStep::Fail(k) => r == Result::<Resp, ParseError>::Err(k)
                    && final(self).position() == old(self).position(),
            },
    {
        proof {
            lemma_parse_bounds(self.data@, self.pos as int);
        }
        match parse_value(self.data, self.pos) {
            Ok((v, p)) => {
                self.pos = p;
                Ok(v)
            },
            Err(k) => Err(k),
        }
    }

    /// Like `parse`, but the cursor is left where it was: a look-ahead that
    /// answers whether a whole frame is present.
    pub fn check(&mut self) -> (r: Result<Resp, ParseError>)
        requires
            old(self).valid(),
        ensures
            *final(self) == *old(self),
            match spec_parse(old(self).bytes(), old(self).position()) {
                ParseStep::Done(v, p) => r matches Result::Ok(rv) && rv@ == v,
                ParseStep::Fail(k) => r == Result::<Resp, ParseError>::Err(k),
            },
    {
        match parse_value(self.data, self.pos) {
            Ok((v, _)) => Ok(v),
            Err(k) => Err(k),
        }
    }
}

/// The encoder: writes values in their exact wire form.
pub struct RespEncoder;

impl RespEncoder {
    /// Encode one value into a fresh buffer.
    pub fn encode(data: &Resp) -> (r: BytesMut)
        ensures
            buf_bytes(r) == spec_encode(data@),
    {
        let mut buffer = buf_new();
        Self::encode_resp(data, &mut buffer);
        buffer
    }

    pub fn encode_resp(data: &Resp, buffer: &mut BytesMut)
        ensures
            buf_bytes(*final(buffer)) == buf_bytes(*old(buffer)) + spec_encode(data@),
    {
        let mut out: Vec<u8> = Vec::new();
        encode_value(data, &mut out);
        buf_extend(buffer, out.as_slice());
    }

    pub fn encode_simple_string(s: &[u8], buffer: &mut BytesMut)
        ensures
            buf_bytes(*final(buffer)) == buf_bytes(*old(buffer)) + enc_line(43, s@),
    {
        let mut out: Vec<u8> = Vec::new();
        push_line(&mut out, 43, s);
        buf_extend(buffer, out.as_slice());
    }

    pub fn encode_simple_error(s: &[u8], buffer: &mut BytesMut)
        ensures
            buf_bytes(*final(buffer)) == buf_bytes(*old(buffer)) + enc_line(45, s@),
    {
        let mut out: Vec<u8> = Vec::new();
        push_line(&mut out, 45, s);
        buf_extend(buffer, out.as_slice());
    }

    pub fn encode_integer(i: i64, buffer: &mut BytesMut)
        ensures
            buf_bytes(*final(buffer)) == buf_bytes(*old(buffer)) + enc_line(
                58,
                spec_idec(i as int),
            ),
    {
        let mut out: Vec<u8> = Vec::new();
        let text = i64_dec(i);
        push_line(&mut out, 58, text.as_slice());
        buf_extend(buffer, out.as_slice());
    }

    pub fn encode_bulk_string(bytes: &[u8], buffer: &mut BytesMut)
        ensures
            buf_bytes(*final(buffer)) == buf_bytes(*old(buffer)) + enc_bulk(36, bytes@),
    {
        let mut out: Vec<u8> = Vec::new();
        push_bulk(&mut out, 36, bytes);
        buf_extend(buffer, out.as_slice());
    }

    pub fn encode_bulk_string_null(buffer: &mut BytesMut)
        ensures
            buf_bytes(*final(buffer)) == buf_bytes(*old(buffer)) + spec_encode(
                RespVal::BulkStringNull,
            ),
    {
        let mut out: Vec<u8> = Vec::new();
        encode_value(&Resp::BulkStringNull, &mut out);
        buf_extend(buffer, out.as_slice());
    }

    pub fn encode_array(arr: &Vec<Resp>, buffer: &mut BytesMut)
        ensures
            buf_bytes(*final(buffer)) == buf_bytes(*old(buffer)) + enc_header(
                42,
                arr@.len() as int,
            ) + spec_encode_list(deep_views(arr@)),
    {
        let mut out: Vec<u8> = Vec::new();
        encode_items(&mut out, 42, arr);
        buf_extend(buffer, out.as_slice());
    }

    pub fn encode_array_null(buffer: &mut BytesMut)
        ensures
            buf_bytes(*final(buffer)) == buf_bytes(*old(buffer)) + spec_encode(RespVal::ArrayNull),
    {
        let mut out: Vec<u8> = Vec::new();
        encode_value(&Resp::ArrayNull, &mut out);
        buf_extend(buffer, out.as_slice());
    }

    pub fn encode_null(buffer: &mut BytesMut)
        ensures
            buf_bytes(*final(buffer)) == buf_bytes(*old(buffer)) + spec_encode(RespVal::Null),
    {
        let mut out: Vec<u8> = Vec::new();
        encode_value(&Resp::Null, &mut out);
        buf_extend(buffer, out.as_slice());
    }

    pub fn encode_boolean(b: bool, buffer: &mut BytesMut)
        ensures
            buf_bytes(*final(buffer)) == buf_bytes(*old(buffer)) + spec_encode(
                RespVal::Boolean(b),
            ),
    {
        let mut out: Vec<u8> = Vec::new();
        encode_value(&Resp::Boolean(b), &mut out);
        buf_extend(buffer, out.as_slice());
    }

    pub fn encode_double(d: &DoubleRepr, buffer: &mut BytesMut)
        ensures
            buf_bytes(*final(buffer)) == buf_bytes(*old(buffer)) + enc_line(44, double_text(d@)),
    {
        let mut out: Vec<u8> = Vec::new();
        out.push(44);
        match d {
            DoubleRepr::Inf => {
                out.push(105);
                out.push(110);
                out.push(102);
            },
            DoubleRepr::NegInf => {
                out.push(45);
                out.push(105);
                out.push(110);
                out.push(102);
            },
            DoubleRepr::Nan => {
                out.push(110);
                out.push(97);
                out.push(110);
            },
            DoubleRepr::Num(t) => {
                push_all(&mut out, t.as_slice());
            },
        }
        push_crlf(&mut out);
        assert(out@ =~= enc_line(44, double_text(d@)));
        buf_extend(buffer, out.as_slice());
    }

    pub fn encode_big_number(n: &[u8], buffer: &mut BytesMut)
        ensures
            buf_bytes(*final(buffer)) == buf_bytes(*old(buffer)) + enc_line(40, n@),
    {
        let mut out: Vec<u8> = Vec::new();
        push_line(&mut out, 40, n);
        buf_extend(buffer, out.as_slice());
    }

    pub fn encode_bulk_error(e: &[u8], buffer: &mut BytesMut)
        ensures
            buf_bytes(*final(buffer)) == buf_bytes(*old(buffer)) + enc_bulk(33, e@),
    {
        let mut out: Vec<u8> = Vec::new();
        push_bulk(&mut out, 33, e);
        buf_extend(buffer, out.as_slice());
    }

    pub fn encode_verbatim_string(s: &[u8], buffer: &mut BytesMut)
        ensures
            buf_bytes(*final(buffer)) == buf_bytes(*old(buffer)) + enc_bulk(61, s@),
    {
        let mut out: Vec<u8> = Vec::new();
        push_bulk(&mut out, 61, s);
        buf_extend(buffer, out.as_slice());
    }

    pub fn encode_map(m: &Vec<(Resp, Resp)>, buffer: &mut BytesMut)
        ensures
            buf_bytes(*final(buffer)) == buf_bytes(*old(buffer)) + enc_header(37, m@.len() as int)
                + spec_encode_pairs(deep_views_pairs(m@)),
    {
        let mut out: Vec<u8> = Vec::new();
        encode_dict(&mut out, m);
        buf_extend(buffer, out.as_slice());
    }

    pub fn encode_set(s: &Vec<Resp>, buffer: &mut BytesMut)
        ensures
            buf_bytes(*final(buffer)) == buf_bytes(*old(buffer)) + enc_header(126, s@.len() as int)
                + spec_encode_list(deep_views(s@)),
    {
        let mut out: Vec<u8> = Vec::new();
        encode_items(&mut out, 126, s);
        buf_extend(buffer, out.as_slice());
    }

    pub fn encode_push(p: &Vec<Resp>, buffer: &mut BytesMut)
        ensures
            buf_bytes(*final(buffer)) == buf_bytes(*old(buffer)) + enc_header(62, p@.len() as int)
                + spec_encode_list(deep_views(p@)),
    {
        let mut out: Vec<u8> = Vec::new();
        encode_items(&mut out, 62, p);
        buf_extend(buffer, out.as_slice());
    }
}

} // verus!

verus! {

/// Whether a value's content is empty: the scalar variants never are.
pub open spec fn spec_is_empty(v: RespVal) -> bool {
    match v {
        RespVal::SimpleString(s) => s.len() == 0,
        RespVal::SimpleError(s) => s.len() == 0,
        RespVal::BulkString(s) => s.len() == 0,
        RespVal::BulkError(s) => s.len() == 0,
        RespVal::VerbatimString(s) => s.len() == 0,
        RespVal::Array(items) => items.len() == 0,
        RespVal::Dict(pairs) => pairs.len() == 0,
        RespVal::SetOf(items) => items.len() == 0,
        RespVal::Push(items) => items.len() == 0,
        _ => false,
    }
}

impl Resp {
    /// The raw bytes of the text-like and bulk-like variants.
    pub fn as_bytes(&self) -> (r: Option<&Vec<u8>>)
        ensures
            match self@ {
                RespVal::SimpleString(s) => r matches Option::Some(v) && v@ == s,
                RespVal::SimpleError(s) => r matches Option::Some(v) && v@ == s,
                RespVal::BulkString(s) => r matches Option::Some(v) && v@ == s,
                RespVal::BulkError(s) => r matches Option::Some(v) && v@ == s,
                RespVal::VerbatimString(s) => r matches Option::Some(v) && v@ == s,
                _ => r is None,
            },
    {
        match self {
            Resp::SimpleString(s) => Some(s),
            Resp::SimpleError(s) => Some(s),
            Resp::BulkString(s) => Some(s),
            Resp::BulkError(s) => Some(s),
            Resp::VerbatimString(s) => Some(s),
            _ => None,
        }
    }

    pub fn as_i64(&self) -> (r: Option<i64>)
        ensures
            match self@ {
                RespVal::Integer(i) => r matches Option::Some(v) && v as int == i,
                _ => r is None,
            },
    {
        match self {
            Resp::Integer(i) => Some(*i),
            _ => None,
        }
    }

    pub fn as_bool(&self) -> (r: Option<bool>)
        ensures
            match self@ {
                RespVal::Boolean(b) => r == Option::Some(b),
                _ => r is None,
            },
    {
        match self {
            Resp::Boolean(b) => Some(*b),
            _ => None,
        }
    }

    /// The elements of an array, borrowed.
    pub fn as_slice(&self) -> (r: Option<&Vec<Resp>>)
        ensures
            match self@ {
                RespVal::Array(items) => r matches Option::Some(v) && deep_views(v@) == items,
                _ => r is None,
            },
    {
        match self {
            Resp::Array(items) => Some(items),
            _ => None,
        }
    }

    /// The elements of an array, owned.
    pub fn as_vec(self) -> (r: Option<Vec<Resp>>)
        ensures
            match self@ {
                RespVal::Array(items) => r matches Option::Some(v) && deep_views(v@) == items,
                _ => r is None,
            },
    {
        match self {
            Resp::Array(items) => Some(items),
            _ => None,
        }
    }

    pub fn is_bulk_string(&self) -> (r: bool)
        ensures
            r == self@ is BulkString,
    {
        matches!(self, Resp::BulkString(_))
    }

    pub fn is_array(&self) -> (r: bool)
        ensures
            r == self@ is Array,
    {
        matches!(self, Resp::Array(_))
    }

    pub fn is_null(&self) -> (r: bool)
        ensures
            r == self@ is Null,
    {
        matches!(self, Resp::Null)
    }

    pub fn is_integer(&self) -> (r: bool)
        ensures
            r == self@ is Integer,
    {
        matches!(self, Resp::Integer(_))
    }

    pub fn is_simple_string(&self) -> (r: bool)
        ensures
            r == self@ is SimpleString,
    {
        matches!(self, Resp::SimpleString(_))
    }

    pub fn is_simple_error(&self) -> (r: bool)
        ensures
            r == self@ is SimpleError,
    {
        matches!(self, Resp::SimpleError(_))
    }

    pub fn is_boolean(&self) -> (r: bool)
        ensures
            r == self@ is Boolean,
    {
        matches!(self, Resp::Boolean(_))
    }

    pub fn is_double(&self) -> (r: bool)
        ensures
            r == self@ is Double,
    {
        matches!(self, Resp::Double(_))
    }

    pub fn is_big_number(&self) -> (r: bool)
        ensures
            r == self@ is BigNumber,
    {
        matches!(self, Resp::BigNumber(_))
    }

    pub fn is_bulk_error(&self) -> (r: bool)
        ensures
            r == self@ is BulkError,
    {
        matches!(self, Resp::BulkError(_))
    }

    pub fn is_verbatim_string(&self) -> (r: bool)
        ensures
            r == self@ is VerbatimString,
    {
        matches!(self, Resp::VerbatimString(_))
    }

    pub fn is_map(&self) -> (r: bool)
        ensures
            r == self@ is Dict,
    {
        matches!(self, Resp::Dict(_))
    }

    pub fn is_set(&self) -> (r: bool)
        ensures
            r == self@ is SetOf,
    {
        matches!(self, Resp::SetOf(_))
    }

    pub fn is_push(&self) -> (r: bool)
        ensures
            r == self@ is Push,
    {
        matches!(self, Resp::Push(_))
    }

    pub fn is_bulk_string_null(&self) -> (r: bool)
        ensures
            r == self@ is BulkStringNull,
    {
        matches!(self, Resp::BulkStringNull)
    }

    pub fn is_array_null(&self) -> (r: bool)
        ensures
            r == self@ is ArrayNull,
    {
        matches!(self, Resp::ArrayNull)
    }

    /// Whether a text, bulk or aggregate value has no content; the scalar
    /// variants are never empty.
    pub fn is_empty(&self) -> (r: bool)
        ensures
            r == spec_is_empty(self@),
    {
        let r = match self {
            Resp::SimpleString(s) => s.len() == 0,
            Resp::SimpleError(s) => s.len() == 0,
            Resp::BulkString(s) => s.len() == 0,
            Resp::BulkError(s) => s.len() == 0,
            Resp::VerbatimString(s) => s.len() == 0,
            Resp::Array(items) => items.len() == 0,
            Resp::Dict(pairs) => pairs.len() == 0,
            Resp::SetOf(items) => items.len() == 0,
            Resp::Push(items) => items.len() == 0,
            _ => false,
        };
        proof {
            // the pair count carries through the deep view
            match self {
                Resp::Dict(pairs) => {
                    assert(deep_views_pairs(pairs@).len() == pairs@.len());
                },
                _ => {},
            }
        }
        r
    }
}

} // verus!
