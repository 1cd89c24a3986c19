//! The codec round-trip law: parsing the encoding of any well-formed value,
//! wherever it lies in a larger buffer, yields exactly that value and
//! consumes exactly its encoding.
use vstd::prelude::*;

use crate::resp::{
    crlf, double_text, enc_bulk, enc_header, no_cr, spec_encode, spec_encode_list,
    spec_encode_pair, spec_encode_pairs, spec_line, spec_count, spec_bulk, spec_parse, spec_elems,
    spec_pairs, wf, BulkStep, CountStep, DoubleVal, ElemsStep, LineStep, PairsStep, ParseStep,
    RespVal,
};
use crate::text::{
    is_utf8, lemma_ascii_utf8, lemma_float_text_ascii, lemma_float_text_not_symbolic, lemma_parse_idec,
    lemma_udec_digits, spec_idec, spec_parse_i64, spec_udec,
};

verus! {

/// Split a known region into its two parts.
proof fn lemma_region_split(s: Seq<u8>, pos: int, a: Seq<u8>, b: Seq<u8>)
    requires
        0 <= pos,
        pos + a.len() + b.len() <= s.len(),
        s.subrange(pos, pos + a.len() + b.len()) == a + b,
    ensures
        s.subrange(pos, pos + a.len()) == a,
        s.subrange(pos + a.len(), pos + a.len() + b.len()) == b,
{
    let whole = s.subrange(pos, pos + a.len() + b.len());
    assert forall|k: int| 0 <= k < a.len() implies s.subrange(pos, pos + a.len())[k] == a[k] by {
        assert(whole[k] == (a + b)[k]);
    }
    assert(s.subrange(pos, pos + a.len()) =~= a);
    assert forall|k: int|
        0 <= k < b.len() implies s.subrange(pos + a.len(), pos + a.len() + b.len())[k] == b[k] by {
        assert(whole[a.len() + k] == (a + b)[a.len() + k]);
    }
    assert(s.subrange(pos + a.len(), pos + a.len() + b.len()) =~= b);
}

/// A CR-free payload followed by CRLF reads back as one line.
proof fn lemma_line_of(s: Seq<u8>, pos: int, c: Seq<u8>)
    requires
        0 <= pos,
        pos + c.len() + 2 <= s.len(),
        no_cr(c),
        s.subrange(pos, pos + c.len()) == c,
        s[pos + c.len()] == 13,
        s[pos + c.len() + 1] == 10,
    ensures
        spec_line(s, pos) == LineStep::LDone(c, pos + c.len() + 2),
    decreases c.len(),
{
    if c.len() == 0 {
        assert(c =~= Seq::<u8>::empty());
    } else {
        assert(s[pos] == s.subrange(pos, pos + c.len())[0]);
        assert(s[pos] == c[0]);
        assert(c[0] != 13);
        assert(s.subrange(pos + 1, pos + c.len()) =~= c.skip(1)) by {
            assert forall|k: int|
                0 <= k < c.len() - 1 implies s.subrange(pos + 1, pos + c.len())[k] == c.skip(1)[k]
                by {
                assert(s.subrange(pos, pos + c.len())[k + 1] == c[k + 1]);
            }
        }
        assert(crate::resp::no_cr(c.skip(1))) by {
            assert forall|k: int| 0 <= k < c.skip(1).len() implies c.skip(1)[k] != 13 by {
                assert(c.skip(1)[k] == c[k + 1]);
            }
        }
        lemma_line_of(s, pos + 1, c.skip(1));
        assert(seq![c[0]] + c.skip(1) =~= c);
        assert(spec_line(s, pos + 1) == LineStep::LDone(c.skip(1), pos + c.len() + 2));
        assert(spec_line(s, pos) == LineStep::LDone(seq![s[pos]] + c.skip(1), pos + c.len() + 2));
        assert(seq![s[pos]] + c.skip(1) == c);
    }
}

/// A decimal header line reads back as its number.
proof fn lemma_count_of(s: Seq<u8>, pos: int, n: int)
    requires
        0 <= pos,
        i64::MIN <= n <= i64::MAX,
        pos + spec_idec(n).len() + 2 <= s.len(),
        s.subrange(pos, pos + spec_idec(n).len()) == spec_idec(n),
        s[pos + spec_idec(n).len()] == 13,
        s[pos + spec_idec(n).len() + 1] == 10,
    ensures
        spec_count(s, pos) == CountStep::Count(n, pos + spec_idec(n).len() + 2),
{
    lemma_parse_idec(n);
    lemma_line_of(s, pos, spec_idec(n));
    lemma_ascii_utf8(spec_idec(n));
}

/// The encoding of any value starts with its tag byte.
proof fn lemma_encode_nonempty(v: RespVal)
    ensures
        spec_encode(v).len() >= 1,
{
    match v {
        RespVal::SimpleString(c) => {},
        RespVal::SimpleError(c) => {},
        RespVal::Integer(i) => {},
        RespVal::BulkString(d) => {},
        RespVal::BulkStringNull => {},
        RespVal::Array(items) => {},
        RespVal::ArrayNull => {},
        RespVal::Null => {},
        RespVal::Boolean(b) => {},
        RespVal::Double(d) => {},
        RespVal::BigNumber(c) => {},
        RespVal::BulkError(d) => {},
        RespVal::VerbatimString(d) => {},
        RespVal::Dict(pairs) => {},
        RespVal::SetOf(items) => {},
        RespVal::Push(items) => {},
    }
}

/// A length-prefixed payload region reads back as that payload.
proof fn lemma_bulk_of(s: Seq<u8>, pos: int, d: Seq<u8>)
    requires
        0 <= pos,
        d.len() <= i64::MAX,
        pos + spec_udec(d.len() as int).len() + 2 + d.len() + 2 <= s.len(),
        s.subrange(pos, pos + spec_udec(d.len() as int).len() + 2 + d.len() + 2) == spec_udec(
            d.len() as int,
        ) + crlf() + d + crlf(),
    ensures
        spec_bulk(s, pos) == BulkStep::BData(
            d,
            pos + spec_udec(d.len() as int).len() + 2 + d.len() + 2,
        ),
{
    let n = d.len() as int;
    let h = spec_udec(n);
    let region = h + crlf() + d + crlf();
    lemma_udec_digits(n);
    // header line
    assert(s.subrange(pos, pos + h.len()) =~= h) by {
        assert forall|k: int| 0 <= k < h.len() implies s.subrange(pos, pos + h.len())[k] == h[k]
            by {
            assert(s.subrange(pos, pos + region.len())[k] == region[k]);
        }
    }
    assert(s[pos + h.len()] == 13 && s[pos + h.len() + 1] == 10) by {
        assert(s.subrange(pos, pos + region.len())[h.len() as int] == region[h.len() as int]);
        assert(s.subrange(pos, pos + region.len())[h.len() as int + 1] == region[h.len() as int
            + 1]);
    }
    assert(no_cr(h)) by {
        assert forall|k: int| 0 <= k < h.len() implies h[k] != 13 by {
            assert(crate::text::is_digit(h[k]));
        }
    }
    lemma_line_of(s, pos, h);
    lemma_ascii_utf8(h);
    // the header is the canonical digits of the payload length
    assert(spec_idec(n) == h);
    lemma_parse_idec(n);
    let p = pos + h.len() + 2;
    assert(spec_count(s, pos) == CountStep::Count(n, p));
    // payload and trailing CRLF
    assert(s.subrange(p, p + n) =~= d) by {
        assert forall|k: int| 0 <= k < n implies s.subrange(p, p + n)[k] == d[k] by {
            assert(s.subrange(pos, pos + region.len())[h.len() + 2 + k] == region[h.len() + 2
                + k]);
            assert(region[h.len() + 2 + k] == d[k]);
        }
    }
    assert(s[p + n] == 13 && s[p + n + 1] == 10) by {
        assert(s.subrange(pos, pos + region.len())[h.len() + 2 + n] == region[h.len() + 2 + n]);
        assert(s.subrange(pos, pos + region.len())[h.len() + 2 + n + 1] == region[h.len() + 2 + n
            + 1]);
    }
}

/// Parsing the encoding of a well-formed value at its position in a buffer
/// yields the value back and stops exactly after it.
pub proof fn lemma_parse_encode_at(s: Seq<u8>, pos: int, v: RespVal)
    requires
        wf(v),
        0 <= pos,
        pos + spec_encode(v).len() <= s.len(),
        s.subrange(pos, pos + spec_encode(v).len()) == spec_encode(v),
    ensures
        spec_parse(s, pos) == ParseStep::Done(v, pos + spec_encode(v).len()),
    decreases v, 0nat,
{
    let enc = spec_encode(v);
    assert forall|k: int| 0 <= k < enc.len() implies #[trigger] s[pos + k] == enc[k] by {
        assert(s.subrange(pos, pos + enc.len())[k] == enc[k]);
    }
    assert(s[pos] == enc[0]) by {
        assert(s.subrange(pos, pos + enc.len())[0] == enc[0]);
    }
    lemma_encode_nonempty(v);
    match v {
        RespVal::SimpleString(c) => {
            assert(s[pos] == 43);
            line_payload_at(s, pos, c, enc);
            lemma_line_of(s, pos + 1, c);
        },
        RespVal::SimpleError(c) => {
            assert(s[pos] == 45);
            line_payload_at(s, pos, c, enc);
            lemma_line_of(s, pos + 1, c);
        },
        RespVal::Integer(i) => {
            assert(s[pos] == 58);
            lemma_parse_idec(i);
            let c = spec_idec(i);
            line_payload_at(s, pos, c, enc);
            lemma_line_of(s, pos + 1, c);
            lemma_ascii_utf8(c);
        },
        RespVal::BulkString(d) => {
            assert(s[pos] == 36);
            bulk_payload_at(s, pos, 36, d, enc);
        },
        RespVal::BulkStringNull => {
            assert(s[pos] == 36 && s[pos + 1] == 45 && s[pos + 2] == 49 && s[pos + 3] == 13 && s[
                pos + 4] == 10);
            let c = seq![45u8, 49];
            assert(s.subrange(pos + 1, pos + 3) =~= c);
            assert(no_cr(c));
            lemma_line_of(s, pos + 1, c);
            lemma_ascii_utf8(c);
            assert(spec_parse_i64(c) == Option::Some(-1i64)) by {
                assert(c.skip(1) =~= seq![49u8]);
                assert(crate::text::all_digits(c.skip(1))) by {
                    assert(c.skip(1)[0] == 49);
                }
                assert(crate::text::int_grammar(c));
                assert(seq![49u8].drop_last() =~= Seq::<u8>::empty());
                assert(crate::text::dec_val(Seq::<u8>::empty()) == 0);
                assert(seq![49u8].last() == 49);
                assert(crate::text::dec_val(seq![49u8]) == 1);
                assert(crate::text::int_val(c) == -1);
            }
        },
        RespVal::Array(items) => {
            assert(s[pos] == 42);
            let n = items.len() as int;
            header_at(s, pos, 42, n, enc, spec_encode_list(items));
            let p = pos + 1 + spec_idec(n).len() + 2;
            lemma_elems_at(s, p, items);
        },
        RespVal::ArrayNull => {
            assert(s[pos] == 42 && s[pos + 1] == 45 && s[pos + 2] == 49 && s[pos + 3] == 13 && s[
                pos + 4] == 10);
            let c = seq![45u8, 49];
            assert(s.subrange(pos + 1, pos + 3) =~= c);
            assert(no_cr(c));
            lemma_line_of(s, pos + 1, c);
            lemma_ascii_utf8(c);
            assert(spec_parse_i64(c) == Option::Some(-1i64)) by {
                assert(c.skip(1) =~= seq![49u8]);
                assert(crate::text::all_digits(c.skip(1))) by {
                    assert(c.skip(1)[0] == 49);
                }
                assert(crate::text::int_grammar(c));
                assert(seq![49u8].drop_last() =~= Seq::<u8>::empty());
                assert(crate::text::dec_val(Seq::<u8>::empty()) == 0);
                assert(seq![49u8].last() == 49);
                assert(crate::text::dec_val(seq![49u8]) == 1);
                assert(crate::text::int_val(c) == -1);
            }
        },
        RespVal::Null => {
            assert(s[pos] == 95 && s[pos + 1] == 13 && s[pos + 2] == 10);
            assert(s.subrange(pos + 1, pos + 1) =~= Seq::<u8>::empty());
            lemma_line_of(s, pos + 1, Seq::<u8>::empty());
        },
        RespVal::Boolean(b) => {
            assert(s[pos] == 35);
            assert(s[pos + 1] == if b {
                116u8
            } else {
                102u8
            });
            assert(s[pos + 2] == 13 && s[pos + 3] == 10);
        },
        RespVal::Double(d) => {
            assert(s[pos] == 44);
            let c = double_text(d);
            assert(no_cr(c) && is_utf8(c)) by {
                match d {
                    DoubleVal::Num(t) => {
                        lemma_float_text_ascii(t);
                        lemma_ascii_utf8(t);
                    },
                    _ => {
                        lemma_ascii_utf8(c);
                    },
                }
            }
            line_payload_at(s, pos, c, enc);
            lemma_line_of(s, pos + 1, c);
            match d {
                DoubleVal::Inf => {
                    assert(c == seq![105u8, 110, 102]);
                },
                DoubleVal::NegInf => {
                    assert(c =~= seq![45u8, 105, 110, 102]);
                    assert(c != seq![105u8, 110, 102] && c != seq![110u8, 97, 110]) by {
                        assert(c.len() == 4);
                    }
                },
                DoubleVal::Nan => {
                    assert(c =~= seq![110u8, 97, 110]);
                    assert(c != seq![105u8, 110, 102] && c != seq![45u8, 105, 110, 102]) by {
                        assert(c[0] == 110);
                    }
                },
                DoubleVal::Num(t) => {
                    lemma_float_text_not_symbolic(t);
                },
            }
        },
        RespVal::BigNumber(c) => {
            assert(s[pos] == 40);
            line_payload_at(s, pos, c, enc);
            lemma_line_of(s, pos + 1, c);
        },
        RespVal::BulkError(d) => {
            assert(s[pos] == 33);
            bulk_payload_at(s, pos, 33, d, enc);
        },
        RespVal::VerbatimString(d) => {
            assert(s[pos] == 61);
            bulk_payload_at(s, pos, 61, d, enc);
        },
        RespVal::Dict(pairs) => {
            assert(s[pos] == 37);
            let n = pairs.len() as int;
            header_at(s, pos, 37, n, enc, spec_encode_pairs(pairs));
            let p = pos + 1 + spec_idec(n).len() + 2;
            assert(forall|i: int|
                0 <= i < pairs.len() ==> wf(#[trigger] pairs[i].0) && wf(pairs[i].1));
            lemma_pairs_at(s, p, pairs);
        },
        RespVal::SetOf(items) => {
            assert(s[pos] == 126);
            let n = items.len() as int;
            header_at(s, pos, 126, n, enc, spec_encode_list(items));
            let p = pos + 1 + spec_idec(n).len() + 2;
            lemma_elems_at(s, p, items);
        },
        RespVal::Push(items) => {
            assert(s[pos] == 62);
            let n = items.len() as int;
            header_at(s, pos, 62, n, enc, spec_encode_list(items));
            let p = pos + 1 + spec_idec(n).len() + 2;
            lemma_elems_at(s, p, items);
        },
    }
}

/// For line frames: the payload and its CRLF stand right after the tag.
proof fn line_payload_at(s: Seq<u8>, pos: int, c: Seq<u8>, enc: Seq<u8>)
    requires
        0 <= pos,
        enc == seq![s[pos]] + c + crlf(),
        pos + enc.len() <= s.len(),
        s.subrange(pos, pos + enc.len()) == enc,
    ensures
        s.subrange(pos + 1, pos + 1 + c.len()) == c,
        s[pos + 1 + c.len()] == 13,
        s[pos + 1 + c.len() + 1] == 10,
{
    assert(s.subrange(pos + 1, pos + 1 + c.len()) =~= c) by {
        assert forall|k: int|
            0 <= k < c.len() implies s.subrange(pos + 1, pos + 1 + c.len())[k] == c[k] by {
            assert(s.subrange(pos, pos + enc.len())[k + 1] == enc[k + 1]);
        }
    }
    assert(s[pos + 1 + c.len()] == 13) by {
        assert(s.subrange(pos, pos + enc.len())[1 + c.len() as int] == enc[1 + c.len() as int]);
    }
    assert(s[pos + 1 + c.len() + 1] == 10) by {
        assert(s.subrange(pos, pos + enc.len())[2 + c.len() as int] == enc[2 + c.len() as int]);
    }
}

/// For length-prefixed frames: the bulk region stands right after the tag.
proof fn bulk_payload_at(s: Seq<u8>, pos: int, tag: u8, d: Seq<u8>, enc: Seq<u8>)
    requires
        0 <= pos,
        d.len() <= i64::MAX,
        enc == enc_bulk(tag, d),
        pos + enc.len() <= s.len(),
        s.subrange(pos, pos + enc.len()) == enc,
    ensures
        spec_bulk(s, pos + 1) == BulkStep::BData(d, pos + enc.len()),
{
    let region = spec_udec(d.len() as int) + crlf() + d + crlf();
    assert(enc == seq![tag] + region);
    assert(s.subrange(pos + 1, pos + 1 + region.len()) =~= region) by {
        assert forall|k: int|
            0 <= k < region.len() implies s.subrange(pos + 1, pos + 1 + region.len())[k]
            == region[k] by {
            assert(s.subrange(pos, pos + enc.len())[k + 1] == enc[k + 1]);
        }
    }
    lemma_bulk_of(s, pos + 1, d);
}

/// For aggregate frames: the count header parses and the element region
/// stands after it.
proof fn header_at(s: Seq<u8>, pos: int, tag: u8, n: int, enc: Seq<u8>, body: Seq<u8>)
    requires
        0 <= pos,
        0 <= n <= i64::MAX,
        enc == enc_header(tag, n) + body,
        pos + enc.len() <= s.len(),
        s.subrange(pos, pos + enc.len()) == enc,
    ensures
        spec_count(s, pos + 1) == CountStep::Count(n, pos + 1 + spec_idec(n).len() + 2),
        s.subrange(
            pos + 1 + spec_idec(n).len() + 2,
            pos + 1 + spec_idec(n).len() + 2 + body.len(),
        ) == body,
{
    let h = spec_udec(n);
    assert(spec_idec(n) == h);
    lemma_parse_idec(n);
    assert(enc_header(tag, n) == seq![tag] + h + crlf());
    assert(s.subrange(pos + 1, pos + 1 + h.len()) =~= h) by {
        assert forall|k: int|
            0 <= k < h.len() implies s.subrange(pos + 1, pos + 1 + h.len())[k] == h[k] by {
            assert(s.subrange(pos, pos + enc.len())[k + 1] == enc[k + 1]);
        }
    }
    assert(s[pos + 1 + h.len()] == 13) by {
        assert(s.subrange(pos, pos + enc.len())[1 + h.len() as int] == enc[1 + h.len() as int]);
    }
    assert(s[pos + 1 + h.len() + 1] == 10) by {
        assert(s.subrange(pos, pos + enc.len())[2 + h.len() as int] == enc[2 + h.len() as int]);
    }
    lemma_count_of(s, pos + 1, n);
    assert(s.subrange(pos + 1 + h.len() + 2, pos + 1 + h.len() + 2 + body.len()) =~= body) by {
        assert forall|k: int|
            0 <= k < body.len() implies s.subrange(
                pos + 1 + h.len() + 2,
                pos + 1 + h.len() + 2 + body.len(),
            )[k] == body[k] by {
            assert(s.subrange(pos, pos + enc.len())[3 + h.len() as int + k] == enc[3 + h.len() as int + k]);
        }
    }
}

/// Consecutive encoded elements parse back one after the other.
proof fn lemma_elems_at(s: Seq<u8>, pos: int, items: Seq<RespVal>)
    requires
        0 <= pos,
        forall|i: int| 0 <= i < items.len() ==> wf(#[trigger] items[i]),
        pos + spec_encode_list(items).len() <= s.len(),
        s.subrange(pos, pos + spec_encode_list(items).len()) == spec_encode_list(items),
    ensures
        spec_elems(s, pos, items.len() as int) == ElemsStep::EDone(
            items,
            pos + spec_encode_list(items).len(),
        ),
    decreases items, 1nat,
{
    if items.len() == 0 {
        assert(items =~= Seq::<RespVal>::empty());
    } else {
        let first = spec_encode(items[0]);
        let rest = spec_encode_list(items.skip(1));
        assert(spec_encode_list(items) == first + rest);
        lemma_region_split(s, pos, first, rest);
        assert(wf(items[0]));
        lemma_parse_encode_at(s, pos, items[0]);
        lemma_encode_nonempty(items[0]);
        let p = pos + first.len();
        lemma_elems_at(s, p, items.skip(1));
        assert(items.skip(1).len() as int == items.len() as int - 1);
        assert(seq![items[0]] + items.skip(1) =~= items);
    }
}

/// Consecutive encoded key/value pairs parse back one after the other.
proof fn lemma_pairs_at(s: Seq<u8>, pos: int, pairs: Seq<(RespVal, RespVal)>)
    requires
        0 <= pos,
        forall|i: int| 0 <= i < pairs.len() ==> wf(#[trigger] pairs[i].0) && wf(pairs[i].1),
        pos + spec_encode_pairs(pairs).len() <= s.len(),
        s.subrange(pos, pos + spec_encode_pairs(pairs).len()) == spec_encode_pairs(pairs),
    ensures
        spec_pairs(s, pos, pairs.len() as int) == PairsStep::PDone(
            pairs,
            pos + spec_encode_pairs(pairs).len(),
        ),
    decreases pairs, 1nat,
{
    if pairs.len() == 0 {
        assert(pairs =~= Seq::<(RespVal, RespVal)>::empty());
    } else {
        let kv = pairs[0];
        let first = spec_encode_pair(kv);
        let rest = spec_encode_pairs(pairs.skip(1));
        assert(spec_encode_pairs(pairs) == first + rest);
        lemma_region_split(s, pos, first, rest);
        let ke = spec_encode(kv.0);
        let ve = spec_encode(kv.1);
        assert(first == ke + ve);
        lemma_region_split(s, pos, ke, ve);
        lemma_parse_encode_at(s, pos, kv.0);
        lemma_encode_nonempty(kv.0);
        let p1 = pos + ke.len();
        assert(s.subrange(p1, p1 + ve.len()) == ve);
        lemma_parse_encode_at(s, p1, kv.1);
        lemma_encode_nonempty(kv.1);
        let p2 = p1 + ve.len();
        lemma_pairs_at(s, p2, pairs.skip(1));
        assert(seq![kv] + pairs.skip(1) =~= pairs);
    }
}

/// The round-trip law: for every well-formed value, parsing its encoding,
/// with any bytes following it, yields the value back and consumes exactly
/// the encoding.
pub proof fn lemma_codec_round_trip(v: RespVal, rest: Seq<u8>)
    requires
        wf(v),
    ensures
        spec_parse(spec_encode(v) + rest, 0) == ParseStep::Done(v, spec_encode(v).len() as int),
{
    let s = spec_encode(v) + rest;
    assert(s.subrange(0, spec_encode(v).len() as int) =~= spec_encode(v));
    lemma_parse_encode_at(s, 0, v);
}

} // verus!

verus! {

/// The suffix of `s` from `pos` is a strict prefix of `whole`.
pub open spec fn cut_of(s: Seq<u8>, pos: int, whole: Seq<u8>) -> bool {
    &&& 0 <= pos <= s.len()
    &&& s.len() - pos < whole.len()
    &&& s.subrange(pos, s.len() as int) == whole.take(s.len() - pos)
}

proof fn lemma_cut_index(s: Seq<u8>, pos: int, whole: Seq<u8>, k: int)
    requires
        cut_of(s, pos, whole),
        0 <= k < s.len() - pos,
    ensures
        s[pos + k] == whole[k],
{
    assert(s.subrange(pos, s.len() as int)[k] == whole.take(s.len() - pos)[k]);
}

/// A line cut before its closing LF cannot complete.
proof fn lemma_line_cut(s: Seq<u8>, pos: int, c: Seq<u8>)
    requires
        no_cr(c),
        cut_of(s, pos, c + crlf()),
    ensures
        spec_line(s, pos) == LineStep::LFail(crate::resp::ParseError::UnexpectedEndOfInput),
    decreases s.len() - pos,
{
    let whole = c + crlf();
    if pos == s.len() {
    } else {
        lemma_cut_index(s, pos, whole, 0);
        if c.len() == 0 {
            // only the CR of the terminator can be present
            assert(s[pos] == 13);
            assert(pos + 1 >= s.len());
        } else {
            assert(s[pos] == c[0]);
            assert(c[0] != 13);
            assert(cut_of(s, pos + 1, c.skip(1) + crlf())) by {
                assert forall|k: int|
                    0 <= k < s.len() - pos - 1 implies (#[trigger] s.subrange(
                    pos + 1,
                    s.len() as int,
                )[k]) == (c.skip(1) + crlf()).take(s.len() - pos - 1)[k] by {
                    lemma_cut_index(s, pos, whole, k + 1);
                    assert(whole[k + 1] == (c.skip(1) + crlf())[k]);
                }
                assert(s.subrange(pos + 1, s.len() as int) =~= (c.skip(1) + crlf()).take(
                    s.len() - pos - 1,
                ));
            }
            assert(crate::resp::no_cr(c.skip(1))) by {
                assert forall|k: int| 0 <= k < c.skip(1).len() implies c.skip(1)[k] != 13 by {
                    assert(c.skip(1)[k] == c[k + 1]);
                }
            }
            lemma_line_cut(s, pos + 1, c.skip(1));
        }
    }
}

/// A region cut strictly inside a bulk frame cannot complete.
proof fn lemma_bulk_cut(s: Seq<u8>, pos: int, d: Seq<u8>)
    requires
        d.len() <= i64::MAX,
        cut_of(s, pos, spec_udec(d.len() as int) + crlf() + d + crlf()),
    ensures
        spec_bulk(s, pos) == BulkStep::BFail(crate::resp::ParseError::UnexpectedEndOfInput),
{
    let n = d.len() as int;
    let h = spec_udec(n);
    let whole = h + crlf() + d + crlf();
    lemma_udec_digits(n);
    assert(no_cr(h)) by {
        assert forall|k: int| 0 <= k < h.len() implies h[k] != 13 by {
            assert(crate::text::is_digit(h[k]));
        }
    }
    if s.len() - pos < h.len() + 2 {
        // the cut falls within the header line
        assert(cut_of(s, pos, h + crlf())) by {
            assert forall|k: int|
                0 <= k < s.len() - pos implies s.subrange(pos, s.len() as int)[k] == (h
                + crlf()).take(s.len() - pos)[k] by {
                lemma_cut_index(s, pos, whole, k);
            }
            assert(s.subrange(pos, s.len() as int) =~= (h + crlf()).take(s.len() - pos));
        }
        lemma_line_cut(s, pos, h);
    } else {
        // the header is whole; the payload or its terminator is cut
        assert(s.subrange(pos, pos + h.len()) =~= h) by {
            assert forall|k: int|
                0 <= k < h.len() implies s.subrange(pos, pos + h.len())[k] == h[k] by {
                lemma_cut_index(s, pos, whole, k);
            }
        }
        assert(s[pos + h.len()] == 13 && s[pos + h.len() as int + 1] == 10) by {
            lemma_cut_index(s, pos, whole, h.len() as int);
            lemma_cut_index(s, pos, whole, h.len() as int + 1);
        }
        lemma_line_of(s, pos, h);
        lemma_ascii_utf8(h);
        assert(spec_idec(n) == h);
        lemma_parse_idec(n);
        let p = pos + h.len() + 2;
        assert(spec_count(s, pos) == CountStep::Count(n, p));
        assert(p + n + 1 >= s.len());
    }
}

/// Parsing a strict prefix of a well-formed value's encoding reports that
/// the input ran out, never a malformed frame and never a value.
pub proof fn lemma_parse_cut_at(s: Seq<u8>, pos: int, v: RespVal)
    requires
        wf(v),
        cut_of(s, pos, spec_encode(v)),
    ensures
        spec_parse(s, pos) == ParseStep::Fail(crate::resp::ParseError::UnexpectedEndOfInput),
    decreases v, 0nat,
{
    let enc = spec_encode(v);
    if pos == s.len() {
    } else {
        lemma_cut_index(s, pos, enc, 0);
        assert(s[pos] == enc[0]);
        let avail = s.len() - pos;
        assert forall|k: int| 0 <= k < avail implies #[trigger] s[pos + k] == enc[k] by {
            lemma_cut_index(s, pos, enc, k);
        }
        match v {
            RespVal::SimpleString(c) => {
                assert(enc =~= seq![enc[0]] + (c + crlf()));
                tail_cut(s, pos, enc, c + crlf());
                lemma_line_cut(s, pos + 1, c);
                assert(spec_parse(s, pos) == ParseStep::Fail(
                    crate::resp::ParseError::UnexpectedEndOfInput,
                ));
            },
            RespVal::SimpleError(c) => {
                assert(enc =~= seq![enc[0]] + (c + crlf()));
                tail_cut(s, pos, enc, c + crlf());
                lemma_line_cut(s, pos + 1, c);
                assert(spec_parse(s, pos) == ParseStep::Fail(
                    crate::resp::ParseError::UnexpectedEndOfInput,
                ));
            },
            RespVal::Integer(i) => {
                lemma_parse_idec(i);
                let c = spec_idec(i);
                assert(enc =~= seq![enc[0]] + (c + crlf()));
                tail_cut(s, pos, enc, c + crlf());
                lemma_line_cut(s, pos + 1, c);
                assert(spec_parse(s, pos) == ParseStep::Fail(
                    crate::resp::ParseError::UnexpectedEndOfInput,
                ));
            },
            RespVal::BulkString(d) => {
                assert(enc =~= seq![enc[0]] + (spec_udec(d.len() as int) + crlf() + d + crlf()));
                tail_cut(s, pos, enc, spec_udec(d.len() as int) + crlf() + d + crlf());
                lemma_bulk_cut(s, pos + 1, d);
                assert(spec_parse(s, pos) == ParseStep::Fail(
                    crate::resp::ParseError::UnexpectedEndOfInput,
                ));
            },
            RespVal::BulkStringNull => {
                let c = seq![45u8, 49];
                assert(enc =~= seq![36u8] + (c + crlf()));
                tail_cut(s, pos, enc, c + crlf());
                assert(no_cr(c));
                lemma_line_cut(s, pos + 1, c);
                assert(spec_parse(s, pos) == ParseStep::Fail(
                    crate::resp::ParseError::UnexpectedEndOfInput,
                ));
            },
            RespVal::Array(items) => {
                elems_or_header(s, pos, 42, items, enc, spec_encode_list(items));
            },
            RespVal::ArrayNull => {
                let c = seq![45u8, 49];
                assert(enc =~= seq![42u8] + (c + crlf()));
                tail_cut(s, pos, enc, c + crlf());
                assert(no_cr(c));
                lemma_line_cut(s, pos + 1, c);
                assert(spec_parse(s, pos) == ParseStep::Fail(
                    crate::resp::ParseError::UnexpectedEndOfInput,
                ));
            },
            RespVal::Null => {
                assert(enc =~= seq![95u8] + (Seq::<u8>::empty() + crlf()));
                tail_cut(s, pos, enc, Seq::<u8>::empty() + crlf());
                lemma_line_cut(s, pos + 1, Seq::<u8>::empty());
                assert(spec_parse(s, pos) == ParseStep::Fail(
                    crate::resp::ParseError::UnexpectedEndOfInput,
                ));
            },
            RespVal::Boolean(b) => {
                assert(avail <= 3);
                if avail >= 2 {
                    lemma_cut_index(s, pos, enc, 1);
                    assert(s[pos + 1] == 116 || s[pos + 1] == 102);
                }
                if avail >= 3 {
                    lemma_cut_index(s, pos, enc, 2);
                    assert(s[pos + 2] == 13);
                }
                assert(spec_parse(s, pos) == ParseStep::Fail(
                    crate::resp::ParseError::UnexpectedEndOfInput,
                ));
            },
            RespVal::Double(d) => {
                let c = double_text(d);
                assert(no_cr(c)) by {
                    match d {
                        DoubleVal::Num(t) => {
                            lemma_float_text_ascii(t);
                        },
                        _ => {},
                    }
                }
                assert(enc =~= seq![enc[0]] + (c + crlf()));
                tail_cut(s, pos, enc, c + crlf());
                lemma_line_cut(s, pos + 1, c);
                assert(spec_parse(s, pos) == ParseStep::Fail(
                    crate::resp::ParseError::UnexpectedEndOfInput,
                ));
            },
            RespVal::BigNumber(c) => {
                assert(enc =~= seq![enc[0]] + (c + crlf()));
                tail_cut(s, pos, enc, c + crlf());
                lemma_line_cut(s, pos + 1, c);
                assert(spec_parse(s, pos) == ParseStep::Fail(
                    crate::resp::ParseError::UnexpectedEndOfInput,
                ));
            },
            RespVal::BulkError(d) => {
                assert(enc =~= seq![enc[0]] + (spec_udec(d.len() as int) + crlf() + d + crlf()));
                tail_cut(s, pos, enc, spec_udec(d.len() as int) + crlf() + d + crlf());
                lemma_bulk_cut(s, pos + 1, d);
                assert(spec_parse(s, pos) == ParseStep::Fail(
                    crate::resp::ParseError::UnexpectedEndOfInput,
                ));
            },
            RespVal::VerbatimString(d) => {
                assert(enc =~= seq![enc[0]] + (spec_udec(d.len() as int) + crlf() + d + crlf()));
                tail_cut(s, pos, enc, spec_udec(d.len() as int) + crlf() + d + crlf());
                lemma_bulk_cut(s, pos + 1, d);
                assert(spec_parse(s, pos) == ParseStep::Fail(
                    crate::resp::ParseError::UnexpectedEndOfInput,
                ));
            },
            RespVal::Dict(pairs) => {
                pairs_or_header(s, pos, pairs, enc, spec_encode_pairs(pairs));
            },
            RespVal::SetOf(items) => {
                elems_or_header(s, pos, 126, items, enc, spec_encode_list(items));
            },
            RespVal::Push(items) => {
                elems_or_header(s, pos, 62, items, enc, spec_encode_list(items));
            },
        }
    }
}

/// The cut region after the tag byte.
proof fn tail_cut(s: Seq<u8>, pos: int, enc: Seq<u8>, tail: Seq<u8>)
    requires
        cut_of(s, pos, enc),
        pos < s.len(),
        enc == seq![enc[0]] + tail,
    ensures
        cut_of(s, pos + 1, tail),
{
    assert forall|k: int|
        0 <= k < s.len() - pos - 1 implies (#[trigger] s.subrange(pos + 1, s.len() as int)[k])
        == tail.take(s.len() - pos - 1)[k] by {
        lemma_cut_index(s, pos, enc, k + 1);
        assert(enc[k + 1] == tail[k]);
    }
    assert(s.subrange(pos + 1, s.len() as int) =~= tail.take(s.len() - pos - 1));
}

/// An aggregate cut either inside its header or inside its elements.
proof fn elems_or_header(
    s: Seq<u8>,
    pos: int,
    tag: u8,
    items: Seq<RespVal>,
    enc: Seq<u8>,
    body: Seq<u8>,
)
    requires
        forall|i: int| 0 <= i < items.len() ==> wf(#[trigger] items[i]),
        items.len() <= i64::MAX,
        tag == 42 || tag == 126 || tag == 62,
        pos < s.len(),
        cut_of(s, pos, enc),
        body == spec_encode_list(items),
        enc == enc_header(tag, items.len() as int) + body,
    ensures
        spec_parse(s, pos) == ParseStep::Fail(crate::resp::ParseError::UnexpectedEndOfInput),
    decreases items, 2nat,
{
    let n = items.len() as int;
    let h = spec_udec(n);
    lemma_udec_digits(n);
    let header_tail = h + crlf();
    assert(enc == seq![tag] + (header_tail + body)) by {
        assert(enc_header(tag, n) == seq![tag] + header_tail);
        assert(seq![tag] + (header_tail + body) =~= (seq![tag] + header_tail) + body);
    }
    assert(s[pos] == tag) by {
        lemma_cut_index(s, pos, enc, 0);
        assert(enc[0] == tag);
    }
    tail_cut(s, pos, enc, header_tail + body);
    assert(no_cr(h)) by {
        assert forall|k: int| 0 <= k < h.len() implies h[k] != 13 by {
            assert(crate::text::is_digit(h[k]));
        }
    }
    if s.len() - (pos + 1) < header_tail.len() {
        assert(cut_of(s, pos + 1, header_tail)) by {
            assert forall|k: int|
                0 <= k < s.len() - pos - 1 implies (#[trigger] s.subrange(
                pos + 1,
                s.len() as int,
            )[k]) == header_tail.take(s.len() - pos - 1)[k] by {
                lemma_cut_index(s, pos + 1, header_tail + body, k);
            }
            assert(s.subrange(pos + 1, s.len() as int) =~= header_tail.take(s.len() - pos - 1));
        }
        lemma_line_cut(s, pos + 1, h);
    } else {
        // the header is whole; the cut falls among the elements
        let p = pos + 1 + h.len() + 2;
        assert(s.subrange(pos + 1, pos + 1 + h.len()) =~= h) by {
            assert forall|k: int|
                0 <= k < h.len() implies s.subrange(pos + 1, pos + 1 + h.len())[k] == h[k] by {
                lemma_cut_index(s, pos + 1, header_tail + body, k);
            }
        }
        assert(s[pos + 1 + h.len()] == 13 && s[pos + 1 + h.len() as int + 1] == 10) by {
            lemma_cut_index(s, pos + 1, header_tail + body, h.len() as int);
            lemma_cut_index(s, pos + 1, header_tail + body, h.len() as int + 1);
        }
        lemma_line_of(s, pos + 1, h);
        lemma_ascii_utf8(h);
        assert(spec_idec(n) == h);
        lemma_parse_idec(n);
        assert(spec_count(s, pos + 1) == CountStep::Count(n, p));
        assert(cut_of(s, p, body)) by {
            assert forall|k: int|
                0 <= k < s.len() - p implies (#[trigger] s.subrange(p, s.len() as int)[k])
                == body.take(s.len() - p)[k] by {
                lemma_cut_index(s, pos + 1, header_tail + body, h.len() + 2 + k);
                assert((header_tail + body)[h.len() + 2 + k] == body[k]);
            }
            assert(s.subrange(p, s.len() as int) =~= body.take(s.len() - p));
        }
        lemma_elems_cut(s, p, items);
    }
}

/// A pair aggregate cut either inside its header or inside its pairs.
proof fn pairs_or_header(
    s: Seq<u8>,
    pos: int,
    pairs: Seq<(RespVal, RespVal)>,
    enc: Seq<u8>,
    body: Seq<u8>,
)
    requires
        forall|i: int| 0 <= i < pairs.len() ==> wf(#[trigger] pairs[i].0) && wf(pairs[i].1),
        pairs.len() <= i64::MAX,
        pos < s.len(),
        cut_of(s, pos, enc),
        body == spec_encode_pairs(pairs),
        enc == enc_header(37, pairs.len() as int) + body,
    ensures
        spec_parse(s, pos) == ParseStep::Fail(crate::resp::ParseError::UnexpectedEndOfInput),
    decreases pairs, 2nat,
{
    let n = pairs.len() as int;
    let h = spec_udec(n);
    lemma_udec_digits(n);
    let header_tail = h + crlf();
    assert(enc == seq![37u8] + (header_tail + body)) by {
        assert(enc_header(37, n) == seq![37u8] + header_tail);
        assert(seq![37u8] + (header_tail + body) =~= (seq![37u8] + header_tail) + body);
    }
    assert(s[pos] == 37) by {
        lemma_cut_index(s, pos, enc, 0);
        assert(enc[0] == 37);
    }
    tail_cut(s, pos, enc, header_tail + body);
    assert(no_cr(h)) by {
        assert forall|k: int| 0 <= k < h.len() implies h[k] != 13 by {
            assert(crate::text::is_digit(h[k]));
        }
    }
    if s.len() - (pos + 1) < header_tail.len() {
        assert(cut_of(s, pos + 1, header_tail)) by {
            assert forall|k: int|
                0 <= k < s.len() - pos - 1 implies (#[trigger] s.subrange(
                pos + 1,
                s.len() as int,
            )[k]) == header_tail.take(s.len() - pos - 1)[k] by {
                lemma_cut_index(s, pos + 1, header_tail + body, k);
            }
            assert(s.subrange(pos + 1, s.len() as int) =~= header_tail.take(s.len() - pos - 1));
        }
        lemma_line_cut(s, pos + 1, h);
    } else {
        let p = pos + 1 + h.len() + 2;
        assert(s.subrange(pos + 1, pos + 1 + h.len()) =~= h) by {
            assert forall|k: int|
                0 <= k < h.len() implies s.subrange(pos + 1, pos + 1 + h.len())[k] == h[k] by {
                lemma_cut_index(s, pos + 1, header_tail + body, k);
            }
        }
        assert(s[pos + 1 + h.len()] == 13 && s[pos + 1 + h.len() as int + 1] == 10) by {
            lemma_cut_index(s, pos + 1, header_tail + body, h.len() as int);
            lemma_cut_index(s, pos + 1, header_tail + body, h.len() as int + 1);
        }
        lemma_line_of(s, pos + 1, h);
        lemma_ascii_utf8(h);
        assert(spec_idec(n) == h);
        lemma_parse_idec(n);
        assert(spec_count(s, pos + 1) == CountStep::Count(n, p));
        assert(cut_of(s, p, body)) by {
            assert forall|k: int|
                0 <= k < s.len() - p implies (#[trigger] s.subrange(p, s.len() as int)[k])
                == body.take(s.len() - p)[k] by {
                lemma_cut_index(s, pos + 1, header_tail + body, h.len() + 2 + k);
                assert((header_tail + body)[h.len() + 2 + k] == body[k]);
            }
            assert(s.subrange(p, s.len() as int) =~= body.take(s.len() - p));
        }
        lemma_pairs_cut(s, p, pairs);
    }
}

/// Elements cut partway cannot all complete.
proof fn lemma_elems_cut(s: Seq<u8>, pos: int, items: Seq<RespVal>)
    requires
        forall|i: int| 0 <= i < items.len() ==> wf(#[trigger] items[i]),
        cut_of(s, pos, spec_encode_list(items)),
    ensures
        spec_elems(s, pos, items.len() as int) == ElemsStep::EFail(
            crate::resp::ParseError::UnexpectedEndOfInput,
        ),
    decreases items, 1nat,
{
    assert(items.len() > 0) by {
        if items.len() == 0 {
            assert(spec_encode_list(items).len() == 0);
        }
    }
    let first = spec_encode(items[0]);
    let rest = spec_encode_list(items.skip(1));
    assert(spec_encode_list(items) == first + rest);
    if s.len() - pos < first.len() {
        assert(cut_of(s, pos, first)) by {
            assert forall|k: int|
                0 <= k < s.len() - pos implies (#[trigger] s.subrange(pos, s.len() as int)[k])
                == first.take(s.len() - pos)[k] by {
                lemma_cut_index(s, pos, first + rest, k);
            }
            assert(s.subrange(pos, s.len() as int) =~= first.take(s.len() - pos));
        }
        lemma_parse_cut_at(s, pos, items[0]);
    } else {
        assert(s.subrange(pos, pos + first.len()) =~= first) by {
            assert forall|k: int|
                0 <= k < first.len() implies s.subrange(pos, pos + first.len())[k] == first[k] by {
                lemma_cut_index(s, pos, first + rest, k);
            }
        }
        lemma_parse_encode_at(s, pos, items[0]);
        lemma_encode_nonempty(items[0]);
        let p = pos + first.len();
        assert(cut_of(s, p, rest)) by {
            assert forall|k: int|
                0 <= k < s.len() - p implies (#[trigger] s.subrange(p, s.len() as int)[k])
                == rest.take(s.len() - p)[k] by {
                lemma_cut_index(s, pos, first + rest, first.len() + k);
                assert((first + rest)[first.len() + k] == rest[k]);
            }
            assert(s.subrange(p, s.len() as int) =~= rest.take(s.len() - p));
        }
        lemma_elems_cut(s, p, items.skip(1));
    }
}

/// Pairs cut partway cannot all complete.
proof fn lemma_pairs_cut(s: Seq<u8>, pos: int, pairs: Seq<(RespVal, RespVal)>)
    requires
        forall|i: int| 0 <= i < pairs.len() ==> wf(#[trigger] pairs[i].0) && wf(pairs[i].1),
        cut_of(s, pos, spec_encode_pairs(pairs)),
    ensures
        spec_pairs(s, pos, pairs.len() as int) == PairsStep::PFail(
            crate::resp::ParseError::UnexpectedEndOfInput,
        ),
    decreases pairs, 1nat,
{
    assert(pairs.len() > 0) by {
        if pairs.len() == 0 {
            assert(spec_encode_pairs(pairs).len() == 0);
        }
    }
    let kv = pairs[0];
    let ke = spec_encode(kv.0);
    let ve = spec_encode(kv.1);
    let first = spec_encode_pair(kv);
    let rest = spec_encode_pairs(pairs.skip(1));
    assert(spec_encode_pairs(pairs) == first + rest);
    assert(first == ke + ve);
    if s.len() - pos < ke.len() {
        assert(cut_of(s, pos, ke)) by {
            assert forall|k: int|
                0 <= k < s.len() - pos implies (#[trigger] s.subrange(pos, s.len() as int)[k])
                == ke.take(s.len() - pos)[k] by {
                lemma_cut_index(s, pos, first + rest, k);
                assert((first + rest)[k] == ke[k]);
            }
            assert(s.subrange(pos, s.len() as int) =~= ke.take(s.len() - pos));
        }
        lemma_parse_cut_at(s, pos, kv.0);
    } else {
        assert(s.subrange(pos, pos + ke.len()) =~= ke) by {
            assert forall|k: int|
                0 <= k < ke.len() implies s.subrange(pos, pos + ke.len())[k] == ke[k] by {
                lemma_cut_index(s, pos, first + rest, k);
                assert((first + rest)[k] == ke[k]);
            }
        }
        lemma_parse_encode_at(s, pos, kv.0);
        lemma_encode_nonempty(kv.0);
        let p1 = pos + ke.len();
        if s.len() - p1 < ve.len() {
            assert(cut_of(s, p1, ve)) by {
                assert forall|k: int|
                    0 <= k < s.len() - p1 implies (#[trigger] s.subrange(p1, s.len() as int)[k])
                    == ve.take(s.len() - p1)[k] by {
                    lemma_cut_index(s, pos, first + rest, ke.len() + k);
                    assert((first + rest)[ke.len() + k] == ve[k]);
                }
                assert(s.subrange(p1, s.len() as int) =~= ve.take(s.len() - p1));
            }
            lemma_parse_cut_at(s, p1, kv.1);
        } else {
            assert(s.subrange(p1, p1 + ve.len()) =~= ve) by {
                assert forall|k: int|
                    0 <= k < ve.len() implies s.subrange(p1, p1 + ve.len())[k] == ve[k] by {
                    lemma_cut_index(s, pos, first + rest, ke.len() + k);
                    assert((first + rest)[ke.len() + k] == ve[k]);
                }
            }
            lemma_parse_encode_at(s, p1, kv.1);
            lemma_encode_nonempty(kv.1);
            let p2 = p1 + ve.len();
            assert(cut_of(s, p2, rest)) by {
                assert forall|k: int|
                    0 <= k < s.len() - p2 implies (#[trigger] s.subrange(p2, s.len() as int)[k])
                    == rest.take(s.len() - p2)[k] by {
                    lemma_cut_index(s, pos, first + rest, first.len() + k);
                    assert((first + rest)[first.len() + k] == rest[k]);
                }
                assert(s.subrange(p2, s.len() as int) =~= rest.take(s.len() - p2));
            }
            lemma_pairs_cut(s, p2, pairs.skip(1));
        }
    }
}

/// The incremental-framing law: any strict prefix of a well-formed value's
/// encoding is reported as recoverable truncation, so a reader that keeps
/// feeding bytes neither misparses nor gives up early.
pub proof fn lemma_codec_prefix_incomplete(v: RespVal, k: int)
    requires
        wf(v),
        0 <= k < spec_encode(v).len(),
    ensures
        spec_parse(spec_encode(v).take(k), 0) == ParseStep::Fail(
            crate::resp::ParseError::UnexpectedEndOfInput,
        ),
{
    let s = spec_encode(v).take(k);
    assert(s.subrange(0, s.len() as int) =~= s);
    lemma_parse_cut_at(s, 0, v);
}

} // verus!
