//! Byte-level text helpers for the wire codec: ASCII decimal numbers,
//! UTF-8 validity, and the decimal grammar of double payloads.
use vstd::prelude::*;

verus! {

pub const CR: u8 = 13;
pub const LF: u8 = 10;

// ---------------------------------------------------------------------------
// ASCII decimal digits
// ---------------------------------------------------------------------------

pub open spec fn is_digit(b: u8) -> bool {
    48 <= b <= 57
}

pub open spec fn all_digits(s: Seq<u8>) -> bool {
    forall|i: int| 0 <= i < s.len() ==> is_digit(#[trigger] s[i])
}

/// Numeric value of a digit sequence, most significant digit first.
pub open spec fn dec_val(s: Seq<u8>) -> int
    decreases s.len(),
{
    if s.len() == 0 {
        0
    } else {
        dec_val(s.drop_last()) * 10 + (s.last() - 48)
    }
}

/// Canonical decimal digits of a non-negative integer (no leading zeros).
pub open spec fn spec_udec(n: int) -> Seq<u8>
    decreases n,
{
    if n < 10 {
        seq![(48 + if n >= 0 { n } else { 0 }) as u8]
    } else {
        spec_udec(n / 10).push((48 + n % 10) as u8)
    }
}

/// Canonical decimal text of an integer, with a leading minus sign when negative.
pub open spec fn spec_idec(i: int) -> Seq<u8> {
    if i < 0 {
        seq![45u8] + spec_udec(-i)
    } else {
        spec_udec(i)
    }
}

pub proof fn lemma_udec_digits(n: int)
    requires
        n >= 0,
    ensures
        spec_udec(n).len() >= 1,
        all_digits(spec_udec(n)),
        dec_val(spec_udec(n)) == n,
    decreases n,
{
    if n < 10 {
        let s = spec_udec(n);
        assert(s =~= seq![(48 + n) as u8]);
        assert(s.drop_last() =~= Seq::<u8>::empty());
        assert(dec_val(s.drop_last()) == 0);
        assert(s.last() == (48 + n) as u8);
        assert(dec_val(s) == dec_val(s.drop_last()) * 10 + (s.last() - 48));
    } else {
        lemma_udec_digits(n / 10);
        let s = spec_udec(n);
        assert(s.drop_last() =~= spec_udec(n / 10));
        assert(s.last() == (48 + n % 10) as u8);
    }
}

fn u64_dec(n: u64) -> (r: Vec<u8>)
    ensures
        r@ == spec_udec(n as int),
    decreases n,
{
    if n < 10 {
        let mut v: Vec<u8> = Vec::new();
        v.push(48 + (n as u8));
        assert(v@ =~= spec_udec(n as int));
        v
    } else {
        let mut v = u64_dec(n / 10);
        v.push(48 + ((n % 10) as u8));
        v
    }
}

pub fn usize_dec(n: usize) -> (r: Vec<u8>)
    ensures
        r@ == spec_udec(n as int),
{
    u64_dec(n as u64)
}

pub fn i64_dec(i: i64) -> (r: Vec<u8>)
    ensures
        r@ == spec_idec(i as int),
{
    if i >= 0 {
        u64_dec(i as u64)
    } else {
        let mag: u64 = ((-(i as i128)) as u64);
        let mut v: Vec<u8> = Vec::new();
        v.push(45);
        let digits = u64_dec(mag);
        let mut j: usize = 0;
        while j < digits.len()
            invariant
                j <= digits.len(),
                digits@ == spec_udec(-(i as int)),
                v@ == seq![45u8] + digits@.subrange(0, j as int),
            decreases digits.len() - j,
        {
            v.push(digits[j]);
            j += 1;
            assert(v@ =~= seq![45u8] + digits@.subrange(0, j as int));
        }
        assert(digits@.subrange(0, digits@.len() as int) =~= digits@);
        v
    }
}

// ---------------------------------------------------------------------------
// Parsing signed 64-bit decimal text (the grammar of str::parse::<i64>)
// ---------------------------------------------------------------------------

pub open spec fn int_grammar(s: Seq<u8>) -> bool {
    if s.len() == 0 {
        false
    } else if s[0] == 43 || s[0] == 45 {
        s.len() > 1 && all_digits(s.skip(1))
    } else {
        all_digits(s)
    }
}

pub open spec fn int_digits(s: Seq<u8>) -> Seq<u8> {
    if s.len() > 0 && (s[0] == 43 || s[0] == 45) {
        s.skip(1)
    } else {
        s
    }
}

pub open spec fn int_val(s: Seq<u8>) -> int {
    if s.len() > 0 && s[0] == 45 {
        -dec_val(int_digits(s))
    } else {
        dec_val(int_digits(s))
    }
}

pub open spec fn spec_parse_i64(s: Seq<u8>) -> Option<i64> {
    if int_grammar(s) && i64::MIN <= int_val(s) <= i64::MAX {
        Some(int_val(s) as i64)
    } else {
        None
    }
}

proof fn lemma_dec_val_zeros_prefix(s: Seq<u8>, k: int)
    requires
        0 <= k <= s.len(),
        forall|i: int| 0 <= i < k ==> s[i] == 48,
    ensures
        dec_val(s) == dec_val(s.skip(k)),
    decreases s.len(),
{
    if s.len() == 0 || k == 0 {
        assert(s.skip(0) =~= s);
    } else if k == s.len() {
        // every digit is zero
        assert(s.skip(k) =~= Seq::<u8>::empty());
        lemma_dec_val_all_zero(s);
    } else {
        lemma_dec_val_zeros_prefix(s.drop_last(), k);
        assert(s.drop_last().skip(k) =~= s.skip(k).drop_last());
        assert(s.skip(k).last() == s.last());
    }
}

proof fn lemma_dec_val_all_zero(s: Seq<u8>)
    requires
        forall|i: int| 0 <= i < s.len() ==> s[i] == 48,
    ensures
        dec_val(s) == 0,
    decreases s.len(),
{
    if s.len() > 0 {
        lemma_dec_val_all_zero(s.drop_last());
    }
}

pub open spec fn pow10(k: nat) -> int
    decreases k,
{
    if k == 0 {
        1
    } else {
        10 * pow10((k - 1) as nat)
    }
}

proof fn lemma_dec_val_lower(s: Seq<u8>)
    requires
        s.len() >= 1,
        all_digits(s),
        s[0] != 48,
    ensures
        dec_val(s) >= pow10((s.len() - 1) as nat),
    decreases s.len(),
{
    if s.len() == 1 {
        assert(dec_val(s) == dec_val(s.drop_last()) * 10 + (s[0] - 48));
        assert(s.drop_last() =~= Seq::<u8>::empty());
    } else {
        lemma_dec_val_lower(s.drop_last());
        assert(s.drop_last()[0] == s[0]);
        assert(is_digit(s.last()));
    }
}

proof fn lemma_dec_val_nonneg(s: Seq<u8>)
    requires
        all_digits(s),
    ensures
        dec_val(s) >= 0,
    decreases s.len(),
{
    if s.len() > 0 {
        lemma_dec_val_nonneg(s.drop_last());
        assert(is_digit(s.last()));
    }
}

proof fn lemma_pow10_19()
    ensures
        pow10(19) == 10000000000000000000,
{
    reveal_with_fuel(pow10, 21);
}

/// Parse the decimal text of an `i64` exactly as `str::parse::<i64>` does:
/// an optional sign followed by one or more digits, rejecting overflow.
pub fn parse_i64_text(s: &[u8]) -> (r: Option<i64>)
    ensures
        r == spec_parse_i64(s@),
{
    let n = s.len();
    if n == 0 {
        return None;
    }
    let neg = s[0] == 45;
    let start: usize = if s[0] == 43 || s[0] == 45 {
        1
    } else {
        0
    };
    if n == start {
        return None;
    }
    let ghost digits = int_digits(s@);
    assert(digits =~= s@.skip(start as int));
    // reject any non-digit
    let mut i: usize = start;
    while i < n
        invariant
            start <= i <= n,
            n == s@.len(),
            start == 0 || start == 1,
            digits == int_digits(s@),
            digits == s@.skip(start as int),
            forall|k: int| start <= k < i ==> is_digit(#[trigger] s@[k]),
        decreases n - i,
    {
        if !(48 <= s[i] && s[i] <= 57) {
            proof {
                assert(!is_digit(s@[i as int]));
                assert(digits[i - start] == s@[i as int]);
                assert(!all_digits(int_digits(s@)));
            }
            return None;
        }
        i += 1;
    }
    assert(all_digits(digits)) by {
        assert(forall|k: int| 0 <= k < digits.len() ==> digits[k] == s@[k + start]);
    }
    assert(int_grammar(s@));
    // skip leading zeros
    let mut z: usize = start;
    while z < n && s[z] == 48
        invariant
            start <= z <= n,
            n == s@.len(),
            forall|k: int| start <= k < z ==> s@[k] == 48,
        decreases n - z,
    {
        z += 1;
    }
    let ghost sig = s@.skip(z as int);
    proof {
        lemma_dec_val_zeros_prefix(digits, z - start);
        assert(digits.skip(z - start) =~= sig);
        assert(dec_val(digits) == dec_val(sig));
    }
    if n - z > 19 {
        // at least 20 significant digits: out of range for i64
        proof {
            assert(sig[0] == s@[z as int]);
            assert(sig[0] != 48 && is_digit(sig[0]));
            assert(forall|k: int| 0 <= k < sig.len() ==> sig[k] == s@[k + z]);
            lemma_dec_val_lower(sig);
            lemma_pow10_19();
            assert(pow10((sig.len() - 1) as nat) >= pow10(19)) by {
                lemma_pow10_monotone(19, (sig.len() - 1) as nat);
            }
        }
        return None;
    }
    let mut val: u64 = 0;
    let mut j: usize = z;
    while j < n
        invariant
            z <= j <= n,
            n == s@.len(),
            n - z <= 19,
            all_digits(sig),
            sig =~= s@.skip(z as int),
            val == dec_val(s@.subrange(z as int, j as int)),
            val <= pow10((j - z) as nat) - 1,
        decreases n - j,
    {
        proof {
            assert(sig[j - z] == s@[j as int]);
            assert(is_digit(s@[j as int]));
            lemma_pow10_monotone((j - z) as nat, 18);
            lemma_pow10_19();
            assert(pow10(19) == 10 * pow10(18));
        }
        let d = s[j] - 48;
        val = val * 10 + (d as u64);
        j += 1;
        proof {
            assert(s@.subrange(z as int, j as int).drop_last() =~= s@.subrange(
                z as int,
                j as int - 1,
            ));
            assert(s@.subrange(z as int, j as int).last() == s@[j - 1]);
            assert(pow10((j - z) as nat) == 10 * pow10((j - 1 - z) as nat));
        }
    }
    proof {
        assert(s@.subrange(z as int, n as int) =~= sig);
        assert(dec_val(int_digits(s@)) == val);
        lemma_dec_val_nonneg(digits);
    }
    if neg {
        if val > 9223372036854775808u64 {
            return None;
        }
        if val == 9223372036854775808u64 {
            Some(i64::MIN)
        } else {
            Some(-(val as i64))
        }
    } else {
        if val > 9223372036854775807u64 {
            return None;
        }
        Some(val as i64)
    }
}

proof fn lemma_pow10_monotone(a: nat, b: nat)
    requires
        a <= b,
    ensures
        pow10(a) <= pow10(b),
        pow10(a) >= 1,
    decreases b,
{
    if a == b {
        lemma_pow10_positive(a);
    } else {
        lemma_pow10_monotone(a, (b - 1) as nat);
    }
}

proof fn lemma_pow10_positive(a: nat)
    ensures
        pow10(a) >= 1,
    decreases a,
{
    if a > 0 {
        lemma_pow10_positive((a - 1) as nat);
    }
}

// ---------------------------------------------------------------------------
// UTF-8 validity
// ---------------------------------------------------------------------------

pub open spec fn is_cont(b: u8) -> bool {
    128 <= b <= 191
}

/// Well-formed UTF-8, byte for byte, as `str` requires it.
pub open spec fn is_utf8(s: Seq<u8>) -> bool
    decreases s.len(),
{
    if s.len() == 0 {
        true
    } else {
        let b = s[0];
        if b <= 0x7f {
            is_utf8(s.skip(1))
        } else if 0xc2 <= b <= 0xdf {
            s.len() >= 2 && is_cont(s[1]) && is_utf8(s.skip(2))
        } else if b == 0xe0 {
            s.len() >= 3 && 0xa0 <= s[1] <= 0xbf && is_cont(s[2]) && is_utf8(s.skip(3))
        } else if 0xe1 <= b <= 0xec {
            s.len() >= 3 && is_cont(s[1]) && is_cont(s[2]) && is_utf8(s.skip(3))
        } else if b == 0xed {
            s.len() >= 3 && 0x80 <= s[1] <= 0x9f && is_cont(s[2]) && is_utf8(s.skip(3))
        } else if 0xee <= b <= 0xef {
            s.len() >= 3 && is_cont(s[1]) && is_cont(s[2]) && is_utf8(s.skip(3))
        } else if b == 0xf0 {
            s.len() >= 4 && 0x90 <= s[1] <= 0xbf && is_cont(s[2]) && is_cont(s[3]) && is_utf8(
                s.skip(4),
            )
        } else if 0xf1 <= b <= 0xf3 {
            s.len() >= 4 && is_cont(s[1]) && is_cont(s[2]) && is_cont(s[3]) && is_utf8(s.skip(4))
        } else if b == 0xf4 {
            s.len() >= 4 && 0x80 <= s[1] <= 0x8f && is_cont(s[2]) && is_cont(s[3]) && is_utf8(
                s.skip(4),
            )
        } else {
            false
        }
    }
}

pub fn check_utf8(s: &[u8]) -> (r: bool)
    ensures
        r == is_utf8(s@),
{
    let n = s.len();
    let mut i: usize = 0;
    assert(s@.skip(0) =~= s@);
    while i < n
        invariant
            0 <= i <= n,
            n == s@.len(),
            is_utf8(s@) == is_utf8(s@.skip(i as int)),
        decreases n - i,
    {
        let ghost t = s@.skip(i as int);
        assert(t.len() == n - i);
        assert(t[0] == s@[i as int]);
        let b = s[i];
        let step: usize;
        if b <= 0x7f {
            step = 1;
        } else if 0xc2 <= b && b <= 0xdf {
            if n - i < 2 || !(128 <= s[i + 1] && s[i + 1] <= 191) {
                proof {
                    if n - i >= 2 {
                        assert(t[1] == s@[i + 1]);
                    }
                    assert(!is_utf8(t));
                }
                return false;
            }
            assert(t[1] == s@[i + 1]);
            step = 2;
        } else if 0xe0 <= b && b <= 0xef {
            if n - i < 3 {
                assert(!is_utf8(t));
                return false;
            }
            let b1 = s[i + 1];
            let b2 = s[i + 2];
            assert(t[1] == s@[i + 1] && t[2] == s@[i + 2]);
            let ok1 = if b == 0xe0 {
                0xa0 <= b1 && b1 <= 0xbf
            } else if b == 0xed {
                0x80 <= b1 && b1 <= 0x9f
            } else {
                128 <= b1 && b1 <= 191
            };
            if !ok1 || !(128 <= b2 && b2 <= 191) {
                assert(!is_utf8(t));
                return false;
            }
            step = 3;
        } else if 0xf0 <= b && b <= 0xf4 {
            if n - i < 4 {
                assert(!is_utf8(t));
                return false;
            }
            let b1 = s[i + 1];
            let b2 = s[i + 2];
            let b3 = s[i + 3];
            assert(t[1] == s@[i + 1] && t[2] == s@[i + 2] && t[3] == s@[i + 3]);
            let ok1 = if b == 0xf0 {
                0x90 <= b1 && b1 <= 0xbf
            } else if b == 0xf4 {
                0x80 <= b1 && b1 <= 0x8f
            } else {
                128 <= b1 && b1 <= 191
            };
            if !ok1 || !(128 <= b2 && b2 <= 191) || !(128 <= b3 && b3 <= 191) {
                assert(!is_utf8(t));
                return false;
            }
            step = 4;
        } else {
            assert(!is_utf8(t));
            return false;
        }
        proof {
            assert(t.skip(step as int) =~= s@.skip(i + step));
            assert(is_utf8(t) == is_utf8(t.skip(step as int)));
        }
        i += step;
    }
    assert(s@.skip(i as int) =~= Seq::<u8>::empty());
    true
}

// ---------------------------------------------------------------------------
// ASCII case helpers
// ---------------------------------------------------------------------------

pub open spec fn spec_upper(b: u8) -> u8 {
    if 97 <= b <= 122 {
        (b - 32) as u8
    } else {
        b
    }
}

pub open spec fn spec_upper_seq(s: Seq<u8>) -> Seq<u8> {
    Seq::new(s.len(), |i: int| spec_upper(s[i]))
}

/// ASCII-uppercase a byte string.
pub fn to_upper_bytes(s: &[u8]) -> (r: Vec<u8>)
    ensures
        r@ == spec_upper_seq(s@),
{
    let mut v: Vec<u8> = Vec::new();
    let n = s.len();
    let mut i: usize = 0;
    while i < n
        invariant
            0 <= i <= n,
            n == s@.len(),
            v@ =~= spec_upper_seq(s@).subrange(0, i as int),
        decreases n - i,
    {
        let b = s[i];
        if 97 <= b && b <= 122 {
            v.push(b - 32);
        } else {
            v.push(b);
        }
        i += 1;
        assert(v@ =~= spec_upper_seq(s@).subrange(0, i as int));
    }
    assert(spec_upper_seq(s@).subrange(0, n as int) =~= spec_upper_seq(s@));
    v
}

} // verus!

verus! {

// ---------------------------------------------------------------------------
// The decimal grammar of double payloads (the non-symbolic part of the
// grammar of str::parse::<f64>) and its finite/overflow classification.
// ---------------------------------------------------------------------------

pub open spec fn digit_run_end(s: Seq<u8>, i: int) -> int
    decreases s.len() - i,
{
    if 0 <= i && i < s.len() && is_digit(s[i]) {
        digit_run_end(s, i + 1)
    } else {
        i
    }
}

proof fn lemma_digit_run_end(s: Seq<u8>, i: int)
    requires
        0 <= i <= s.len(),
    ensures
        i <= digit_run_end(s, i) <= s.len(),
        forall|k: int| i <= k < digit_run_end(s, i) ==> is_digit(#[trigger] s[k]),
        digit_run_end(s, i) < s.len() ==> !is_digit(s[digit_run_end(s, i)]),
    decreases s.len() - i,
{
    if i < s.len() && is_digit(s[i]) {
        lemma_digit_run_end(s, i + 1);
    }
}

pub open spec fn float_sign_end(s: Seq<u8>) -> int {
    if s.len() > 0 && (s[0] == 43 || s[0] == 45) {
        1
    } else {
        0
    }
}

pub open spec fn fg_i1(s: Seq<u8>) -> int {
    digit_run_end(s, float_sign_end(s))
}

pub open spec fn fg_has_dot(s: Seq<u8>) -> bool {
    fg_i1(s) < s.len() && s[fg_i1(s)] == 46
}

pub open spec fn fg_i2(s: Seq<u8>) -> int {
    if fg_has_dot(s) {
        digit_run_end(s, fg_i1(s) + 1)
    } else {
        fg_i1(s)
    }
}

pub open spec fn fg_digits_present(s: Seq<u8>) -> bool {
    fg_i1(s) > float_sign_end(s) || (fg_has_dot(s) && fg_i2(s) > fg_i1(s) + 1)
}

pub open spec fn fg_has_exp(s: Seq<u8>) -> bool {
    fg_i2(s) < s.len() && (s[fg_i2(s)] == 101 || s[fg_i2(s)] == 69)
}

pub open spec fn fg_exp_neg(s: Seq<u8>) -> bool {
    fg_has_exp(s) && fg_i2(s) + 1 < s.len() && s[fg_i2(s) + 1] == 45
}

pub open spec fn fg_i3(s: Seq<u8>) -> int {
    if fg_i2(s) + 1 < s.len() && (s[fg_i2(s) + 1] == 43 || s[fg_i2(s) + 1] == 45) {
        fg_i2(s) + 2
    } else {
        fg_i2(s) + 1
    }
}

pub open spec fn fg_i4(s: Seq<u8>) -> int {
    digit_run_end(s, fg_i3(s))
}

/// The decimal (non-symbolic) grammar accepted by `str::parse::<f64>`:
/// optional sign, digits with an optional dot (at least one digit), and an
/// optional exponent with its own optional sign and at least one digit.
pub open spec fn float_grammar(s: Seq<u8>) -> bool {
    fg_digits_present(s) && (fg_i2(s) == s.len() || (fg_has_exp(s) && fg_i3(s) < fg_i4(s)
        && fg_i4(s) == s.len()))
}

/// All mantissa digits, integer part then fractional part.
pub open spec fn mant_digits(s: Seq<u8>) -> Seq<u8> {
    s.subrange(float_sign_end(s), fg_i1(s)) + (if fg_has_dot(s) {
        s.subrange(fg_i1(s) + 1, fg_i2(s))
    } else {
        Seq::<u8>::empty()
    })
}

pub open spec fn all_zero(d: Seq<u8>) -> bool {
    forall|i: int| 0 <= i < d.len() ==> d[i] == 48
}

pub open spec fn first_nonzero(d: Seq<u8>) -> int
    decreases d.len(),
{
    if d.len() == 0 {
        0
    } else if d[0] != 48 {
        0
    } else {
        1 + first_nonzero(d.skip(1))
    }
}

pub open spec fn float_exp_val(s: Seq<u8>) -> int {
    if fg_has_exp(s) {
        let mag = dec_val(s.subrange(fg_i3(s), fg_i4(s)));
        if fg_exp_neg(s) {
            -mag
        } else {
            mag
        }
    } else {
        0
    }
}

/// Power of ten of the most significant nonzero digit's place.
pub open spec fn float_msd_exp(s: Seq<u8>) -> int {
    float_exp_val(s) + (fg_i1(s) - float_sign_end(s)) - 1 - first_nonzero(mant_digits(s))
}

pub open spec fn stream_at(d: Seq<u8>, j: int) -> u8 {
    if 0 <= j < d.len() {
        d[j]
    } else {
        48
    }
}

/// Lexicographic order on digit streams padded with trailing zeros.
pub open spec fn stream_lt(x: Seq<u8>, y: Seq<u8>, j: int) -> bool
    decreases x.len() + y.len() - j,
{
    if j >= x.len() && j >= y.len() {
        false
    } else if stream_at(x, j) < stream_at(y, j) {
        true
    } else if stream_at(x, j) > stream_at(y, j) {
        false
    } else {
        stream_lt(x, y, j + 1)
    }
}

pub open spec fn threshold_chunk(ci: int) -> int {
    if ci == 0 {
        179769313486231580793728971405
    } else if ci == 1 {
        3034150799341327100378269361737
    } else if ci == 2 {
        7898044496829276475094664901797
    } else if ci == 3 {
        7587207096330286416692887910946
    } else if ci == 4 {
        5555478519404026306574886715058
    } else if ci == 5 {
        2068190890200070838367627385484
    } else if ci == 6 {
        5817711531764475730270069855571
    } else if ci == 7 {
        3669596228429148198608349364752
    } else if ci == 8 {
        9271907416844436551070434271155
    } else {
        9699508093042880177904174497792
    }
}

/// Decimal digits of the smallest magnitude that rounds to f64 infinity:
/// the midpoint between the largest finite f64 and the next power of two.
/// The 309 digits are stored as ten 31-digit blocks (the first padded with
/// a leading zero), and digit j is read out of its block by division.
pub open spec fn threshold_digits() -> Seq<u8> {
    Seq::new(309, |j: int| (48 + (threshold_chunk((j + 1) / 31) / pow10((30 - (j + 1) % 31) as nat))
        % 10) as u8)
}

proof fn lemma_pow10_38()
    ensures
        pow10(38) == 100000000000000000000000000000000000000,
        pow10(30) == 1000000000000000000000000000000,
{
    reveal_with_fuel(pow10, 40);
}

fn pow10_u128(e: usize) -> (r: u128)
    requires
        e <= 37,
    ensures
        r as int == pow10(e as nat),
{
    let mut r: u128 = 1;
    let mut i: usize = 0;
    proof {
        lemma_pow10_38();
    }
    while i < e
        invariant
            0 <= i <= e <= 37,
            r as int == pow10(i as nat),
            pow10(38) == 100000000000000000000000000000000000000,
        decreases e - i,
    {
        proof {
            lemma_pow10_monotone((i + 1) as nat, 38);
        }
        r = r * 10;
        i += 1;
    }
    r
}

/// One digit of the overflow threshold, as ASCII.
fn threshold_digit(j: usize) -> (r: u8)
    requires
        j < 309,
    ensures
        r == threshold_digits()[j as int],
{
    let p = j + 1;
    let ci = p / 31;
    let off = p % 31;
    let c: u128 = if ci == 0 {
        179769313486231580793728971405
    } else if ci == 1 {
        3034150799341327100378269361737
    } else if ci == 2 {
        7898044496829276475094664901797
    } else if ci == 3 {
        7587207096330286416692887910946
    } else if ci == 4 {
        5555478519404026306574886715058
    } else if ci == 5 {
        2068190890200070838367627385484
    } else if ci == 6 {
        5817711531764475730270069855571
    } else if ci == 7 {
        3669596228429148198608349364752
    } else if ci == 8 {
        9271907416844436551070434271155
    } else {
        9699508093042880177904174497792
    };
    assert(c as int == threshold_chunk(ci as int));
    let d = pow10_u128(30 - off);
    proof {
        lemma_pow10_positive((30 - off) as nat);
    }
    let r = 48 + ((c / d) % 10) as u8;
    r
}

/// Whether decimal text within the grammar denotes a value whose magnitude
/// rounds to a finite f64, i.e. lies strictly below the overflow midpoint.
pub open spec fn finite_double_text(s: Seq<u8>) -> bool {
    let d = mant_digits(s);
    if all_zero(d) {
        true
    } else {
        let k = float_msd_exp(s);
        k < 308 || (k == 308 && stream_lt(d.skip(first_nonzero(d)), threshold_digits(), 0))
    }
}

} // verus!

verus! {

fn digit_run(s: &[u8], from: usize) -> (r: usize)
    requires
        from <= s@.len(),
    ensures
        r == digit_run_end(s@, from as int),
        from <= r <= s@.len(),
{
    let n = s.len();
    let mut i = from;
    while i < n && 48 <= s[i] && s[i] <= 57
        invariant
            from <= i <= n,
            n == s@.len(),
            digit_run_end(s@, from as int) == digit_run_end(s@, i as int),
        decreases n - i,
    {
        assert(is_digit(s@[i as int]));
        i += 1;
    }
    proof {
        lemma_digit_run_end(s@, i as int);
    }
    i
}

pub struct FloatShape {
    pub ok: bool,
    pub sign_end: usize,
    pub i1: usize,
    pub has_dot: bool,
    pub i2: usize,
    pub has_exp: bool,
    pub exp_neg: bool,
    pub i3: usize,
    pub i4: usize,
}

fn float_scan(s: &[u8]) -> (r: FloatShape)
    ensures
        r.ok == float_grammar(s@),
        r.sign_end == float_sign_end(s@),
        r.i1 == fg_i1(s@),
        r.has_dot == fg_has_dot(s@),
        r.i2 == fg_i2(s@),
        r.has_exp == fg_has_exp(s@),
        r.has_exp ==> (r.exp_neg == fg_exp_neg(s@) && r.i3 == fg_i3(s@) && r.i4 == fg_i4(s@)),
{
    let n = s.len();
    let sign_end: usize = if n > 0 && (s[0] == 43 || s[0] == 45) {
        1
    } else {
        0
    };
    let i1 = digit_run(s, sign_end);
    let has_dot = i1 < n && s[i1] == 46;
    let i2 = if has_dot {
        digit_run(s, i1 + 1)
    } else {
        i1
    };
    let digits_present = i1 > sign_end || (has_dot && i2 > i1 + 1);
    let has_exp = i2 < n && (s[i2] == 101 || s[i2] == 69);
    let mut exp_neg = false;
    let mut i3 = i2;
    let mut i4 = i2;
    let mut ok = digits_present && i2 == n;
    if has_exp {
        exp_neg = i2 + 1 < n && s[i2 + 1] == 45;
        i3 = if i2 + 1 < n && (s[i2 + 1] == 43 || s[i2 + 1] == 45) {
            i2 + 2
        } else {
            i2 + 1
        };
        if i3 <= n {
            i4 = digit_run(s, i3);
            ok = digits_present && i4 > i3 && i4 == n;
        } else {
            // exponent sign at the very end of the text
            i4 = i3;
            ok = false;
            proof {
                lemma_digit_run_end(s@, fg_i3(s@));
            }
        }
    }
    FloatShape { ok, sign_end, i1, has_dot, i2, has_exp, exp_neg, i3, i4 }
}

/// Whether the bytes fit the decimal grammar of str::parse::<f64>.
pub fn check_float_text(s: &[u8]) -> (r: bool)
    ensures
        r == float_grammar(s@),
{
    float_scan(s).ok
}

proof fn lemma_first_nonzero_at(d: Seq<u8>, f: int)
    requires
        0 <= f <= d.len(),
        forall|j: int| 0 <= j < f ==> d[j] == 48,
        f < d.len() ==> d[f] != 48,
    ensures
        f < d.len() ==> first_nonzero(d) == f,
        f == d.len() ==> all_zero(d),
    decreases f,
{
    if f > 0 && f <= d.len() {
        let t = d.skip(1);
        assert(forall|j: int| 0 <= j < f - 1 ==> t[j] == d[j + 1] && d[j + 1] == 48);
        if f - 1 < t.len() {
            assert(t[f - 1] == d[f]);
        }
        lemma_first_nonzero_at(t, f - 1);
        if f == d.len() {
            assert(all_zero(t));
            assert(forall|j: int| 0 <= j < d.len() ==> d[j] == 48) by {
                assert(forall|j: int| 1 <= j < d.len() ==> d[j] == t[j - 1]);
            }
        }
    }
}

/// Whether grammatical double text denotes a finite f64 value.
pub fn is_finite_double_text(s: &[u8]) -> (r: bool)
    requires
        float_grammar(s@),
    ensures
        r == finite_double_text(s@),
{
    let sh = float_scan(s);
    let n = s.len();
    // gather the mantissa digits
    let mut d: Vec<u8> = Vec::new();
    let mut j: usize = sh.sign_end;
    while j < sh.i1
        invariant
            sh.sign_end <= j <= sh.i1,
            sh.sign_end == float_sign_end(s@),
            sh.i1 == fg_i1(s@) <= s@.len(),
            d@ =~= s@.subrange(sh.sign_end as int, j as int),
        decreases sh.i1 - j,
    {
        proof {
            lemma_digit_run_end(s@, float_sign_end(s@));
        }
        d.push(s[j]);
        j += 1;
        assert(d@ =~= s@.subrange(sh.sign_end as int, j as int));
    }
    if sh.has_dot {
        proof {
            assert(fg_i1(s@) < s@.len());
            lemma_digit_run_end(s@, fg_i1(s@) + 1);
        }
        let mut j2: usize = sh.i1 + 1;
        while j2 < sh.i2
            invariant
                sh.i1 + 1 <= j2 <= sh.i2,
                sh.i1 == fg_i1(s@),
                sh.i2 == fg_i2(s@) <= s@.len(),
                fg_has_dot(s@),
                sh.sign_end == float_sign_end(s@),
                d@ =~= s@.subrange(sh.sign_end as int, sh.i1 as int) + s@.subrange(
                    sh.i1 as int + 1,
                    j2 as int,
                ),
            decreases sh.i2 - j2,
        {
            proof {
                lemma_digit_run_end(s@, fg_i1(s@) + 1);
            }
            d.push(s[j2]);
            j2 += 1;
            assert(d@ =~= s@.subrange(sh.sign_end as int, sh.i1 as int) + s@.subrange(
                sh.i1 as int + 1,
                j2 as int,
            ));
        }
    }
    assert(d@ =~= mant_digits(s@));
    // first significant digit
    let mut f: usize = 0;
    while f < d.len() && d[f] == 48
        invariant
            0 <= f <= d@.len(),
            forall|k: int| 0 <= k < f ==> d@[k] == 48,
        decreases d@.len() - f,
    {
        f += 1;
    }
    if f == d.len() {
        proof {
            lemma_first_nonzero_at(d@, f as int);
        }
        return true;
    }
    proof {
        lemma_first_nonzero_at(d@, f as int);
    }
    // exponent value, saturated far beyond any decisive magnitude
    let ghost exp_digits: Seq<u8> = if fg_has_exp(s@) {
        s@.subrange(fg_i3(s@), fg_i4(s@))
    } else {
        Seq::<u8>::empty()
    };
    let mut e_sat = false;
    let mut e_mag: u128 = 0;
    if sh.has_exp {
        proof {
            lemma_digit_run_end(s@, fg_i3(s@));
        }
        let mut z = sh.i3;
        while z < sh.i4 && s[z] == 48
            invariant
                sh.i3 <= z <= sh.i4,
                sh.i4 == fg_i4(s@) <= s@.len(),
                sh.i3 == fg_i3(s@),
                forall|k: int| sh.i3 <= k < z ==> s@[k] == 48,
            decreases sh.i4 - z,
        {
            z += 1;
        }
        proof {
            let full = s@.subrange(fg_i3(s@), fg_i4(s@));
            lemma_dec_val_zeros_prefix(full, z - sh.i3);
            assert(full.skip(z - sh.i3) =~= s@.subrange(z as int, fg_i4(s@)));
        }
        let ghost sig = s@.subrange(z as int, fg_i4(s@));
        if sh.i4 - z > 38 {
            e_sat = true;
            proof {
                lemma_digit_run_end(s@, fg_i3(s@));
                assert(sig[0] == s@[z as int]);
                assert(forall|k: int| 0 <= k < sig.len() ==> sig[k] == s@[k + z]);
                lemma_dec_val_lower(sig);
                lemma_pow10_38();
                lemma_pow10_monotone(38, (sig.len() - 1) as nat);
            }
        } else {
            let mut val: u128 = 0;
            let mut w: usize = z;
            proof {
                lemma_pow10_38();
            }
            while w < sh.i4
                invariant
                    z <= w <= sh.i4,
                    sh.i4 == fg_i4(s@) <= s@.len(),
                    sh.i3 == fg_i3(s@) <= z,
                    sh.i4 - z <= 38,
                    fg_has_exp(s@),
                    sig =~= s@.subrange(z as int, fg_i4(s@)),
                    val == dec_val(s@.subrange(z as int, w as int)),
                    val <= pow10((w - z) as nat) - 1,
                    pow10(38) == 100000000000000000000000000000000000000,
                decreases sh.i4 - w,
            {
                proof {
                    lemma_digit_run_end(s@, fg_i3(s@));
                    assert(is_digit(s@[w as int]));
                    lemma_pow10_monotone((w - z) as nat, 37);
                    assert(pow10(38) == 10 * pow10(37));
                }
                let dg = s[w] - 48;
                val = val * 10 + (dg as u128);
                w += 1;
                proof {
                    assert(s@.subrange(z as int, w as int).drop_last() =~= s@.subrange(
                        z as int,
                        w as int - 1,
                    ));
                    assert(s@.subrange(z as int, w as int).last() == s@[w - 1]);
                    assert(pow10((w - z) as nat) == 10 * pow10((w - 1 - z) as nat));
                }
            }
            e_mag = val;
            proof {
                assert(s@.subrange(z as int, sh.i4 as int) =~= sig);
                assert(val as int == dec_val(sig));
                assert(dec_val(exp_digits) == dec_val(sig));
                lemma_pow10_monotone((sh.i4 - z) as nat, 38);
                assert(val <= pow10(38) - 1);
            }
        }
    }
    proof {
        lemma_pow10_38();
        if fg_has_exp(s@) {
            lemma_digit_run_end(s@, fg_i3(s@));
        }
        lemma_dec_val_nonneg(exp_digits);
        assert(e_mag as int <= pow10(38));
        if !e_sat {
            assert(e_mag as int == dec_val(exp_digits));
        }
    }
    // exponent of the most significant digit
    let m_term: i128 = (sh.i1 as i128) - (sh.sign_end as i128) - 1 - (f as i128);
    let sat_bound: i128 = 100000000000000000000000000000000000000;
    assert(m_term < 100000000000000000000 && m_term > -100000000000000000000);
    let e_signed: i128 = if e_sat {
        if sh.exp_neg {
            -sat_bound
        } else {
            sat_bound
        }
    } else {
        if sh.exp_neg {
            -(e_mag as i128)
        } else {
            e_mag as i128
        }
    };
    let k: i128 = e_signed + m_term;
    let ghost ks = float_msd_exp(s@);
    proof {
        assert(!all_zero(d@)) by {
            assert(d@[f as int] != 48);
        }
        if !e_sat {
            assert(e_signed == float_exp_val(s@));
            assert(k == ks);
        } else {
            // dec_val of the exponent digits is at least 10^38, far past any
            // magnitude where the mantissa offset could matter
            if sh.exp_neg {
                assert(float_exp_val(s@) <= -pow10(38));
                assert(ks < 308);
                assert(k < 308);
            } else {
                assert(float_exp_val(s@) >= pow10(38));
                assert(ks > 308);
                assert(k > 308);
            }
        }
    }
    if k < 308 {
        proof {
            assert(ks < 308);
        }
        return true;
    }
    if k > 308 {
        proof {
            assert(ks > 308);
        }
        return false;
    }
    assert(ks == 308);
    // k == 308: compare the significant digits with the overflow threshold
    let ghost x = d@.skip(f as int);
    let dl = d.len() - f;
    let mut cj: usize = 0;
    loop
        invariant
            0 <= cj,
            f < d@.len(),
            dl == d@.len() - f,
            f + dl <= usize::MAX,
            x =~= d@.skip(f as int),
            d@ == mant_digits(s@),
            f as int == first_nonzero(d@),
            !all_zero(d@),
            float_msd_exp(s@) == 308,
            stream_lt(x, threshold_digits(), 0) == stream_lt(x, threshold_digits(), cj as int),
        decreases (if dl > 309 { dl } else { 309 }) + 1 - cj,
    {
        if cj >= dl && cj >= 309 {
            assert(!stream_lt(x, threshold_digits(), cj as int));
            return false;
        }
        let dx: u8 = if cj < dl {
            proof {
                assert(f + cj < d@.len());
            }
            d[f + cj]
        } else {
            48
        };
        let dy: u8 = if cj < 309 {
            threshold_digit(cj)
        } else {
            48
        };
        proof {
            assert(threshold_digits().len() == 309);
            assert(stream_at(x, cj as int) == dx);
            assert(stream_at(threshold_digits(), cj as int) == dy);
        }
        if dx < dy {
            assert(stream_lt(x, threshold_digits(), cj as int));
            return true;
        }
        if dx > dy {
            assert(!stream_lt(x, threshold_digits(), cj as int));
            return false;
        }
        cj += 1;
    }
}

} // verus!

verus! {

/// The symbolic forms that str::parse::<f64> accepts besides decimal text:
/// an optional sign followed by inf, infinity or nan in any letter case.
pub open spec fn symbolic_float_text(s: Seq<u8>) -> bool {
    let b = spec_upper_seq(s.skip(float_sign_end(s)));
    b == seq![73u8, 78, 70] || b == seq![73u8, 78, 70, 73, 78, 73, 84, 89] || b == seq![
        78u8,
        65,
        78,
    ]
}

fn upper_matches(s: &[u8], from: usize, lit: &Vec<u8>) -> (r: bool)
    requires
        from <= s@.len(),
    ensures
        r == (spec_upper_seq(s@.skip(from as int)) == lit@),
{
    let ghost b = spec_upper_seq(s@.skip(from as int));
    let n = s.len();
    let m = lit.len();
    if n - from != m {
        proof {
            assert(b.len() != lit@.len());
        }
        return false;
    }
    let mut i: usize = 0;
    while i < m
        invariant
            0 <= i <= m,
            m == lit@.len(),
            from + m == s@.len(),
            from + m <= usize::MAX,
            from <= s@.len(),
            b == spec_upper_seq(s@.skip(from as int)),
            b.len() == m,
            forall|j: int| 0 <= j < i ==> b[j] == lit@[j],
        decreases m - i,
    {
        let c = s[from + i];
        let u = if 97 <= c && c <= 122 {
            c - 32
        } else {
            c
        };
        proof {
            assert(s@.skip(from as int)[i as int] == s@[from + i]);
            assert(b[i as int] == spec_upper(s@[from + i]));
        }
        if u != lit[i] {
            proof {
                assert(b[i as int] != lit@[i as int]);
            }
            return false;
        }
        i += 1;
    }
    proof {
        assert(b =~= lit@);
    }
    true
}

/// Whether the bytes are a symbolic (non-finite) float form.
pub fn check_symbolic_float(s: &[u8]) -> (r: bool)
    ensures
        r == symbolic_float_text(s@),
{
    let n = s.len();
    let e: usize = if n > 0 && (s[0] == 43 || s[0] == 45) {
        1
    } else {
        0
    };
    let inf: Vec<u8> = vec![73u8, 78, 70];
    let infinity: Vec<u8> = vec![73u8, 78, 70, 73, 78, 73, 84, 89];
    let nan: Vec<u8> = vec![78u8, 65, 78];
    assert(inf@ =~= seq![73u8, 78, 70]);
    assert(infinity@ =~= seq![73u8, 78, 70, 73, 78, 73, 84, 89]);
    assert(nan@ =~= seq![78u8, 65, 78]);
    upper_matches(s, e, &inf) || upper_matches(s, e, &infinity) || upper_matches(s, e, &nan)
}

} // verus!

verus! {

/// The grammar of str::parse::<u64>: an optional plus sign and digits.
pub open spec fn uint_grammar(s: Seq<u8>) -> bool {
    if s.len() == 0 {
        false
    } else if s[0] == 43 {
        s.len() > 1 && all_digits(s.skip(1))
    } else {
        all_digits(s)
    }
}

pub open spec fn uint_digits(s: Seq<u8>) -> Seq<u8> {
    if s.len() > 0 && s[0] == 43 {
        s.skip(1)
    } else {
        s
    }
}

pub open spec fn spec_parse_u64(s: Seq<u8>) -> Option<u64> {
    if uint_grammar(s) && dec_val(uint_digits(s)) <= u64::MAX {
        Some(dec_val(uint_digits(s)) as u64)
    } else {
        None
    }
}

proof fn lemma_pow10_20()
    ensures
        pow10(20) == 100000000000000000000,
{
    reveal_with_fuel(pow10, 22);
}

/// Parse the decimal text of a `u64` exactly as `str::parse::<u64>` does.
pub fn parse_u64_text(s: &[u8]) -> (r: Option<u64>)
    ensures
        r == spec_parse_u64(s@),
{
    let n = s.len();
    if n == 0 {
        return None;
    }
    let start: usize = if s[0] == 43 {
        1
    } else {
        0
    };
    if n == start {
        return None;
    }
    let ghost digits = uint_digits(s@);
    assert(digits =~= s@.skip(start as int));
    let mut i: usize = start;
    while i < n
        invariant
            start <= i <= n,
            n == s@.len(),
            start == 0 || start == 1,
            digits == uint_digits(s@),
            digits == s@.skip(start as int),
            forall|k: int| start <= k < i ==> is_digit(#[trigger] s@[k]),
        decreases n - i,
    {
        if !(48 <= s[i] && s[i] <= 57) {
            proof {
                assert(!is_digit(s@[i as int]));
                assert(digits[i - start] == s@[i as int]);
                assert(!all_digits(uint_digits(s@)));
            }
            return None;
        }
        i += 1;
    }
    assert(all_digits(digits)) by {
        assert(forall|k: int| 0 <= k < digits.len() ==> digits[k] == s@[k + start]);
    }
    assert(uint_grammar(s@));
    let mut z: usize = start;
    while z < n && s[z] == 48
        invariant
            start <= z <= n,
            n == s@.len(),
            forall|k: int| start <= k < z ==> s@[k] == 48,
        decreases n - z,
    {
        z += 1;
    }
    let ghost sig = s@.skip(z as int);
    proof {
        lemma_dec_val_zeros_prefix(digits, z - start);
        assert(digits.skip(z - start) =~= sig);
        assert(dec_val(digits) == dec_val(sig));
    }
    if n - z > 20 {
        proof {
            assert(sig[0] == s@[z as int]);
            assert(sig[0] != 48 && is_digit(sig[0]));
            assert(forall|k: int| 0 <= k < sig.len() ==> sig[k] == s@[k + z]);
            lemma_dec_val_lower(sig);
            lemma_pow10_20();
            lemma_pow10_monotone(20, (sig.len() - 1) as nat);
        }
        return None;
    }
    let mut val: u128 = 0;
    let mut j: usize = z;
    while j < n
        invariant
            z <= j <= n,
            n == s@.len(),
            n - z <= 20,
            all_digits(sig),
            sig =~= s@.skip(z as int),
            val == dec_val(s@.subrange(z as int, j as int)),
            val <= pow10((j - z) as nat) - 1,
        decreases n - j,
    {
        proof {
            assert(sig[j - z] == s@[j as int]);
            assert(is_digit(s@[j as int]));
            lemma_pow10_monotone((j - z) as nat, 19);
            lemma_pow10_20();
            assert(pow10(20) == 10 * pow10(19));
        }
        let d = s[j] - 48;
        val = val * 10 + (d as u128);
        j += 1;
        proof {
            assert(s@.subrange(z as int, j as int).drop_last() =~= s@.subrange(
                z as int,
                j as int - 1,
            ));
            assert(s@.subrange(z as int, j as int).last() == s@[j - 1]);
            assert(pow10((j - z) as nat) == 10 * pow10((j - 1 - z) as nat));
        }
    }
    proof {
        assert(s@.subrange(z as int, n as int) =~= sig);
        lemma_dec_val_nonneg(digits);
    }
    if val > 0xffff_ffff_ffff_ffffu128 {
        return None;
    }
    Some(val as u64)
}

} // verus!

verus! {

/// ASCII bytes are well-formed UTF-8.
pub proof fn lemma_ascii_utf8(s: Seq<u8>)
    requires
        forall|i: int| 0 <= i < s.len() ==> s[i] <= 0x7f,
    ensures
        is_utf8(s),
    decreases s.len(),
{
    if s.len() > 0 {
        lemma_ascii_utf8(s.skip(1));
    }
}

/// The canonical decimal text of an integer parses back to it.
pub proof fn lemma_parse_idec(i: int)
    requires
        i64::MIN <= i <= i64::MAX,
    ensures
        spec_parse_i64(spec_idec(i)) == Option::Some(i as i64),
        all_digits(int_digits(spec_idec(i))),
        forall|k: int|
            0 <= k < spec_idec(i).len() ==> #[trigger] spec_idec(i)[k] != 13 && spec_idec(i)[k]
                <= 0x7f,
        spec_idec(i).len() >= 1,
{
    if i >= 0 {
        lemma_udec_digits(i);
        assert(int_digits(spec_idec(i)) =~= spec_udec(i)) by {
            assert(is_digit(spec_udec(i)[0]));
        }
        assert(int_grammar(spec_idec(i)));
        assert(int_val(spec_idec(i)) == i) by {
            assert(!(spec_udec(i)[0] == 45));
        }
    } else {
        lemma_udec_digits(-i);
        let s = spec_idec(i);
        assert(s == seq![45u8] + spec_udec(-i));
        assert(s[0] == 45);
        assert(s.skip(1) =~= spec_udec(-i));
        assert(int_grammar(s));
        assert(int_val(s) == -dec_val(spec_udec(-i)));
    }
    assert forall|k: int| 0 <= k < spec_idec(i).len() implies #[trigger] spec_idec(i)[k] != 13
        && spec_idec(i)[k] <= 0x7f by {
        let s = spec_idec(i);
        if i >= 0 {
            assert(is_digit(s[k]));
        } else {
            if k > 0 {
                assert(s[k] == spec_udec(-i)[k - 1]);
                assert(is_digit(spec_udec(-i)[k - 1]));
            }
        }
    }
}

/// Decimal float text is CR-free ASCII.
pub proof fn lemma_float_text_ascii(t: Seq<u8>)
    requires
        float_grammar(t),
    ensures
        forall|k: int| 0 <= k < t.len() ==> #[trigger] t[k] != 13 && t[k] <= 0x7f,
{
    lemma_digit_run_end(t, float_sign_end(t));
    if fg_has_dot(t) {
        lemma_digit_run_end(t, fg_i1(t) + 1);
    }
    if fg_has_exp(t) {
        lemma_digit_run_end(t, fg_i3(t));
    }
    assert forall|k: int| 0 <= k < t.len() implies #[trigger] t[k] != 13 && t[k] <= 0x7f by {
        let i0 = float_sign_end(t);
        let i1 = fg_i1(t);
        let i2 = fg_i2(t);
        if k < i0 {
            assert(t[0] == 43 || t[0] == 45);
        } else if k < i1 {
            assert(is_digit(t[k]));
        } else if fg_has_dot(t) && k == i1 {
            assert(t[k] == 46);
        } else if fg_has_dot(t) && k < i2 {
            assert(is_digit(t[k]));
        } else if k == i2 {
            assert(fg_has_exp(t));
            assert(t[k] == 101 || t[k] == 69);
        } else {
            assert(fg_has_exp(t));
            let i3 = fg_i3(t);
            if k < i3 {
                assert(t[k] == 43 || t[k] == 45);
            } else {
                assert(k < fg_i4(t));
                assert(is_digit(t[k]));
            }
        }
    }
}

/// Decimal float text is not one of the exact symbolic spellings, nor any
/// spelling of them in another letter case.
pub proof fn lemma_float_text_not_symbolic(t: Seq<u8>)
    requires
        float_grammar(t),
    ensures
        !symbolic_float_text(t),
        t != seq![105u8, 110, 102],
        t != seq![45u8, 105, 110, 102],
        t != seq![110u8, 97, 110],
{
    let e = float_sign_end(t);
    lemma_digit_run_end(t, e);
    // within the grammar, the byte after any sign is a digit or a dot
    assert(e < t.len());
    assert(is_digit(t[e]) || t[e] == 46) by {
        if fg_i1(t) == e {
            assert(fg_has_dot(t));
        }
    }
    if symbolic_float_text(t) {
        let b = spec_upper_seq(t.skip(e));
        assert(b[0] == spec_upper(t[e]));
        assert(b[0] == 73 || b[0] == 78);
        assert(false);
    }
    if t == seq![105u8, 110, 102] {
        assert(t[0] == 105);
        assert(false);
    }
    if t == seq![45u8, 105, 110, 102] {
        assert(t[1] == 105);
        assert(e == 1);
        assert(false);
    }
    if t == seq![110u8, 97, 110] {
        assert(t[0] == 110);
        assert(false);
    }
}

} // verus!
