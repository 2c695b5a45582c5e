//! The decimal digit machinery shared by every integer writer.
//!
//! The executable encoder works in groups of four digits, the shape a
//! 10000-entry chunk lookup table gives: [`chunk_entry`] produces the
//! fixed-width, zero-padded four-byte ASCII group that such a table would
//! hold for an index below 10000. The specification side defines the
//! conventional decimal text of a number ([`dec_str`]), its digit count
//! ([`dec_len`]), and a standard decimal parser ([`parse_dec`]) against
//! which the round-trip laws are proved.

use vstd::prelude::*;
use vstd::arithmetic::div_mod::{
    lemma_div_denominator, lemma_div_multiples_vanish_fancy, lemma_mod_breakdown, lemma_mod_mod,
    lemma_small_mod,
};

verus! {

/// The number of digits in the conventional decimal representation of `v`;
/// `0` is written as the single digit `0`.
pub open spec fn dec_len(v: nat) -> nat
    decreases v,
{
    if v < 10 {
        1
    } else {
        1 + dec_len(v / 10)
    }
}

/// The ASCII bytes of the conventional decimal representation of `v`,
/// most significant digit first, with no leading zeros (except for `"0"` itself).
pub open spec fn dec_str(v: nat) -> Seq<u8>
    decreases v,
{
    if v < 10 {
        seq![(v + 48) as u8]
    } else {
        dec_str(v / 10).push((v % 10 + 48) as u8)
    }
}

/// The ASCII bytes of the decimal representation of a signed value:
/// a leading `-` if and only if `v` is negative, then the digits of its magnitude.
pub open spec fn sdec_str(v: int) -> Seq<u8> {
    if v < 0 {
        seq![45u8] + dec_str((-v) as nat)
    } else {
        dec_str(v as nat)
    }
}

/// `10^k`.
pub open spec fn pow10(k: nat) -> nat
    decreases k,
{
    if k == 0 {
        1
    } else {
        10 * pow10((k - 1) as nat)
    }
}

/// A standard decimal parser over ASCII digit bytes: the numeric value of `s`
/// read most significant digit first.
pub open spec fn parse_dec(s: Seq<u8>) -> int
    decreases s.len(),
{
    if s.len() == 0 {
        0
    } else {
        parse_dec(s.drop_last()) * 10 + (s.last() - 48)
    }
}

/// A standard decimal parser for signed text: a leading `-` negates the
/// value of the remaining digits.
pub open spec fn parse_sdec(s: Seq<u8>) -> int {
    if s.len() > 0 && s[0] == 45 {
        -parse_dec(s.drop_first())
    } else {
        parse_dec(s)
    }
}

/// The entry a 10000-entry chunk lookup table holds at index `v % 10000`:
/// the four least significant decimal digits of `v` as fixed-width,
/// zero-padded ASCII.
pub open spec fn chunk4(v: nat) -> Seq<u8> {
    seq![
        ((v / 1000) % 10 + 48) as u8,
        ((v / 100) % 10 + 48) as u8,
        ((v / 10) % 10 + 48) as u8,
        (v % 10 + 48) as u8,
    ]
}

/// The decimal text of `v` is exactly `dec_len(v)` bytes long.
pub proof fn lemma_dec_str_len(v: nat)
    ensures
        dec_str(v).len() == dec_len(v),
    decreases v,
{
    if v >= 10 {
        lemma_dec_str_len(v / 10);
    }
}

/// Every byte of the decimal text of `v` is an ASCII digit.
pub proof fn lemma_dec_str_digits(v: nat)
    ensures
        forall|i: int| 0 <= i < dec_str(v).len() ==> 48 <= #[trigger] dec_str(v)[i] <= 57,
    decreases v,
{
    if v >= 10 {
        lemma_dec_str_digits(v / 10);
        let s = dec_str(v / 10);
        let d = (v % 10 + 48) as u8;
        assert(dec_str(v) == s.push(d));
        assert forall|i: int| 0 <= i < dec_str(v).len() implies 48 <= #[trigger] dec_str(
            v,
        )[i] <= 57 by {
            if i < s.len() {
                assert(dec_str(v)[i] == s[i]);
            } else {
                assert(dec_str(v)[i] == d);
            }
        }
    }
}

/// Round trip: parsing the decimal text of `v` with a standard decimal
/// parser yields exactly `v`, for every natural number `v`.
pub proof fn lemma_dec_round_trip(v: nat)
    ensures
        parse_dec(dec_str(v)) == v,
    decreases v,
{
    let s = dec_str(v);
    if v < 10 {
        assert(s =~= seq![(v + 48) as u8]);
        assert(s.drop_last() =~= Seq::<u8>::empty());
        assert(parse_dec(s.drop_last()) == 0);
        assert(s.last() == (v + 48) as u8);
        assert(parse_dec(s) == parse_dec(s.drop_last()) * 10 + (s.last() - 48));
    } else {
        lemma_dec_round_trip(v / 10);
        assert(s == dec_str(v / 10).push((v % 10 + 48) as u8));
        assert(s.drop_last() =~= dec_str(v / 10));
        assert(s.last() == (v % 10 + 48) as u8);
        assert(parse_dec(s) == parse_dec(s.drop_last()) * 10 + (s.last() - 48));
        assert(parse_dec(s) == (v / 10) * 10 + v % 10);
    }
}

/// Round trip, signed: parsing the signed decimal text of `v` yields exactly
/// `v`, the text carrying a leading `-` if and only if `v` is negative.
pub proof fn lemma_sdec_round_trip(v: int)
    ensures
        parse_sdec(sdec_str(v)) == v,
        v < 0 <==> sdec_str(v)[0] == 45,
{
    if v < 0 {
        let m = (-v) as nat;
        assert(sdec_str(v).drop_first() =~= dec_str(m));
        lemma_dec_round_trip(m);
    } else {
        lemma_dec_str_digits(v as nat);
        lemma_dec_round_trip(v as nat);
    }
}

/// Exact length, signed: the signed decimal text of `v` is one byte longer
/// than the digit count of its magnitude exactly when `v` is negative.
pub proof fn lemma_sdec_str_len(v: int)
    ensures
        v >= 0 ==> sdec_str(v).len() == dec_len(v as nat),
        v < 0 ==> sdec_str(v).len() == 1 + dec_len((-v) as nat),
{
    if v < 0 {
        lemma_dec_str_len((-v) as nat);
    } else {
        lemma_dec_str_len(v as nat);
    }
}

/// The digit count is the conventional one: for `v > 0`, `dec_len(v)` is the
/// unique `k` with `10^(k-1) <= v < 10^k`.
pub proof fn lemma_dec_len_pow10(v: nat)
    requires
        v > 0,
    ensures
        pow10((dec_len(v) - 1) as nat) <= v < pow10(dec_len(v)),
    decreases v,
{
    if v < 10 {
    } else {
        lemma_dec_len_pow10(v / 10);
        let k = dec_len(v / 10);
        assert(v / 10 < pow10(k));
        assert(v == 10 * (v / 10) + v % 10);
        assert(v < 10 * pow10(k));
        assert(pow10(k) == 10 * pow10((k - 1) as nat));
        assert(v >= 10 * pow10((k - 1) as nat));
    }
}

/// A value below `10^k` has at most `k` digits.
pub proof fn lemma_dec_len_le(v: nat, k: nat)
    requires
        v < pow10(k),
        k >= 1,
    ensures
        dec_len(v) <= k,
    decreases k,
{
    if v < 10 {
    } else {
        assert(pow10(k) == 10 * pow10((k - 1) as nat));
        assert(v / 10 < pow10((k - 1) as nat)) by {
            assert(10 * (v / 10) <= v);
        };
        assert(pow10((k - 1) as nat) > 1) by {
            if k - 1 == 0 {
                assert(pow10(0) == 1);
                assert(v < 10);
            }
        };
        lemma_dec_len_le(v / 10, (k - 1) as nat);
    }
}

// Exchanging an outer modulus with an inner division: the low bits survive.
proof fn lemma_mod_div_swap(v: nat, a: nat, b: nat)
    requires
        a > 0,
        b > 0,
    ensures
        (v % (a * b)) / a == (v / a) % b,
{
    let q = ((v as int) / (a as int)) % (b as int);
    let r = (v as int) % (a as int);
    lemma_mod_breakdown(v as int, a as int, b as int);
    assert((v as int) % ((a * b) as int) == (a as int) * q + r);
    lemma_div_multiples_vanish_fancy(q, r, a as int);
    assert(((a as int) * q + r) / (a as int) == q);
}

/// The chunk table entry depends only on the four low digits.
proof fn lemma_chunk4_mod(v: nat)
    ensures
        chunk4(v % 10000) == chunk4(v),
{
    let w = v % 10000;
    lemma_mod_div_swap(v, 1000, 10);
    lemma_small_mod((v / 1000) % 10, 10);
    assert((w / 1000) % 10 == (v / 1000) % 10);
    lemma_mod_div_swap(v, 100, 100);
    lemma_mod_mod((v / 100) as int, 10, 10);
    assert((w / 100) % 10 == (v / 100) % 10);
    lemma_mod_div_swap(v, 10, 1000);
    lemma_mod_mod((v / 10) as int, 10, 100);
    assert((w / 10) % 10 == (v / 10) % 10);
    lemma_mod_mod(v as int, 10, 1000);
    assert(w % 10 == v % 10);
    assert(chunk4(w) =~= chunk4(v));
}

// One decimal digit peeled off the right end of the text.
proof fn lemma_dec_str_unfold1(v: nat)
    requires
        v >= 10,
    ensures
        dec_str(v) == dec_str(v / 10) + seq![(v % 10 + 48) as u8],
        dec_len(v) == 1 + dec_len(v / 10),
{
    assert(dec_str(v) =~= dec_str(v / 10) + seq![(v % 10 + 48) as u8]);
}

/// Peeling one four-digit chunk off the right end: the decimal text of `v`
/// is the text of `v / 10000` followed by the chunk table entry for
/// `v % 10000`, and the digit count drops by exactly four.
pub proof fn lemma_dec_str_unfold4(v: nat)
    requires
        v >= 10000,
    ensures
        dec_str(v) == dec_str(v / 10000) + chunk4(v % 10000),
        dec_len(v) == 4 + dec_len(v / 10000),
{
    let q1 = v / 10;
    let q2 = v / 100;
    let q3 = v / 1000;
    let q4 = v / 10000;
    lemma_div_denominator(v as int, 10, 10);
    assert(q1 / 10 == q2);
    lemma_div_denominator(v as int, 100, 10);
    assert(q2 / 10 == q3);
    lemma_div_denominator(v as int, 1000, 10);
    assert(q3 / 10 == q4);
    assert(10 * q1 + v % 10 == v);
    assert(q1 >= 1000);
    assert(10 * (q1 / 10) + q1 % 10 == q1);
    assert(q2 >= 100);
    assert(q3 >= 10);
    lemma_dec_str_unfold1(v);
    lemma_dec_str_unfold1(q1);
    lemma_dec_str_unfold1(q2);
    lemma_dec_str_unfold1(q3);
    lemma_chunk4_mod(v);
    assert(dec_str(v) =~= dec_str(q4) + chunk4(v));
}

/// Below 10000 the decimal text is a suffix of the chunk table entry: the
/// last `dec_len(v)` of its four zero-padded digits.
pub proof fn lemma_dec_str_small(v: nat)
    requires
        v < 10000,
    ensures
        dec_len(v) == if v < 10 {
            1nat
        } else if v < 100 {
            2nat
        } else if v < 1000 {
            3nat
        } else {
            4nat
        },
        dec_str(v) == chunk4(v).subrange(4 - dec_len(v), 4),
{
    if v < 10 {
        lemma_small_mod(v, 10);
        assert(dec_str(v) =~= chunk4(v).subrange(3, 4));
    } else if v < 100 {
        lemma_dec_str_unfold1(v);
        lemma_small_mod(v / 10, 10);
        assert(dec_str(v / 10) =~= seq![(v / 10 % 10 + 48) as u8]);
        assert(dec_str(v) =~= chunk4(v).subrange(2, 4));
    } else if v < 1000 {
        lemma_div_denominator(v as int, 10, 10);
        lemma_dec_str_unfold1(v);
        lemma_dec_str_unfold1(v / 10);
        assert(v / 10 / 10 == v / 100);
        assert(v / 10 >= 10);
        assert(v / 100 < 10);
        lemma_small_mod(v / 100, 10);
        assert(dec_str(v / 100) =~= seq![(v / 100 % 10 + 48) as u8]);
        assert(dec_str(v) =~= chunk4(v).subrange(1, 4));
    } else {
        lemma_div_denominator(v as int, 10, 10);
        lemma_div_denominator(v as int, 100, 10);
        lemma_dec_str_unfold1(v);
        lemma_dec_str_unfold1(v / 10);
        lemma_dec_str_unfold1(v / 100);
        assert(v / 10 / 10 == v / 100);
        assert(v / 100 / 10 == v / 1000);
        assert(v / 10 >= 100);
        assert(v / 100 >= 10);
        assert(v / 1000 < 10);
        lemma_small_mod(v / 1000, 10);
        assert(dec_str(v / 1000) =~= seq![(v / 1000 % 10 + 48) as u8]);
        assert(dec_str(v) =~= chunk4(v).subrange(0, 4));
    }
}

/// No 128-bit value has more than 39 decimal digits.
pub proof fn lemma_dec_len_u128(v: nat)
    requires
        v <= u128::MAX,
    ensures
        dec_len(v) <= 39,
{
    assert(pow10(39) > u128::MAX) by {
        reveal_with_fuel(pow10, 40);
    };
    lemma_dec_len_le(v, 39);
}

/// The decimal digit count of a non-zero value, found by repeated division.
pub(crate) fn digit_count(value: u128) -> (r: usize)
    requires
        value > 0,
    ensures
        r == dec_len(value as nat),
        1 <= r <= 39,
{
    proof {
        lemma_dec_len_u128(value as nat);
    }
    let mut n: u128 = value;
    let mut c: usize = 0;
    while n > 0
        invariant
            c <= 39,
            dec_len(value as nat) <= 39,
            n > 0 ==> dec_len(value as nat) == c + dec_len(n as nat),
            n == 0 ==> c >= 1 && dec_len(value as nat) == c,
        decreases n,
    {
        n = n / 10;
        c = c + 1;
    }
    c
}

/// The fixed-width, zero-padded four-digit ASCII group for `value`: exactly
/// the entry a 10000-entry chunk lookup table would hold at that index,
/// computed on demand.
pub(crate) fn chunk_entry(value: u16) -> (r: (u8, u8, u8, u8))
    requires
        value < 10000,
    ensures
        r.0 == chunk4(value as nat)[0],
        r.1 == chunk4(value as nat)[1],
        r.2 == chunk4(value as nat)[2],
        r.3 == chunk4(value as nat)[3],
{
    proof {
        lemma_small_mod((value as nat) / 1000, 10);
    }
    let d0 = (value / 1000) as u8 + 48;
    let d1 = ((value / 100) % 10) as u8 + 48;
    let d2 = ((value / 10) % 10) as u8 + 48;
    let d3 = (value % 10) as u8 + 48;
    (d0, d1, d2, d3)
}

} // verus!
