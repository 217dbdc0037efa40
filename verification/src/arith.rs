//! Division and remainder facts about the base-85 and base-256 digit
//! decompositions of a block value.

use vstd::prelude::*;

use vstd::arithmetic::div_mod::lemma_breakdown;
use vstd::arithmetic::div_mod::lemma_div_denominator;
use vstd::arithmetic::div_mod::lemma_div_pos_is_pos;
use vstd::arithmetic::div_mod::lemma_fundamental_div_mod;
use vstd::arithmetic::div_mod::lemma_fundamental_div_mod_converse_div;
use vstd::arithmetic::div_mod::lemma_fundamental_div_mod_converse_mod;
use vstd::arithmetic::div_mod::lemma_mod_division_less_than_divisor;
use vstd::arithmetic::div_mod::lemma_multiply_divide_lt;
use vstd::arithmetic::div_mod::lemma_small_mod;

use crate::model::byte_at;
use crate::model::enc_digit;

verus! {

/// Every base-85 digit of `v` lies below 85, and extracting a digit by
/// first reducing `v` modulo the next-larger power of 85 agrees with
/// `enc_digit`.
pub(crate) proof fn lemma_digit_split(v: int)
    requires
        0 <= v < 4437053125,
    ensures
        0 <= enc_digit(v, 0) < 85,
        0 <= enc_digit(v, 1) < 85,
        0 <= enc_digit(v, 2) < 85,
        0 <= enc_digit(v, 3) < 85,
        0 <= enc_digit(v, 4) < 85,
        enc_digit(v, 0) == v / 52200625,
        enc_digit(v, 1) == (v % 52200625) / 614125,
        enc_digit(v, 2) == (v % 614125) / 7225,
        enc_digit(v, 3) == (v % 7225) / 85,
        enc_digit(v, 4) == v % 85,
{
    lemma_multiply_divide_lt(v, 52200625, 85);
    lemma_div_pos_is_pos(v, 52200625);
    lemma_small_mod((v / 52200625) as nat, 85nat);
    lemma_breakdown(v, 614125, 85);
    lemma_mod_division_less_than_divisor(v, 614125);
    lemma_mod_division_less_than_divisor(v / 614125, 85);
    lemma_fundamental_div_mod_converse_div(
        v % 52200625,
        614125,
        (v / 614125) % 85,
        v % 614125,
    );
    lemma_breakdown(v, 7225, 85);
    lemma_mod_division_less_than_divisor(v, 7225);
    lemma_mod_division_less_than_divisor(v / 7225, 85);
    lemma_fundamental_div_mod_converse_div(v % 614125, 7225, (v / 7225) % 85, v % 7225);
    lemma_breakdown(v, 85, 85);
    lemma_mod_division_less_than_divisor(v, 85);
    lemma_mod_division_less_than_divisor(v / 85, 85);
    lemma_fundamental_div_mod_converse_div(v % 7225, 85, (v / 85) % 85, v % 85);
}

/// The five base-85 digits of `v` recombine to `v` itself.
pub(crate) proof fn lemma_digit_recompose(v: int)
    requires
        0 <= v < 4437053125,
    ensures
        enc_digit(v, 0) * 52200625 + enc_digit(v, 1) * 614125 + enc_digit(v, 2) * 7225
            + enc_digit(v, 3) * 85 + enc_digit(v, 4) == v,
{
    let q1 = v / 85;
    let q2 = v / 7225;
    let q3 = v / 614125;
    let q4 = v / 52200625;
    lemma_fundamental_div_mod(v, 85);
    lemma_div_pos_is_pos(v, 85);
    lemma_fundamental_div_mod(q1, 85);
    lemma_div_denominator(v, 85, 85);
    lemma_div_pos_is_pos(v, 7225);
    lemma_fundamental_div_mod(q2, 85);
    lemma_div_denominator(v, 7225, 85);
    lemma_div_pos_is_pos(v, 614125);
    lemma_fundamental_div_mod(q3, 85);
    lemma_div_denominator(v, 614125, 85);
    lemma_div_pos_is_pos(v, 52200625);
    lemma_multiply_divide_lt(v, 52200625, 85);
    lemma_small_mod(q4 as nat, 85nat);
}

/// A value assembled from five digit values below 85 has exactly those
/// base-85 digits.
pub(crate) proof fn lemma_value_of_digits(d0: int, d1: int, d2: int, d3: int, d4: int)
    requires
        0 <= d0 < 85,
        0 <= d1 < 85,
        0 <= d2 < 85,
        0 <= d3 < 85,
        0 <= d4 < 85,
    ensures
        ({
            let v = d0 * 52200625 + d1 * 614125 + d2 * 7225 + d3 * 85 + d4;
            &&& 0 <= v < 4437053125
            &&& enc_digit(v, 0) == d0
            &&& enc_digit(v, 1) == d1
            &&& enc_digit(v, 2) == d2
            &&& enc_digit(v, 3) == d3
            &&& enc_digit(v, 4) == d4
        }),
{
    let v = d0 * 52200625 + d1 * 614125 + d2 * 7225 + d3 * 85 + d4;
    lemma_fundamental_div_mod_converse_div(
        v,
        52200625,
        d0,
        d1 * 614125 + d2 * 7225 + d3 * 85 + d4,
    );
    lemma_small_mod(d0 as nat, 85nat);
    lemma_fundamental_div_mod_converse_div(v, 614125, d0 * 85 + d1, d2 * 7225 + d3 * 85 + d4);
    lemma_fundamental_div_mod_converse_mod(d0 * 85 + d1, 85, d0, d1);
    lemma_fundamental_div_mod_converse_div(v, 7225, d0 * 7225 + d1 * 85 + d2, d3 * 85 + d4);
    lemma_fundamental_div_mod_converse_mod(d0 * 7225 + d1 * 85 + d2, 85, d0 * 85 + d1, d2);
    lemma_fundamental_div_mod_converse_div(
        v,
        85,
        d0 * 614125 + d1 * 7225 + d2 * 85 + d3,
        d4,
    );
    lemma_fundamental_div_mod_converse_mod(
        d0 * 614125 + d1 * 7225 + d2 * 85 + d3,
        85,
        d0 * 7225 + d1 * 85 + d2,
        d3,
    );
    lemma_fundamental_div_mod_converse_mod(v, 85, d0 * 614125 + d1 * 7225 + d2 * 85 + d3, d4);
}

/// A value assembled from four byte values below 256 has exactly those
/// base-256 digits.
pub(crate) proof fn lemma_value_of_bytes(b0: int, b1: int, b2: int, b3: int)
    requires
        0 <= b0 < 256,
        0 <= b1 < 256,
        0 <= b2 < 256,
        0 <= b3 < 256,
    ensures
        ({
            let v = b0 * 16777216 + b1 * 65536 + b2 * 256 + b3;
            &&& 0 <= v < 4294967296
            &&& byte_at(v, 0) as int == b0
            &&& byte_at(v, 1) as int == b1
            &&& byte_at(v, 2) as int == b2
            &&& byte_at(v, 3) as int == b3
        }),
{
    let v = b0 * 16777216 + b1 * 65536 + b2 * 256 + b3;
    lemma_fundamental_div_mod_converse_div(v, 16777216, b0, b1 * 65536 + b2 * 256 + b3);
    lemma_small_mod(b0 as nat, 256nat);
    lemma_fundamental_div_mod_converse_div(v, 65536, b0 * 256 + b1, b2 * 256 + b3);
    lemma_fundamental_div_mod_converse_mod(b0 * 256 + b1, 256, b0, b1);
    lemma_fundamental_div_mod_converse_div(v, 256, b0 * 65536 + b1 * 256 + b2, b3);
    lemma_fundamental_div_mod_converse_mod(b0 * 65536 + b1 * 256 + b2, 256, b0 * 256 + b1, b2);
    lemma_fundamental_div_mod_converse_mod(v, 256, b0 * 65536 + b1 * 256 + b2, b3);
}

/// Decoding a trailing group that encodes one byte: the two kept digits,
/// padded with the maximum digit 84, reassemble to a value whose leading
/// base-256 digit is that byte.
pub(crate) proof fn lemma_partial_group_1(b0: int)
    requires
        0 <= b0 < 256,
    ensures
        ({
            let v = b0 * 16777216;
            let w = enc_digit(v, 0) * 52200625 + enc_digit(v, 1) * 614125 + 84 * 7225 + 84 * 85
                + 84;
            byte_at(w, 0) as int == b0
        }),
{
    let v = b0 * 16777216;
    lemma_digit_recompose(v);
    lemma_digit_split(v);
    let low = enc_digit(v, 2) * 7225 + enc_digit(v, 3) * 85 + enc_digit(v, 4);
    let w = enc_digit(v, 0) * 52200625 + enc_digit(v, 1) * 614125 + 84 * 7225 + 84 * 85 + 84;
    assert(w == v + (614124 - low));
    lemma_fundamental_div_mod_converse_div(w, 16777216, b0, 614124 - low);
    lemma_small_mod(b0 as nat, 256nat);
}

/// Decoding a trailing group that encodes two bytes: the three kept
/// digits, padded with the maximum digit 84, reassemble to a value whose
/// two leading base-256 digits are those bytes.
pub(crate) proof fn lemma_partial_group_2(b0: int, b1: int)
    requires
        0 <= b0 < 256,
        0 <= b1 < 256,
    ensures
        ({
            let v = b0 * 16777216 + b1 * 65536;
            let w = enc_digit(v, 0) * 52200625 + enc_digit(v, 1) * 614125 + enc_digit(v, 2)
                * 7225 + 84 * 85 + 84;
            &&& byte_at(w, 0) as int == b0
            &&& byte_at(w, 1) as int == b1
        }),
{
    let v = b0 * 16777216 + b1 * 65536;
    lemma_digit_recompose(v);
    lemma_digit_split(v);
    let low = enc_digit(v, 3) * 85 + enc_digit(v, 4);
    let w = enc_digit(v, 0) * 52200625 + enc_digit(v, 1) * 614125 + enc_digit(v, 2) * 7225 + 84
        * 85 + 84;
    let h = b0 * 256 + b1;
    assert(w == h * 65536 + (7224 - low));
    lemma_fundamental_div_mod_converse_div(w, 65536, h, 7224 - low);
    lemma_fundamental_div_mod_converse_mod(h, 256, b0, b1);
    lemma_div_denominator(w, 65536, 256);
    lemma_fundamental_div_mod_converse_div(h, 256, b0, b1);
    lemma_small_mod(b0 as nat, 256nat);
}

/// Decoding a trailing group that encodes three bytes: the four kept
/// digits, padded with the maximum digit 84, reassemble to a value whose
/// three leading base-256 digits are those bytes.
pub(crate) proof fn lemma_partial_group_3(b0: int, b1: int, b2: int)
    requires
        0 <= b0 < 256,
        0 <= b1 < 256,
        0 <= b2 < 256,
    ensures
        ({
            let v = b0 * 16777216 + b1 * 65536 + b2 * 256;
            let w = enc_digit(v, 0) * 52200625 + enc_digit(v, 1) * 614125 + enc_digit(v, 2)
                * 7225 + enc_digit(v, 3) * 85 + 84;
            &&& byte_at(w, 0) as int == b0
            &&& byte_at(w, 1) as int == b1
            &&& byte_at(w, 2) as int == b2
        }),
{
    let v = b0 * 16777216 + b1 * 65536 + b2 * 256;
    lemma_digit_recompose(v);
    lemma_digit_split(v);
    let low = enc_digit(v, 4);
    let w = enc_digit(v, 0) * 52200625 + enc_digit(v, 1) * 614125 + enc_digit(v, 2) * 7225
        + enc_digit(v, 3) * 85 + 84;
    let h = b0 * 65536 + b1 * 256 + b2;
    assert(w == h * 256 + (84 - low));
    lemma_fundamental_div_mod_converse_div(w, 256, h, 84 - low);
    lemma_fundamental_div_mod_converse_mod(h, 256, b0 * 256 + b1, b2);
    lemma_div_denominator(w, 256, 256);
    lemma_fundamental_div_mod_converse_div(h, 256, b0 * 256 + b1, b2);
    lemma_fundamental_div_mod_converse_mod(b0 * 256 + b1, 256, b0, b1);
    lemma_div_denominator(w, 65536, 256);
    lemma_fundamental_div_mod_converse_div(b0 * 256 + b1, 256, b0, b1);
    lemma_small_mod(b0 as nat, 256nat);
}

} // verus!
