//! The laws the codec obeys, proved from the model: length of the
//! encoding, closure in the alphabet, round trip, whitespace
//! insensitivity, and the two rejection rules.

use vstd::prelude::*;

use vstd::arithmetic::div_mod::lemma_fundamental_div_mod;
use vstd::arithmetic::div_mod::lemma_fundamental_div_mod_converse_div;
use vstd::arithmetic::div_mod::lemma_fundamental_div_mod_converse_mod;

use crate::Error;
use crate::alphabet::is_base85;
use crate::alphabet::is_ws;
use crate::alphabet::lemma_alphabet_bijection;
use crate::arith::lemma_digit_split;
use crate::arith::lemma_digit_recompose;
use crate::arith::lemma_partial_group_1;
use crate::arith::lemma_partial_group_2;
use crate::arith::lemma_partial_group_3;
use crate::arith::lemma_value_of_bytes;
use crate::model::all_base85;
use crate::model::block_value;
use crate::model::chars_of;
use crate::model::dec_group;
use crate::model::decode_spec;
use crate::model::decode_valid;
use crate::model::enc_block;
use crate::model::encode_spec;
use crate::model::extra_len;
use crate::model::first_invalid;
use crate::model::group_value;
use crate::model::lemma_decode_valid_chunk;
use crate::model::lemma_encode_spec_chunk;
use crate::model::strip_ws;

verus! {

/// The encoding of `b` has exactly `(len / 4) * 5 + extra_len(len % 4)`
/// characters, all of them in the alphabet.
proof fn lemma_encode_props(b: Seq<u8>)
    ensures
        encode_spec(b).len() == (b.len() as int / 4) * 5 + extra_len(b.len() as int % 4),
        forall|i: int|
            0 <= i < encode_spec(b).len() ==> is_base85(#[trigger] encode_spec(b)[i]),
    decreases b.len(),
{
    lemma_alphabet_bijection();
    if b.len() == 0 {
    } else if b.len() <= 4 {
        let v = block_value(b);
        assert(0 <= v < 4294967296);
        lemma_digit_split(v);
    } else {
        let v = block_value(b.take(4));
        assert(0 <= v < 4294967296);
        lemma_digit_split(v);
        lemma_encode_props(b.skip(4));
        lemma_encode_spec_chunk(b);
        let n = b.len() as int;
        let q = (n - 4) / 4;
        let r = (n - 4) % 4;
        lemma_fundamental_div_mod(n - 4, 4);
        lemma_fundamental_div_mod_converse_div(n, 4, q + 1, r);
        lemma_fundamental_div_mod_converse_mod(n, 4, q + 1, r);
        assert forall|i: int| 0 <= i < encode_spec(b).len() implies is_base85(
            #[trigger] encode_spec(b)[i],
        ) by {
            if i < 5 {
                assert(encode_spec(b)[i] == enc_block(b.take(4))[i]);
            } else {
                assert(encode_spec(b)[i] == encode_spec(b.skip(4))[i - 5]);
            }
        };
    }
}

/// The length of an encoding is determined by the length of the input:
/// five characters for each whole 4-byte block and `extra_len` more for
/// the trailing bytes.
pub proof fn lemma_encode_length(b: Seq<u8>)
    ensures
        encode_spec(b).len() == (b.len() as int / 4) * 5 + extra_len(b.len() as int % 4),
{
    lemma_encode_props(b);
}

/// Every character an encoding contains is a member of the 85-character
/// alphabet.
pub proof fn lemma_encode_alphabet(b: Seq<u8>)
    ensures
        forall|i: int|
            0 <= i < encode_spec(b).len() ==> is_base85(#[trigger] encode_spec(b)[i]),
{
    lemma_encode_props(b);
}

/// Removing whitespace from a sequence without whitespace changes nothing.
proof fn lemma_strip_ws_id(s: Seq<u8>)
    requires
        forall|i: int| 0 <= i < s.len() ==> !is_ws(#[trigger] s[i]),
    ensures
        strip_ws(s) == s,
    decreases s.len(),
{
    reveal(Seq::filter);
    if s.len() == 0 {
        assert(strip_ws(s) =~= s);
    } else {
        lemma_strip_ws_id(s.drop_last());
        assert(s.drop_last().push(s.last()) =~= s);
    }
}

/// Decoding one full group undoes encoding one full block.
proof fn lemma_group_round_trip_full(c: Seq<u8>)
    requires
        c.len() == 4,
    ensures
        dec_group(enc_block(c)) == c,
{
    let v = block_value(c);
    assert(0 <= v < 4294967296);
    lemma_digit_split(v);
    lemma_alphabet_bijection();
    lemma_digit_recompose(v);
    let e = enc_block(c);
    assert(group_value(e) == v);
    lemma_value_of_bytes(c[0] as int, c[1] as int, c[2] as int, c[3] as int);
    assert(dec_group(e) =~= c);
}

/// Decoding one short trailing group undoes encoding one short trailing
/// block.
proof fn lemma_group_round_trip_partial(c: Seq<u8>)
    requires
        1 <= c.len() <= 3,
    ensures
        dec_group(enc_block(c)) == c,
{
    let v = block_value(c);
    assert(0 <= v < 4294967296);
    lemma_digit_split(v);
    lemma_alphabet_bijection();
    let e = enc_block(c);
    if c.len() == 1 {
        lemma_partial_group_1(c[0] as int);
    } else if c.len() == 2 {
        lemma_partial_group_2(c[0] as int, c[1] as int);
    } else {
        lemma_partial_group_3(c[0] as int, c[1] as int, c[2] as int);
    }
    assert(dec_group(e) =~= c);
}

/// Decoding the symbols of an encoding gives back the encoded bytes.
proof fn lemma_decode_encode_valid(b: Seq<u8>)
    ensures
        decode_valid(encode_spec(b)) == b,
    decreases b.len(),
{
    if b.len() == 0 {
        assert(decode_valid(encode_spec(b)) =~= b);
    } else if b.len() <= 3 {
        lemma_group_round_trip_partial(b);
    } else {
        lemma_encode_spec_chunk(b);
        let e = encode_spec(b);
        let head = enc_block(b.take(4));
        let rest = encode_spec(b.skip(4));
        lemma_decode_valid_chunk(e);
        assert(e.take(5) =~= head);
        assert(e.skip(5) =~= rest);
        lemma_group_round_trip_full(b.take(4));
        lemma_decode_encode_valid(b.skip(4));
        assert(b.take(4) + b.skip(4) =~= b);
    }
}

/// Round trip: decoding an encoding succeeds and gives back exactly the
/// bytes that were encoded.
pub proof fn lemma_round_trip(b: Seq<u8>)
    ensures
        decode_spec(encode_spec(b)) == Ok::<Seq<u8>, Error>(b),
{
    let e = encode_spec(b);
    lemma_encode_props(b);
    lemma_alphabet_bijection();
    lemma_strip_ws_id(e);
    lemma_decode_encode_valid(b);
    let n = b.len() as int;
    lemma_fundamental_div_mod(n, 4);
    lemma_fundamental_div_mod_converse_mod(e.len() as int, 5, n / 4, extra_len(n % 4));
}

/// An encoded string holds in its UTF-8 bytes exactly the alphabet bytes
/// of the encoding: `encode` promises its characters and `decode` reads
/// its argument's bytes, and this law joins the two views.
pub proof fn lemma_encoding_bytes(s: Seq<u8>)
    requires
        forall|i: int| 0 <= i < s.len() ==> #[trigger] s[i] < 128,
    ensures
        vstd::utf8::encode_utf8(chars_of(s)) == s,
{
    assert(vstd::utf8::is_ascii_chars(chars_of(s)));
    vstd::utf8::is_ascii_chars_encode_utf8(chars_of(s));
    assert(vstd::utf8::encode_utf8(chars_of(s)) =~= s);
}

/// Removing whitespace distributes over concatenation.
proof fn lemma_strip_ws_add(a: Seq<u8>, b: Seq<u8>)
    ensures
        strip_ws(a + b) == strip_ws(a) + strip_ws(b),
{
    broadcast use Seq::filter_distributes_over_add;

}

/// Removing whitespace from whitespace leaves nothing.
proof fn lemma_strip_ws_all_ws(w: Seq<u8>)
    requires
        forall|j: int| 0 <= j < w.len() ==> is_ws(#[trigger] w[j]),
    ensures
        strip_ws(w) == Seq::<u8>::empty(),
    decreases w.len(),
{
    reveal(Seq::filter);
    if w.len() == 0 {
        assert(strip_ws(w) =~= Seq::<u8>::empty());
    } else {
        lemma_strip_ws_all_ws(w.drop_last());
    }
}

/// Whitespace insensitivity: splicing any run of whitespace bytes into an
/// input at any position leaves the decode result unchanged.
pub proof fn lemma_whitespace_insensitive(s: Seq<u8>, i: int, w: Seq<u8>)
    requires
        0 <= i <= s.len(),
        forall|j: int| 0 <= j < w.len() ==> is_ws(#[trigger] w[j]),
    ensures
        decode_spec(s.take(i) + w + s.skip(i)) == decode_spec(s),
{
    lemma_strip_ws_add(s.take(i) + w, s.skip(i));
    lemma_strip_ws_add(s.take(i), w);
    lemma_strip_ws_all_ws(w);
    lemma_strip_ws_add(s.take(i), s.skip(i));
    assert(s.take(i) + s.skip(i) =~= s);
    assert(strip_ws(s.take(i)) + Seq::<u8>::empty() =~= strip_ws(s.take(i)));
}

/// A non-whitespace byte outside the alphabet survives whitespace removal.
proof fn lemma_strip_ws_keeps_invalid(s: Seq<u8>)
    requires
        exists|i: int| 0 <= i < s.len() && !is_ws(#[trigger] s[i]) && !is_base85(s[i]),
    ensures
        exists|k: int|
            0 <= k < strip_ws(s).len() && !is_base85(#[trigger] strip_ws(s)[k]),
    decreases s.len(),
{
    reveal(Seq::filter);
    let i = choose|i: int| 0 <= i < s.len() && !is_ws(#[trigger] s[i]) && !is_base85(s[i]);
    if i == s.len() - 1 {
        assert(strip_ws(s) == strip_ws(s.drop_last()).push(s.last()));
        assert(!is_base85(strip_ws(s)[strip_ws(s).len() - 1]));
    } else {
        assert(0 <= i < s.drop_last().len() && !is_ws(s.drop_last()[i]) && !is_base85(
            s.drop_last()[i],
        ));
        lemma_strip_ws_keeps_invalid(s.drop_last());
        let k = choose|k: int|
            0 <= k < strip_ws(s.drop_last()).len() && !is_base85(
                #[trigger] strip_ws(s.drop_last())[k],
            );
        assert(!is_base85(strip_ws(s)[k]));
    }
}

/// Everything that survives whitespace removal is not whitespace.
proof fn lemma_strip_ws_not_ws(s: Seq<u8>)
    ensures
        forall|k: int| 0 <= k < strip_ws(s).len() ==> !is_ws(#[trigger] strip_ws(s)[k]),
    decreases s.len(),
{
    reveal(Seq::filter);
    if s.len() > 0 {
        lemma_strip_ws_not_ws(s.drop_last());
    }
}

/// When some symbol lies outside the alphabet, `first_invalid` points at
/// one that does.
proof fn lemma_first_invalid_props(s: Seq<u8>)
    requires
        !all_base85(s),
    ensures
        0 <= first_invalid(s) < s.len(),
        !is_base85(s[first_invalid(s)]),
    decreases s.len(),
{
    if s.len() > 0 && is_base85(s[0]) {
        assert(!all_base85(s.drop_first())) by {
            let k = choose|k: int| 0 <= k < s.len() && !is_base85(#[trigger] s[k]);
            assert(!is_base85(s.drop_first()[k - 1]));
        };
        lemma_first_invalid_props(s.drop_first());
    }
}

/// Invalid-character rejection: an input with a non-whitespace byte
/// outside the alphabet never decodes; it is rejected as
/// `InvalidCharacter`, and the byte reported is itself outside alphabet
/// and whitespace.
pub proof fn lemma_invalid_rejected(s: Seq<u8>, i: int)
    requires
        0 <= i < s.len(),
        !is_ws(s[i]),
        !is_base85(s[i]),
    ensures
        decode_spec(s) matches Err(Error::InvalidCharacter(c)) && !is_base85(c) && !is_ws(c),
{
    let strip = strip_ws(s);
    lemma_strip_ws_keeps_invalid(s);
    lemma_first_invalid_props(strip);
    lemma_strip_ws_not_ws(s);
}

/// Truncation rejection: an input whose non-whitespace symbol count is
/// 1 mod 5 never decodes; when all its symbols are in the alphabet the
/// error is `UnexpectedEof`.
pub proof fn lemma_truncated_rejected(s: Seq<u8>)
    requires
        strip_ws(s).len() % 5 == 1,
    ensures
        decode_spec(s) is Err,
        all_base85(strip_ws(s)) ==> decode_spec(s) == Err::<Seq<u8>, Error>(
            Error::UnexpectedEof,
        ),
{
}

} // verus!
