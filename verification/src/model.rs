//! The mathematical model of the codec: what `encode` and `decode` compute,
//! stated over byte sequences.
//!
//! Encoding groups the input into 4-byte big-endian blocks, writes each
//! block's 32-bit value as five base-85 digits, and keeps only `n + 1`
//! digits for a trailing block of `n` bytes.  Decoding inverts this over
//! 5-symbol groups, padding a trailing group with the maximum digit 84.

use vstd::prelude::*;

use crate::Error;
use crate::alphabet::char_of_digit;
use crate::alphabet::digit_of_char;
use crate::alphabet::is_base85;
use crate::alphabet::is_ws;

verus! {

/// Byte `i` of `b`, or the zero padding byte past the end.
pub open spec fn byte_or_zero(b: Seq<u8>, i: int) -> int {
    if 0 <= i < b.len() {
        b[i] as int
    } else {
        0
    }
}

/// The 32-bit value of one encoder block: the first four bytes of `b`,
/// most-significant first, missing bytes taken as zero.
pub open spec fn block_value(b: Seq<u8>) -> int {
    byte_or_zero(b, 0) * 16777216 + byte_or_zero(b, 1) * 65536 + byte_or_zero(b, 2) * 256
        + byte_or_zero(b, 3)
}

/// Base-85 digit `i` (most-significant first) of the value `v`:
/// `(v / 85^(4-i)) % 85`, with the powers of 85 written out.
pub open spec fn enc_digit(v: int, i: int) -> int {
    if i == 0 {
        (v / 52200625) % 85
    } else if i == 1 {
        (v / 614125) % 85
    } else if i == 2 {
        (v / 7225) % 85
    } else if i == 3 {
        (v / 85) % 85
    } else {
        v % 85
    }
}

/// Base-256 digit `i` (most-significant first) of the value `v`:
/// `(v / 256^(3-i)) % 256`, with the powers of 256 written out.
pub open spec fn byte_at(v: int, i: int) -> u8 {
    if i == 0 {
        ((v / 16777216) % 256) as u8
    } else if i == 1 {
        ((v / 65536) % 256) as u8
    } else if i == 2 {
        ((v / 256) % 256) as u8
    } else {
        (v % 256) as u8
    }
}

/// The first `k` of the five base-85 digits of `v`, through the alphabet.
pub open spec fn enc_chars(v: int, k: int) -> Seq<u8> {
    Seq::new(k as nat, |i: int| char_of_digit(enc_digit(v, i)))
}

/// The characters one block of 1 to 4 bytes encodes to: `len + 1` of the
/// five base-85 digits of its value, through the alphabet.
pub open spec fn enc_block(b: Seq<u8>) -> Seq<u8> {
    enc_chars(block_value(b), b.len() as int + 1)
}

/// The whole encoding: one 4-byte block at a time, then a short trailing
/// block if one is left.
pub open spec fn encode_spec(b: Seq<u8>) -> Seq<u8>
    decreases b.len(),
{
    if b.len() == 0 {
        Seq::empty()
    } else if b.len() <= 4 {
        enc_block(b)
    } else {
        enc_block(b.take(4)) + encode_spec(b.skip(4))
    }
}

/// Digit `i` of a decoder group: the digit of symbol `i`, or the padding
/// digit 84 past the end of a short trailing group.
pub open spec fn group_digit(s: Seq<u8>, i: int) -> int {
    if 0 <= i < s.len() {
        digit_of_char(s[i])
    } else {
        84
    }
}

/// The value one decoder group of up to 5 symbols stands for, with the
/// powers of 85 written out.
pub open spec fn group_value(s: Seq<u8>) -> int {
    group_digit(s, 0) * 52200625 + group_digit(s, 1) * 614125 + group_digit(s, 2) * 7225
        + group_digit(s, 3) * 85 + group_digit(s, 4)
}

/// The first `k` of the four base-256 digits of `v`.
pub open spec fn dec_bytes(v: int, k: int) -> Seq<u8> {
    Seq::new(k as nat, |i: int| byte_at(v, i))
}

/// The bytes one group of 2 to 5 valid symbols decodes to: the leading
/// `len - 1` base-256 digits of its value.
pub open spec fn dec_group(s: Seq<u8>) -> Seq<u8> {
    dec_bytes(group_value(s), s.len() as int - 1)
}

/// Whether every symbol of `s` is an alphabet byte.
pub open spec fn all_base85(s: Seq<u8>) -> bool {
    forall|i: int| 0 <= i < s.len() ==> is_base85(#[trigger] s[i])
}

/// The index of the first symbol outside the alphabet (equals `s.len()`
/// when there is none).
pub open spec fn first_invalid(s: Seq<u8>) -> int
    decreases s.len(),
{
    if s.len() == 0 {
        0
    } else if !is_base85(s[0]) {
        0
    } else {
        1 + first_invalid(s.drop_first())
    }
}

/// The bytes a sequence of valid symbols decodes to, one 5-symbol group at
/// a time, then a short trailing group if one is left.  Meaningful when
/// `s.len() % 5 != 1`.
pub open spec fn decode_valid(s: Seq<u8>) -> Seq<u8>
    decreases s.len(),
{
    if s.len() == 0 {
        Seq::empty()
    } else if s.len() <= 5 {
        dec_group(s)
    } else {
        dec_group(s.take(5)) + decode_valid(s.skip(5))
    }
}

/// What decoding a whitespace-free symbol sequence returns: the first
/// symbol outside the alphabet is rejected as `InvalidCharacter`; a symbol
/// count of 1 mod 5 cannot come from any encoder output and is rejected as
/// `UnexpectedEof`; everything else decodes.
pub open spec fn decode_syms(s: Seq<u8>) -> Result<Seq<u8>, Error> {
    if !all_base85(s) {
        Err(Error::InvalidCharacter(s[first_invalid(s)]))
    } else if s.len() % 5 == 1 {
        Err(Error::UnexpectedEof)
    } else {
        Ok(decode_valid(s))
    }
}

/// The input with the four skipped whitespace bytes removed.
pub open spec fn strip_ws(s: Seq<u8>) -> Seq<u8> {
    s.filter(|c: u8| !is_ws(c))
}

/// What decoding returns on an arbitrary input byte sequence.
pub open spec fn decode_spec(s: Seq<u8>) -> Result<Seq<u8>, Error> {
    decode_syms(strip_ws(s))
}

/// The bytes of an ASCII sequence as characters, unchanged.
pub open spec fn chars_of(s: Seq<u8>) -> Seq<char> {
    Seq::new(s.len(), |i: int| s[i] as char)
}

/// How many characters a trailing block of `r` bytes adds (`r < 4`).
pub open spec fn extra_len(r: int) -> int {
    if r == 0 {
        0
    } else {
        r + 1
    }
}

/// Whether an executable decode result returns exactly what the model
/// returns.
pub open spec fn result_matches(r: Result<Vec<u8>, Error>, s: Result<Seq<u8>, Error>) -> bool {
    match r {
        Ok(v) => s == Ok::<Seq<u8>, Error>(v@),
        Err(e) => s == Err::<Seq<u8>, Error>(e),
    }
}

/// Removing whitespace commutes with appending one byte.
pub proof fn lemma_strip_ws_snoc(s: Seq<u8>, c: u8)
    ensures
        strip_ws(s.push(c)) == if is_ws(c) {
            strip_ws(s)
        } else {
            strip_ws(s).push(c)
        },
{
    reveal(Seq::filter);
    assert(s.push(c).drop_last() =~= s);
    assert(s.push(c).last() == c);
}

/// An encoding with at least one whole block ahead splits into the first
/// block's characters followed by the encoding of the rest.
pub proof fn lemma_encode_spec_chunk(s: Seq<u8>)
    requires
        s.len() >= 4,
    ensures
        encode_spec(s) == enc_block(s.take(4)) + encode_spec(s.skip(4)),
{
    if s.len() == 4 {
        assert(s.take(4) =~= s);
        assert(s.skip(4) =~= Seq::<u8>::empty());
        assert(enc_block(s.take(4)) + encode_spec(s.skip(4)) =~= enc_block(s));
    }
}

/// A valid symbol sequence with at least one whole group ahead decodes to
/// the first group's bytes followed by the decoding of the rest.
pub proof fn lemma_decode_valid_chunk(s: Seq<u8>)
    requires
        s.len() >= 5,
    ensures
        decode_valid(s) == dec_group(s.take(5)) + decode_valid(s.skip(5)),
{
    if s.len() == 5 {
        assert(s.take(5) =~= s);
        assert(s.skip(5) =~= Seq::<u8>::empty());
        assert(dec_group(s.take(5)) + decode_valid(s.skip(5)) =~= dec_group(s));
    }
}

/// A sequence whose first symbol outside the alphabet stands at index `k`
/// has `first_invalid` equal to `k`.
pub proof fn lemma_first_invalid_at(s: Seq<u8>, k: int)
    requires
        0 <= k < s.len(),
        !is_base85(s[k]),
        forall|j: int| 0 <= j < k ==> is_base85(#[trigger] s[j]),
    ensures
        !all_base85(s),
        first_invalid(s) == k,
    decreases k,
{
    if k > 0 {
        lemma_first_invalid_at(s.drop_first(), k - 1);
    }
}

} // verus!
