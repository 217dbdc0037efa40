//! The executable encoder and decoder, verified against the model.

use vstd::prelude::*;

use vstd::arithmetic::div_mod::lemma_fundamental_div_mod;
use vstd::arithmetic::div_mod::lemma_fundamental_div_mod_converse_mod;
use vstd::string::StringSliceAdditionalSpecFns;

use crate::Error;
use crate::alphabet::byte_to_char85;
use crate::alphabet::char85_to_byte;
use crate::alphabet::is_base85;
use crate::alphabet::lemma_alphabet_bijection;
use crate::arith::lemma_digit_split;
use crate::model::block_value;
use crate::model::chars_of;
use crate::model::dec_bytes;
use crate::model::dec_group;
use crate::model::decode_spec;
use crate::model::decode_syms;
use crate::model::decode_valid;
use crate::model::enc_block;
use crate::model::enc_chars;
use crate::model::encode_spec;
use crate::model::group_value;
use crate::model::lemma_decode_valid_chunk;
use crate::model::lemma_encode_spec_chunk;
use crate::model::lemma_first_invalid_at;
use crate::model::lemma_strip_ws_snoc;
use crate::model::result_matches;
use crate::model::strip_ws;

verus! {

/// Relies on `String::from_utf8`: a vector of bytes below 0x80 is valid
/// UTF-8, and parses to the string of exactly those bytes as characters.
#[verifier::external_body]
fn ascii_to_string(bytes: Vec<u8>) -> (r: String)
    requires
        forall|i: int| 0 <= i < bytes@.len() ==> bytes@[i] < 128,
    ensures
        r@ == chars_of(bytes@),
{
    match String::from_utf8(bytes) {
        Ok(s) => s,
        Err(_) => String::new(),
    }
}

/// Appends the leading `count` base-85 digits of the block value `v` to
/// `out`, as alphabet characters.
fn push_block_chars(out: &mut Vec<u8>, v: u64, count: usize)
    requires
        v < 4294967296,
        2 <= count <= 5,
    ensures
        final(out)@ == old(out)@ + enc_chars(v as int, count as int),
        forall|j: int| 0 <= j < count ==> enc_chars(v as int, count as int)[j] < 128,
{
    proof {
        lemma_alphabet_bijection();
        lemma_digit_split(v as int);
    }
    out.push(byte_to_char85((v / 52200625) as u8));
    out.push(byte_to_char85(((v % 52200625) / 614125) as u8));
    if count >= 3 {
        out.push(byte_to_char85(((v % 614125) / 7225) as u8));
    }
    if count >= 4 {
        out.push(byte_to_char85(((v % 7225) / 85) as u8));
    }
    if count >= 5 {
        out.push(byte_to_char85((v % 85) as u8));
    }
    proof {
        assert(out@ =~= old(out)@ + enc_chars(v as int, count as int));
    }
}

/// Encodes a byte slice as a base-85 string: five characters for each
/// whole 4-byte block, `n + 1` characters for a trailing block of `n`
/// bytes, and nothing else.
pub fn encode(indata: &[u8]) -> (r: String)
    ensures
        r@ == chars_of(encode_spec(indata@)),
{
    let n = indata.len();
    let mut out: Vec<u8> = Vec::new();
    let mut i: usize = 0;
    proof {
        assert(indata@.skip(0) =~= indata@);
        assert(Seq::<u8>::empty() + encode_spec(indata@) =~= encode_spec(indata@));
    }
    while n - i >= 4
        invariant
            n == indata@.len(),
            i <= n,
            i % 4 == 0,
            out@ + encode_spec(indata@.skip(i as int)) == encode_spec(indata@),
            forall|j: int| 0 <= j < out@.len() ==> out@[j] < 128,
        decreases n - i,
    {
        let ghost out0 = out@;
        let v: u64 = (indata[i] as u64) * 16777216 + (indata[i + 1] as u64) * 65536 + (indata[i
            + 2] as u64) * 256 + (indata[i + 3] as u64);
        push_block_chars(&mut out, v, 5);
        proof {
            let sub = indata@.subrange(i as int, i as int + 4);
            assert(block_value(sub) == v as int);
            assert(enc_chars(v as int, 5) =~= enc_block(sub));
            lemma_encode_spec_chunk(indata@.skip(i as int));
            assert(indata@.skip(i as int).take(4) =~= sub);
            assert(indata@.skip(i as int).skip(4) =~= indata@.skip(i as int + 4));
            assert((out0 + enc_block(sub)) + encode_spec(indata@.skip(i as int + 4)) =~= out0 + (
            enc_block(sub) + encode_spec(indata@.skip(i as int + 4))));
        }
        i = i + 4;
    }
    if i < n {
        let ghost out0 = out@;
        let m = n - i;
        let b0 = indata[i];
        let b1 = if i + 1 < n {
            indata[i + 1]
        } else {
            0
        };
        let b2 = if i + 2 < n {
            indata[i + 2]
        } else {
            0
        };
        let v: u64 = (b0 as u64) * 16777216 + (b1 as u64) * 65536 + (b2 as u64) * 256;
        push_block_chars(&mut out, v, m + 1);
        proof {
            let tail = indata@.skip(i as int);
            assert(block_value(tail) == v as int);
            assert(enc_chars(v as int, m as int + 1) =~= enc_block(tail));
        }
    }
    proof {
        assert(indata@.skip(n as int) =~= Seq::<u8>::empty());
        assert(encode_spec(indata@.skip(n as int)) =~= Seq::<u8>::empty());
        assert(out@ =~= encode_spec(indata@));
    }
    ascii_to_string(out)
}

/// Appends the leading `count` base-256 digits of the group value `w` to
/// `out`.
fn push_group_bytes(out: &mut Vec<u8>, w: u64, count: usize)
    requires
        1 <= count <= 4,
    ensures
        final(out)@ == old(out)@ + dec_bytes(w as int, count as int),
{
    out.push(((w / 16777216) % 256) as u8);
    if count >= 2 {
        out.push(((w / 65536) % 256) as u8);
    }
    if count >= 3 {
        out.push(((w / 256) % 256) as u8);
    }
    if count >= 4 {
        out.push((w % 256) as u8);
    }
    proof {
        assert(out@ =~= old(out)@ + dec_bytes(w as int, count as int));
    }
}

/// Decodes a whitespace-free symbol sequence, group by group.
fn decode_symbols(syms: &Vec<u8>) -> (r: Result<Vec<u8>, Error>)
    ensures
        result_matches(r, decode_syms(syms@)),
{
    let n = syms.len();
    let mut out: Vec<u8> = Vec::new();
    let mut j: usize = 0;
    proof {
        assert(syms@.skip(0) =~= syms@);
        assert(Seq::<u8>::empty() + decode_valid(syms@) =~= decode_valid(syms@));
    }
    while n - j >= 5
        invariant
            n == syms@.len(),
            j <= n,
            j % 5 == 0,
            out@ + decode_valid(syms@.skip(j as int)) == decode_valid(syms@),
            forall|t: int| 0 <= t < j ==> is_base85(#[trigger] syms@[t]),
        decreases n - j,
    {
        let ghost out0 = out@;
        let d0 = match char85_to_byte(syms[j]) {
            Ok(d) => d,
            Err(e) => {
                proof {
                    lemma_first_invalid_at(syms@, j as int);
                }
                return Err(e);
            },
        };
        let d1 = match char85_to_byte(syms[j + 1]) {
            Ok(d) => d,
            Err(e) => {
                proof {
                    assert(forall|t: int| 0 <= t < j + 1 ==> is_base85(#[trigger] syms@[t]));
                    lemma_first_invalid_at(syms@, j as int + 1);
                }
                return Err(e);
            },
        };
        let d2 = match char85_to_byte(syms[j + 2]) {
            Ok(d) => d,
            Err(e) => {
                proof {
                    assert(forall|t: int| 0 <= t < j + 2 ==> is_base85(#[trigger] syms@[t]));
                    lemma_first_invalid_at(syms@, j as int + 2);
                }
                return Err(e);
            },
        };
        let d3 = match char85_to_byte(syms[j + 3]) {
            Ok(d) => d,
            Err(e) => {
                proof {
                    assert(forall|t: int| 0 <= t < j + 3 ==> is_base85(#[trigger] syms@[t]));
                    lemma_first_invalid_at(syms@, j as int + 3);
                }
                return Err(e);
            },
        };
        let d4 = match char85_to_byte(syms[j + 4]) {
            Ok(d) => d,
            Err(e) => {
                proof {
                    assert(forall|t: int| 0 <= t < j + 4 ==> is_base85(#[trigger] syms@[t]));
                    lemma_first_invalid_at(syms@, j as int + 4);
                }
                return Err(e);
            },
        };
        let w: u64 = (d0 as u64) * 52200625 + (d1 as u64) * 614125 + (d2 as u64) * 7225 + (d3
            as u64) * 85 + (d4 as u64);
        push_group_bytes(&mut out, w, 4);
        proof {
            lemma_alphabet_bijection();
            let sub = syms@.subrange(j as int, j as int + 5);
            assert(group_value(sub) == w as int);
            assert(dec_bytes(w as int, 4) =~= dec_group(sub));
            lemma_decode_valid_chunk(syms@.skip(j as int));
            assert(syms@.skip(j as int).take(5) =~= sub);
            assert(syms@.skip(j as int).skip(5) =~= syms@.skip(j as int + 5));
            assert((out0 + dec_group(sub)) + decode_valid(syms@.skip(j as int + 5)) =~= out0 + (
            dec_group(sub) + decode_valid(syms@.skip(j as int + 5))));
            assert(forall|t: int| 0 <= t < j + 5 ==> is_base85(#[trigger] syms@[t]));
        }
        j = j + 5;
    }
    let m = n - j;
    if m == 0 {
        proof {
            assert(syms@.skip(n as int) =~= Seq::<u8>::empty());
            assert(decode_valid(syms@.skip(n as int)) =~= Seq::<u8>::empty());
            assert(out@ + decode_valid(syms@.skip(j as int)) =~= out@);
        }
        return Ok(out);
    }
    let ghost out0 = out@;
    let d0 = match char85_to_byte(syms[j]) {
        Ok(d) => d,
        Err(e) => {
            proof {
                lemma_first_invalid_at(syms@, j as int);
            }
            return Err(e);
        },
    };
    proof {
        lemma_fundamental_div_mod(j as int, 5);
        lemma_fundamental_div_mod_converse_mod(n as int, 5, j as int / 5, m as int);
    }
    if m == 1 {
        proof {
            assert(forall|t: int| 0 <= t < n ==> is_base85(#[trigger] syms@[t]));
        }
        return Err(Error::UnexpectedEof);
    }
    let d1 = match char85_to_byte(syms[j + 1]) {
        Ok(d) => d,
        Err(e) => {
            proof {
                assert(forall|t: int| 0 <= t < j + 1 ==> is_base85(#[trigger] syms@[t]));
                lemma_first_invalid_at(syms@, j as int + 1);
            }
            return Err(e);
        },
    };
    let d2 = if m > 2 {
        match char85_to_byte(syms[j + 2]) {
            Ok(d) => d,
            Err(e) => {
                proof {
                    assert(forall|t: int| 0 <= t < j + 2 ==> is_base85(#[trigger] syms@[t]));
                    lemma_first_invalid_at(syms@, j as int + 2);
                }
                return Err(e);
            },
        }
    } else {
        84
    };
    let d3 = if m > 3 {
        match char85_to_byte(syms[j + 3]) {
            Ok(d) => d,
            Err(e) => {
                proof {
                    assert(forall|t: int| 0 <= t < j + 3 ==> is_base85(#[trigger] syms@[t]));
                    lemma_first_invalid_at(syms@, j as int + 3);
                }
                return Err(e);
            },
        }
    } else {
        84
    };
    let w: u64 = (d0 as u64) * 52200625 + (d1 as u64) * 614125 + (d2 as u64) * 7225 + (d3
        as u64) * 85 + 84;
    push_group_bytes(&mut out, w, m - 1);
    proof {
        lemma_alphabet_bijection();
        let sub = syms@.skip(j as int);
        assert(group_value(sub) == w as int);
        assert(dec_bytes(w as int, m as int - 1) =~= dec_group(sub));
        assert(forall|t: int| 0 <= t < n ==> is_base85(#[trigger] syms@[t]));
    }
    Ok(out)
}

/// Decodes a base-85 string back to the bytes it encodes, skipping the
/// whitespace bytes space, line feed, vertical tab and carriage return;
/// the first byte outside alphabet and whitespace is rejected as
/// `InvalidCharacter`, and a trailing group of a single symbol as
/// `UnexpectedEof`.
pub fn decode(instr: &str) -> (r: Result<Vec<u8>, Error>)
    ensures
        result_matches(r, decode_spec(instr.spec_bytes())),
{
    let inb = instr.as_bytes();
    let n = inb.len();
    let mut syms: Vec<u8> = Vec::new();
    let mut i: usize = 0;
    proof {
        reveal(Seq::filter);
        assert(inb@.take(0) =~= Seq::<u8>::empty());
        assert(strip_ws(inb@.take(0)) =~= Seq::<u8>::empty());
    }
    while i < n
        invariant
            n == inb@.len(),
            i <= n,
            inb@ == instr.spec_bytes(),
            syms@ == strip_ws(inb@.take(i as int)),
        decreases n - i,
    {
        let c = inb[i];
        if !(c == 32 || c == 10 || c == 11 || c == 13) {
            syms.push(c);
        }
        proof {
            assert(inb@.take(i as int + 1) =~= inb@.take(i as int).push(inb@[i as int]));
            lemma_strip_ws_snoc(inb@.take(i as int), c);
        }
        i = i + 1;
    }
    proof {
        assert(inb@.take(n as int) =~= inb@);
    }
    decode_symbols(&syms)
}

} // verus!
