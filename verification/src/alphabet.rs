//! The fixed bijection between digit values 0..=84 and the 85-character
//! alphabet `0-9 A-Z a-z !#$%&()*+-;<=>?@^_`{|}~`, and its inverse.

use vstd::prelude::*;

use crate::Error;

verus! {

/// The alphabet byte that stands for digit value `d` (meaningful for
/// `0 <= d < 85`).
pub open spec fn char_of_digit(d: int) -> u8 {
    if 0 <= d < 10 {
        (d + 48) as u8  // '0'..='9'
    } else if 10 <= d < 36 {
        (d + 55) as u8  // 'A'..='Z'
    } else if 36 <= d < 62 {
        (d + 61) as u8  // 'a'..='z'
    } else if d == 62 {
        33  // '!'
    } else if d == 63 {
        35  // '#'
    } else if d == 64 {
        36  // '$'
    } else if d == 65 {
        37  // '%'
    } else if d == 66 {
        38  // '&'
    } else if d == 67 {
        40  // '('
    } else if d == 68 {
        41  // ')'
    } else if d == 69 {
        42  // '*'
    } else if d == 70 {
        43  // '+'
    } else if d == 71 {
        45  // '-'
    } else if d == 72 {
        59  // ';'
    } else if d == 73 {
        60  // '<'
    } else if d == 74 {
        61  // '='
    } else if d == 75 {
        62  // '>'
    } else if d == 76 {
        63  // '?'
    } else if d == 77 {
        64  // '@'
    } else if d == 78 {
        94  // '^'
    } else if d == 79 {
        95  // '_'
    } else if d == 80 {
        96  // '`'
    } else if d == 81 {
        123  // '{'
    } else if d == 82 {
        124  // '|'
    } else if d == 83 {
        125  // '}'
    } else if d == 84 {
        126  // '~'
    } else {
        0
    }
}

/// The digit value an alphabet byte stands for, or -1 for a byte outside the
/// alphabet.
pub open spec fn digit_of_char(c: u8) -> int {
    if 48 <= c <= 57 {
        c - 48  // '0'..='9'
    } else if 65 <= c <= 90 {
        c - 65 + 10  // 'A'..='Z'
    } else if 97 <= c <= 122 {
        c - 97 + 36  // 'a'..='z'
    } else if c == 33 {
        62  // '!'
    } else if c == 35 {
        63  // '#'
    } else if c == 36 {
        64  // '$'
    } else if c == 37 {
        65  // '%'
    } else if c == 38 {
        66  // '&'
    } else if c == 40 {
        67  // '('
    } else if c == 41 {
        68  // ')'
    } else if c == 42 {
        69  // '*'
    } else if c == 43 {
        70  // '+'
    } else if c == 45 {
        71  // '-'
    } else if c == 59 {
        72  // ';'
    } else if c == 60 {
        73  // '<'
    } else if c == 61 {
        74  // '='
    } else if c == 62 {
        75  // '>'
    } else if c == 63 {
        76  // '?'
    } else if c == 64 {
        77  // '@'
    } else if c == 94 {
        78  // '^'
    } else if c == 95 {
        79  // '_'
    } else if c == 96 {
        80  // '`'
    } else if c == 123 {
        81  // '{'
    } else if c == 124 {
        82  // '|'
    } else if c == 125 {
        83  // '}'
    } else if c == 126 {
        84  // '~'
    } else {
        -1
    }
}

/// Whether `c` is a member of the 85-character alphabet.
pub open spec fn is_base85(c: u8) -> bool {
    digit_of_char(c) >= 0
}

/// Whether `c` is one of the whitespace bytes the decoder skips:
/// space, line feed, vertical tab, carriage return.
pub open spec fn is_ws(c: u8) -> bool {
    c == 32 || c == 10 || c == 11 || c == 13
}

/// The two directions of the alphabet mapping are inverse to each other,
/// and no alphabet byte is a whitespace byte.
pub proof fn lemma_alphabet_bijection()
    ensures
        forall|d: int| 0 <= d < 85 ==> digit_of_char(#[trigger] char_of_digit(d)) == d,
        forall|d: int| 0 <= d < 85 ==> !is_ws(#[trigger] char_of_digit(d)),
        forall|d: int| 0 <= d < 85 ==> 33 <= #[trigger] char_of_digit(d) <= 126,
        forall|c: u8| is_base85(c) ==> 0 <= #[trigger] digit_of_char(c) < 85,
        forall|c: u8| is_base85(c) ==> char_of_digit(#[trigger] digit_of_char(c)) == c,
        forall|c: u8| is_base85(c) ==> !is_ws(c),
{
}

/// Maps a digit value 0..=84 to its alphabet byte.
pub fn byte_to_char85(x85: u8) -> (c: u8)
    requires
        x85 < 85,
    ensures
        c == char_of_digit(x85 as int),
{
    if x85 < 10 {
        x85 + 48
    } else if x85 < 36 {
        x85 + 55
    } else if x85 < 62 {
        x85 + 61
    } else if x85 == 62 {
        33
    } else if x85 == 63 {
        35
    } else if x85 == 64 {
        36
    } else if x85 == 65 {
        37
    } else if x85 == 66 {
        38
    } else if x85 == 67 {
        40
    } else if x85 == 68 {
        41
    } else if x85 == 69 {
        42
    } else if x85 == 70 {
        43
    } else if x85 == 71 {
        45
    } else if x85 == 72 {
        59
    } else if x85 == 73 {
        60
    } else if x85 == 74 {
        61
    } else if x85 == 75 {
        62
    } else if x85 == 76 {
        63
    } else if x85 == 77 {
        64
    } else if x85 == 78 {
        94
    } else if x85 == 79 {
        95
    } else if x85 == 80 {
        96
    } else if x85 == 81 {
        123
    } else if x85 == 82 {
        124
    } else if x85 == 83 {
        125
    } else {
        126
    }
}

/// Maps an alphabet byte back to its digit value; any byte outside the
/// alphabet is rejected as `InvalidCharacter`.
pub fn char85_to_byte(c: u8) -> (r: Result<u8, Error>)
    ensures
        is_base85(c) ==> r == Ok::<u8, Error>(digit_of_char(c) as u8),
        !is_base85(c) ==> r == Err::<u8, Error>(Error::InvalidCharacter(c)),
{
    if 48 <= c && c <= 57 {
        Ok(c - 48)
    } else if 65 <= c && c <= 90 {
        Ok(c - 65 + 10)
    } else if 97 <= c && c <= 122 {
        Ok(c - 97 + 36)
    } else if c == 33 {
        Ok(62)
    } else if c == 35 {
        Ok(63)
    } else if c == 36 {
        Ok(64)
    } else if c == 37 {
        Ok(65)
    } else if c == 38 {
        Ok(66)
    } else if c == 40 {
        Ok(67)
    } else if c == 41 {
        Ok(68)
    } else if c == 42 {
        Ok(69)
    } else if c == 43 {
        Ok(70)
    } else if c == 45 {
        Ok(71)
    } else if c == 59 {
        Ok(72)
    } else if c == 60 {
        Ok(73)
    } else if c == 61 {
        Ok(74)
    } else if c == 62 {
        Ok(75)
    } else if c == 63 {
        Ok(76)
    } else if c == 64 {
        Ok(77)
    } else if c == 94 {
        Ok(78)
    } else if c == 95 {
        Ok(79)
    } else if c == 96 {
        Ok(80)
    } else if c == 123 {
        Ok(81)
    } else if c == 124 {
        Ok(82)
    } else if c == 125 {
        Ok(83)
    } else if c == 126 {
        Ok(84)
    } else {
        Err(Error::InvalidCharacter(c))
    }
}

} // verus!
