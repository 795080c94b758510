//! The symbol table: a piecewise-linear bijection between the six-bit
//! values 0..=63 and the 64 printable alphabet characters, exploiting the
//! contiguous ASCII ranges `A`-`Z`, `a`-`z` and `0`-`9`, plus `+` and `/`.
//! The padding character `=` is disjoint from the alphabet.

use vstd::prelude::*;

verus! {

// shift to b64 indices
const LOOKUP_OFFSET_UPPER: u8 = 65;
const LOOKUP_OFFSET_LOWER: u8 = 71;
const LOOKUP_OFFSET_NUM: u8 = 4;

const PADDING_CHAR: char = '=';

/// Whether `c` is one of the 64 alphabet characters (the padding
/// character `=` is not).
pub open spec fn is_alphabet_char(c: char) -> bool {
    ||| 'A' <= c && c <= 'Z'
    ||| 'a' <= c && c <= 'z'
    ||| '0' <= c && c <= '9'
    ||| c == '+'
    ||| c == '/'
}

/// The alphabet character standing for the six-bit value `v`.
pub open spec fn spec_char_of(v: u8) -> char
    recommends
        v < 64,
{
    if v <= 25 {
        ((v + 65) as u8) as char  // 'A'..='Z'
    } else if v <= 51 {
        ((v + 71) as u8) as char  // 'a'..='z'
    } else if v <= 61 {
        ((v - 4) as u8) as char  // '0'..='9'
    } else if v == 62 {
        '+'
    } else {
        '/'
    }
}

/// The six-bit value an alphabet character stands for.
pub open spec fn spec_index_of(c: char) -> u8
    recommends
        is_alphabet_char(c),
{
    if 'A' <= c && c <= 'Z' {
        ((c as u32) - 65) as u8
    } else if 'a' <= c && c <= 'z' {
        ((c as u32) - 71) as u8
    } else if '0' <= c && c <= '9' {
        ((c as u32) + 4) as u8
    } else if c == '+' {
        62
    } else {
        63
    }
}

/// The table is a bijection: looking the character of a value back up
/// yields the value, the character lies in the alphabet, and the padding
/// character never stands for a value.
pub proof fn lemma_table_bijection(v: u8)
    requires
        v < 64,
    ensures
        is_alphabet_char(spec_char_of(v)),
        spec_char_of(v) != '=',
        spec_index_of(spec_char_of(v)) == v,
{
}

/// The bijection read the other way: the value of an alphabet character
/// maps back to that character, and is below 64.
pub proof fn lemma_table_bijection_rev(c: char)
    requires
        is_alphabet_char(c),
    ensures
        spec_index_of(c) < 64,
        spec_char_of(spec_index_of(c)) == c,
{
}

pub trait Lookup {
    // return the character for the given index - from base64 lookup table
    fn get_b64_char(&self, index: u8) -> (r: Option<char>)
        ensures
            r == (if index < 64 {
                Some(spec_char_of(index))
            } else {
                None::<char>
            }),
    ;

    // return the index of the give char/symbol - from base64 lookup table
    fn get_b64_index(&self, character: char) -> (r: Option<u8>)
        ensures
            r == (if is_alphabet_char(character) {
                Some(spec_index_of(character))
            } else {
                None::<u8>
            }),
    ;

    fn get_padding(&self) -> (r: char)
        ensures
            r == '=',
    ;
}

// zero value struct as a base type
pub struct LookupTable;

impl Lookup for LookupTable {
    fn get_b64_char(&self, i: u8) -> (r: Option<char>) {
        let ascii_index: u8 = if i <= 25 {
            i + LOOKUP_OFFSET_UPPER  // A-Z
        } else if i <= 51 {
            i + LOOKUP_OFFSET_LOWER  // a-z
        } else if i <= 61 {
            i - LOOKUP_OFFSET_NUM  // 0-9
        } else if i == 62 {
            43  // +
        } else if i == 63 {
            47  // /
        } else {
            return None;
        };
        Some(ascii_index as char)
    }

    fn get_b64_index(&self, ch: char) -> (r: Option<u8>) {
        if 'A' <= ch && ch <= 'Z' {
            Some((ch as u32 - LOOKUP_OFFSET_UPPER as u32) as u8)
        } else if 'a' <= ch && ch <= 'z' {
            Some((ch as u32 - LOOKUP_OFFSET_LOWER as u32) as u8)
        } else if '0' <= ch && ch <= '9' {
            Some((ch as u32 + LOOKUP_OFFSET_NUM as u32) as u8)
        } else if ch == '+' {
            Some(62)
        } else if ch == '/' {
            Some(63)
        } else {
            None
        }
    }

    fn get_padding(&self) -> (r: char) {
        PADDING_CHAR
    }
}

} // verus!
