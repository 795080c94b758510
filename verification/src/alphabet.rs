//! A second, self-standing view of the same symbol table, behind the
//! `Alphabet` capability: the classic alphabet maps values 0..=63 onto
//! `A`-`Z`, `a`-`z`, `0`-`9`, `+` and `/`, with `=` as padding.

use vstd::prelude::*;

use crate::lookup_table::is_alphabet_char;
use crate::lookup_table::spec_char_of;
use crate::lookup_table::spec_index_of;

verus! {

const PADDING_CHAR: char = '=';

pub trait Alphabet {
    // return the character for the given index
    fn get_char(&self, index: u8) -> (r: Option<char>)
        ensures
            r == (if index < 64 {
                Some(spec_char_of(index))
            } else {
                None::<char>
            }),
    ;

    // return the index of the give char/symbol
    fn get_index(&self, character: char) -> (r: Option<u8>)
        ensures
            r == (if is_alphabet_char(character) {
                Some(spec_index_of(character))
            } else {
                None::<u8>
            }),
    ;

    fn get_padding(&self) -> (r: char)
        ensures
            r == '=',
    ;
}

pub struct Classic;

impl Alphabet for Classic {
    fn get_char(&self, index: u8) -> (r: Option<char>) {
        let ascii_index: u8 = if index <= 25 {
            index + 65  // A-Z
        } else if index <= 51 {
            index + 71  // a-z
        } else if index <= 61 {
            index - 4  // 0-9
        } else if index == 62 {
            43  // +
        } else if index == 63 {
            47  // /
        } else {
            return None;
        };

        Some(ascii_index as char)
    }

    fn get_index(&self, character: char) -> (r: Option<u8>) {
        if 'A' <= character && character <= 'Z' {
            Some((character as u32 - 65) as u8)
        } else if 'a' <= character && character <= 'z' {
            Some((character as u32 - 71) as u8)
        } else if '0' <= character && character <= '9' {
            Some((character as u32 + 4) as u8)
        } else if character == '+' {
            Some(62)
        } else if character == '/' {
            Some(63)
        } else {
            None
        }
    }

    fn get_padding(&self) -> (r: char) {
        PADDING_CHAR
    }
}

} // verus!
