//! A binary-to-text codec over the standard 64-character alphabet.
//!
//! `encode` turns an arbitrary byte sequence into printable text, four
//! characters for every three bytes, padding the final group with `=`.
//! `decode` is its inverse and fails with `InvalidInput` exactly on text
//! that is not well-formed. The laws at the end of this file state the
//! codec's guarantees over the specification-level models.

use vstd::prelude::*;

pub mod alphabet;
pub mod decoder;
pub mod encoder;
pub mod lookup_table;

use crate::decoder::DecodeError;
use crate::decoder::is_valid_encoding;
use crate::decoder::spec_data_len;
use crate::decoder::spec_decode;
use crate::decoder::spec_decode_chunk;
use crate::decoder::spec_group_values;
use crate::encoder::lemma_fields_in_range;
use crate::encoder::spec_chunk_fields;
use crate::encoder::spec_encode;
use crate::encoder::spec_encode_chunk;
use crate::lookup_table::is_alphabet_char;
use crate::lookup_table::lemma_table_bijection;
use crate::lookup_table::spec_index_of;

verus! {

/// Encode arbitrary bytes as text over the 64-character alphabet, the
/// final group padded with `=` to a multiple of four characters.
pub fn encode(input: &[u8]) -> (r: String)
    ensures
        r@ == spec_encode(input@),
{
    encoder::encode(input)
}

/// Decode encoded text back to bytes. Fails with `InvalidInput` exactly
/// when the text is not well-formed.
pub fn decode(input: &str) -> (r: Result<Vec<u8>, DecodeError>)
    ensures
        r is Ok <==> is_valid_encoding(input@),
        r matches Ok(bytes) ==> bytes@ == spec_decode(input@),
        r matches Err(e) ==> e == DecodeError::InvalidInput,
{
    decoder::decode(input)
}

/// One encoded group undoes to its source bytes: the four characters
/// written for a group of one to three bytes hold one alphabet character
/// per packed field and padding after, and decode to exactly the group's
/// bytes.
proof fn lemma_chunk_round_trip(c: Seq<u8>)
    requires
        1 <= c.len() <= 3,
    ensures
        spec_encode_chunk(c).len() == 4,
        forall|j: int|
            0 <= j < 4 ==> (is_alphabet_char(#[trigger] spec_encode_chunk(c)[j]) <==> j < c.len()
                + 1),
        forall|j: int| 0 <= j < 4 ==> (spec_encode_chunk(c)[j] == '=' <==> c.len() + 1 <= j),
        spec_decode_chunk(spec_encode_chunk(c)) == c,
{
    let fields = spec_chunk_fields(c);
    let g = spec_encode_chunk(c);
    lemma_fields_in_range(c);
    assert forall|j: int| 0 <= j < fields.len() implies is_alphabet_char(g[j]) && g[j] != '='
        && spec_index_of(g[j]) == fields[j] by {
        lemma_table_bijection(fields[j]);
    }
    assert(spec_data_len(g) == c.len() + 1);
    assert(spec_group_values(g) =~= fields);
    let x = c[0];
    if c.len() == 1 {
        assert(((x >> 2) << 2) | (((x & 0x03) << 4) >> 4) == x) by (bit_vector);
        assert(spec_decode_chunk(g) =~= c);
    } else {
        let y = c[1];
        if c.len() == 2 {
            assert(((x >> 2) << 2) | ((((x & 0x03) << 4) | (y >> 4)) >> 4) == x) by (bit_vector);
            assert(((((x & 0x03) << 4) | (y >> 4)) << 4) | (((y & 0x0F) << 2) >> 2) == y)
                by (bit_vector);
            assert(spec_decode_chunk(g) =~= c);
        } else {
            let z = c[2];
            assert(((x >> 2) << 2) | ((((x & 0x03) << 4) | (y >> 4)) >> 4) == x) by (bit_vector);
            assert(((((x & 0x03) << 4) | (y >> 4)) << 4) | ((((y & 0x0F) << 2) | (z >> 6)) >> 2)
                == y) by (bit_vector);
            assert(((((y & 0x0F) << 2) | (z >> 6)) << 6) | (z & 0x3F) == z) by (bit_vector);
            assert(spec_decode_chunk(g) =~= c);
        }
    }
}

/// Round trip: every encoding is well-formed text, and decoding it gives
/// back exactly the bytes that were encoded.
pub proof fn lemma_round_trip(bytes: Seq<u8>)
    ensures
        is_valid_encoding(spec_encode(bytes)),
        spec_decode(spec_encode(bytes)) == bytes,
    decreases bytes.len(),
{
    let e = spec_encode(bytes);
    if bytes.len() == 0 {
        assert(spec_decode(e) =~= bytes);
    } else if bytes.len() <= 3 {
        lemma_chunk_round_trip(bytes);
        assert(e.take(4) =~= e);
        assert(e.skip(4) =~= Seq::<char>::empty());
        assert(spec_decode(e) == spec_decode_chunk(e.take(4)) + spec_decode(e.skip(4)));
        assert(spec_decode(e.skip(4)) == Seq::<u8>::empty());
        assert(spec_decode(e) =~= bytes);
    } else {
        let c3 = bytes.take(3);
        let rest = bytes.skip(3);
        let g = spec_encode_chunk(c3);
        let er = spec_encode(rest);
        lemma_chunk_round_trip(c3);
        lemma_round_trip(rest);
        assert(e == g + er);
        assert(e.len() == 4 + er.len());
        assert forall|i: int|
            0 <= i < e.len() implies is_alphabet_char(#[trigger] e[i]) || e[i] == '=' by {
            if i < 4 {
                assert(e[i] == g[i]);
            } else {
                assert(e[i] == er[i - 4]);
            }
        }
        assert forall|i: int|
            0 <= i < e.len() && (#[trigger] e[i]) == '=' implies e.len() - 2 <= i by {
            if i < 4 {
                assert(e[i] == g[i]);
            } else {
                assert(e[i] == er[i - 4]);
            }
        }
        assert forall|i: int|
            0 <= i < e.len() - 1 && (#[trigger] e[i]) == '=' implies e[i + 1] == '=' by {
            if i < 4 {
                assert(e[i] == g[i]);
            } else {
                assert(e[i] == er[i - 4]);
                assert(i - 4 >= er.len() - 2);
                if i - 4 < er.len() - 1 {
                    assert(er[i - 3] == '=');
                    assert(e[i + 1] == er[i - 3]);
                }
            }
        }
        assert(e.take(4) =~= g);
        assert(e.skip(4) =~= er);
        assert(spec_decode(e) == spec_decode_chunk(e.take(4)) + spec_decode(e.skip(4)));
        assert(spec_decode(e) =~= c3 + rest);
        assert(c3 + rest =~= bytes);
    }
}

/// Length law: encoding `bytes` always yields `4 * ceil(len / 3)`
/// characters.
pub proof fn lemma_encode_length(bytes: Seq<u8>)
    ensures
        spec_encode(bytes).len() == 4 * ((bytes.len() + 2) / 3),
    decreases bytes.len(),
{
    if bytes.len() == 0 {
    } else if bytes.len() <= 3 {
        assert(spec_encode(bytes).len() == 4);
    } else {
        lemma_encode_length(bytes.skip(3));
        assert(spec_encode(bytes).len() == 4 + spec_encode(bytes.skip(3)).len());
        assert((bytes.len() + 2) / 3 == 1 + (bytes.len() - 1) / 3);
    }
}

/// Alphabet closure: every character of an encoding is one of the 64
/// alphabet characters or the padding character.
pub proof fn lemma_alphabet_closure(bytes: Seq<u8>)
    ensures
        forall|i: int|
            0 <= i < spec_encode(bytes).len() ==> is_alphabet_char(#[trigger] spec_encode(bytes)[i])
                || spec_encode(bytes)[i] == '=',
{
    lemma_round_trip(bytes);
}

/// Padding bound: an encoding holds at most two padding characters, and
/// only in the last two positions of its final group.
pub proof fn lemma_padding_bound(bytes: Seq<u8>)
    ensures
        forall|i: int|
            0 <= i < spec_encode(bytes).len() && (#[trigger] spec_encode(bytes)[i]) == '='
                ==> spec_encode(bytes).len() - 2 <= i,
{
    lemma_round_trip(bytes);
}

/// Malformed length is rejected: text whose length is not a multiple of
/// four is never well-formed, so `decode` fails with `InvalidInput` on
/// it.
pub proof fn lemma_bad_length_rejected(t: Seq<char>)
    requires
        t.len() % 4 != 0,
    ensures
        !is_valid_encoding(t),
{
}

/// Foreign characters are rejected: text holding any character outside
/// the alphabet and padding set is never well-formed, so `decode` fails
/// with `InvalidInput` on it.
pub proof fn lemma_foreign_char_rejected(t: Seq<char>, i: int)
    requires
        0 <= i < t.len(),
        !is_alphabet_char(t[i]),
        t[i] != '=',
    ensures
        !is_valid_encoding(t),
{
    assert(is_valid_encoding(t) ==> is_alphabet_char(t[i]) || t[i] == '=');
}

} // verus!
