//! The encoder: partitions the input bytes into groups of three, repacks
//! each group's bits into four six-bit fields, writes each field through
//! the symbol table and pads a short final group with `=`.

use vstd::prelude::*;

use crate::lookup_table::Lookup;
use crate::lookup_table::LookupTable;
use crate::lookup_table::spec_char_of;

verus! {

/// The six-bit fields packed from one group of one to three bytes: a
/// group of `k` bytes carries `8 * k` bits and fills `k + 1` fields.
pub open spec fn spec_chunk_fields(chunk: Seq<u8>) -> Seq<u8>
    recommends
        1 <= chunk.len() <= 3,
{
    if chunk.len() == 1 {
        seq![chunk[0] >> 2, (chunk[0] & 0x03) << 4]
    } else if chunk.len() == 2 {
        seq![
            chunk[0] >> 2,
            ((chunk[0] & 0x03) << 4) | (chunk[1] >> 4),
            (chunk[1] & 0x0F) << 2,
        ]
    } else {
        seq![
            chunk[0] >> 2,
            ((chunk[0] & 0x03) << 4) | (chunk[1] >> 4),
            ((chunk[1] & 0x0F) << 2) | (chunk[2] >> 6),
            chunk[2] & 0x3F,
        ]
    }
}

/// The four characters written for one input group: a character for each
/// packed field, the padding character for each empty slot.
pub open spec fn spec_encode_chunk(chunk: Seq<u8>) -> Seq<char>
    recommends
        1 <= chunk.len() <= 3,
{
    let fields = spec_chunk_fields(chunk);
    Seq::new(4, |j: int| if j < fields.len() {
        spec_char_of(fields[j])
    } else {
        '='
    })
}

/// The whole encoding: every group of three bytes, in input order, as
/// four characters, with no separators.
pub open spec fn spec_encode(s: Seq<u8>) -> Seq<char>
    decreases s.len(),
{
    if s.len() == 0 {
        Seq::empty()
    } else if s.len() <= 3 {
        spec_encode_chunk(s)
    } else {
        spec_encode_chunk(s.take(3)) + spec_encode(s.skip(3))
    }
}

/// Every field packed from a group is a six-bit value, and a group of
/// `k` bytes fills exactly `k + 1` fields.
pub proof fn lemma_fields_in_range(chunk: Seq<u8>)
    requires
        1 <= chunk.len() <= 3,
    ensures
        spec_chunk_fields(chunk).len() == chunk.len() + 1,
        forall|i: int|
            0 <= i < spec_chunk_fields(chunk).len() ==> spec_chunk_fields(chunk)[i] < 64,
{
    let x = chunk[0];
    assert(x >> 2 < 64 && (x & 0x03) << 4 < 64) by (bit_vector);
    if chunk.len() >= 2 {
        let y = chunk[1];
        assert(((x & 0x03) << 4) | (y >> 4) < 64 && (y & 0x0F) << 2 < 64) by (bit_vector);
        if chunk.len() == 3 {
            let z = chunk[2];
            assert(((y & 0x0F) << 2) | (z >> 6) < 64 && z & 0x3F < 64) by (bit_vector);
        }
    }
}

/// Whole groups peel off the front: the encoding of `s` is the encoding
/// of a prefix of full groups followed by the encoding of the rest.
pub proof fn lemma_encode_prefix(s: Seq<u8>, i: int)
    requires
        0 <= i <= s.len(),
        i % 3 == 0,
    ensures
        spec_encode(s) == spec_encode(s.take(i)) + spec_encode(s.skip(i)),
    decreases i,
{
    if i == 0 {
        assert(s.take(0) =~= Seq::<u8>::empty());
        assert(s.skip(0) =~= s);
        assert(spec_encode(s.take(0)) + spec_encode(s.skip(0)) =~= spec_encode(s));
    } else if i == s.len() {
        assert(s.take(i) =~= s);
        assert(s.skip(i) =~= Seq::<u8>::empty());
        assert(spec_encode(s.take(i)) + spec_encode(s.skip(i)) =~= spec_encode(s));
    } else {
        lemma_encode_prefix(s.skip(3), i - 3);
        assert(s.skip(3).take(i - 3) =~= s.take(i).skip(3));
        assert(s.skip(3).skip(i - 3) =~= s.skip(i));
        assert(s.take(i).take(3) =~= s.take(3));
        if i == 3 {
            assert(s.take(3).skip(3) =~= Seq::<u8>::empty());
            assert(spec_encode(s.take(3)) =~= spec_encode_chunk(s.take(3)));
        } else {
            lemma_encode_prefix(s.take(i), 3);
        }
        assert(spec_encode(s.take(i)) + spec_encode(s.skip(i)) =~= spec_encode_chunk(s.take(3))
            + (spec_encode(s.take(i).skip(3)) + spec_encode(s.skip(i))));
    }
}

/// Relies on String::push: appends the given character to the end of the
/// string.
#[verifier::external_body]
fn push_char(s: &mut String, c: char)
    ensures
        final(s)@ == old(s)@.push(c),
{
    s.push(c);
}

// shifts one group of bytes into its six-bit fields
fn shift_bytes_per_chunk(chunk: &[u8]) -> (r: Vec<u8>)
    requires
        1 <= chunk@.len() <= 3,
    ensures
        r@ == spec_chunk_fields(chunk@),
{
    match chunk.len() {
        // 1byte chunk input
        1 => vec![chunk[0] >> 2, (chunk[0] & 0x03) << 4],
        // 2byte chunk input
        2 => vec![
            chunk[0] >> 2,
            ((chunk[0] & 0x03) << 4) | (chunk[1] >> 4),
            (chunk[1] & 0x0F) << 2,
        ],
        // 3byte chunk input
        _ => vec![
            chunk[0] >> 2,
            ((chunk[0] & 0x03) << 4) | (chunk[1] >> 4),
            ((chunk[1] & 0x0F) << 2) | (chunk[2] >> 6),
            chunk[2] & 0x3F,
        ],
    }
}

// encoder per chunk
// converts base64_id to base64_char
fn encode_chunks(chunk: Vec<u8>) -> (r: Vec<char>)
    requires
        2 <= chunk@.len() <= 4,
        forall|i: int| 0 <= i < chunk@.len() ==> chunk@[i] < 64,
    ensures
        r@.len() == 4,
        forall|j: int|
            0 <= j < 4 ==> r@[j] == (if j < chunk@.len() {
                spec_char_of(chunk@[j])
            } else {
                '='
            }),
{
    let mut out: Vec<char> = Vec::new();
    let mut i: usize = 0;
    while i < 4
        invariant
            i <= 4,
            out@.len() == i,
            2 <= chunk@.len() <= 4,
            forall|k: int| 0 <= k < chunk@.len() ==> chunk@[k] < 64,
            forall|j: int|
                0 <= j < i ==> out@[j] == (if j < chunk@.len() {
                    spec_char_of(chunk@[j])
                } else {
                    '='
                }),
        decreases 4 - i,
    {
        if i < chunk.len() {
            out.push(LookupTable.get_b64_char(chunk[i]).unwrap());
        } else {
            out.push(LookupTable.get_padding());
        }
        i += 1;
    }
    out
}

/// Encode the bytes of `input` as text: four characters for every three
/// bytes, the final group padded with `=`.
pub fn encode(input: &[u8]) -> (r: String)
    ensures
        r@ == spec_encode(input@),
{
    let n = input.len();
    let mut encoded = String::new();
    let mut i: usize = 0;
    while i < n
        invariant
            n == input@.len(),
            i <= n,
            i % 3 == 0 || i == n,
            encoded@ == spec_encode(input@.take(i as int)),
        decreases n - i,
    {
        let end = if n - i < 3 {
            n
        } else {
            i + 3
        };
        let chunk = &input[i..end];
        proof {
            lemma_fields_in_range(chunk@);
        }
        let fields = shift_bytes_per_chunk(chunk);
        let chars = encode_chunks(fields);
        push_char(&mut encoded, chars[0]);
        push_char(&mut encoded, chars[1]);
        push_char(&mut encoded, chars[2]);
        push_char(&mut encoded, chars[3]);
        proof {
            lemma_encode_prefix(input@.take(end as int), i as int);
            assert(input@.take(end as int).take(i as int) =~= input@.take(i as int));
            assert(input@.take(end as int).skip(i as int) =~= chunk@);
            assert(spec_encode(chunk@) =~= spec_encode_chunk(chunk@));
            assert(encoded@ =~= spec_encode(input@.take(end as int)));
        }
        i = end;
    }
    proof {
        assert(input@.take(n as int) =~= input@);
    }
    encoded
}

} // verus!
