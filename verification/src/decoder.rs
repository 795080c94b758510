//! The decoder: the inverse pipeline. It rejects text whose length is
//! not a multiple of four or that holds a character outside the alphabet
//! and padding set, strips the padding of the final group, maps each
//! character back to its six-bit value and repacks the values into
//! bytes. A repacked slot is kept exactly when it received bits from a
//! present symbol, whatever its numeric value.

use vstd::prelude::*;
use vstd::string::StrSliceExecFns;

use crate::lookup_table::Lookup;
use crate::lookup_table::LookupTable;
use crate::lookup_table::is_alphabet_char;
use crate::lookup_table::lemma_table_bijection_rev;
use crate::lookup_table::spec_index_of;

verus! {

/// The one failure the codec knows: input that no well-formed encoding
/// could produce.
#[derive(Clone, Copy, Debug, PartialEq, Eq, Structural)]
pub enum DecodeError {
    InvalidInput,
}

/// Text a well-formed encoding could look like: a whole number of
/// four-character groups, every character from the alphabet or padding,
/// and padding at most twice, only at the very end.
pub open spec fn is_valid_encoding(t: Seq<char>) -> bool {
    &&& t.len() % 4 == 0
    &&& forall|i: int| 0 <= i < t.len() ==> is_alphabet_char(#[trigger] t[i]) || t[i] == '='
    &&& forall|i: int| 0 <= i < t.len() && (#[trigger] t[i]) == '=' ==> t.len() - 2 <= i
    &&& forall|i: int| 0 <= i < t.len() - 1 && (#[trigger] t[i]) == '=' ==> t[i + 1] == '='
}

/// What one four-character group may hold: data characters throughout,
/// or, in the last group only, one or two trailing padding characters.
pub open spec fn group_ok(g: Seq<char>, last: bool) -> bool
    recommends
        g.len() == 4,
{
    &&& is_alphabet_char(g[0])
    &&& is_alphabet_char(g[1])
    &&& if last {
        ||| is_alphabet_char(g[2]) && is_alphabet_char(g[3])
        ||| is_alphabet_char(g[2]) && g[3] == '='
        ||| g[2] == '=' && g[3] == '='
    } else {
        is_alphabet_char(g[2]) && is_alphabet_char(g[3])
    }
}

/// How many of a group's four characters carry data; the rest is
/// padding.
pub open spec fn spec_data_len(g: Seq<char>) -> int
    recommends
        g.len() == 4,
{
    if g[2] == '=' {
        2
    } else if g[3] == '=' {
        3
    } else {
        4
    }
}

/// The six-bit values of a group's data characters.
pub open spec fn spec_group_values(g: Seq<char>) -> Seq<u8>
    recommends
        g.len() == 4,
{
    Seq::new(spec_data_len(g) as nat, |j: int| spec_index_of(g[j]))
}

/// The inverse bit redistribution: two, three or four six-bit values
/// packed back into one, two or three bytes.
pub open spec fn spec_repack(vs: Seq<u8>) -> Seq<u8>
    recommends
        2 <= vs.len() <= 4,
{
    if vs.len() == 2 {
        seq![(vs[0] << 2) | (vs[1] >> 4)]
    } else if vs.len() == 3 {
        seq![(vs[0] << 2) | (vs[1] >> 4), (vs[1] << 4) | (vs[2] >> 2)]
    } else {
        seq![
            (vs[0] << 2) | (vs[1] >> 4),
            (vs[1] << 4) | (vs[2] >> 2),
            (vs[2] << 6) | vs[3],
        ]
    }
}

/// The bytes recovered from one four-character group.
pub open spec fn spec_decode_chunk(g: Seq<char>) -> Seq<u8>
    recommends
        g.len() == 4,
{
    spec_repack(spec_group_values(g))
}

/// The whole decoding: each four-character group, in order, yields its
/// bytes.
pub open spec fn spec_decode(t: Seq<char>) -> Seq<u8>
    decreases t.len(),
{
    if t.len() < 4 {
        Seq::empty()
    } else {
        spec_decode_chunk(t.take(4)) + spec_decode(t.skip(4))
    }
}

/// Whole groups peel off the front of a decode: the decoding of `t` is
/// the decoding of a prefix of full groups followed by the rest.
pub proof fn lemma_decode_prefix(t: Seq<char>, i: int)
    requires
        0 <= i <= t.len(),
        i % 4 == 0,
    ensures
        spec_decode(t) == spec_decode(t.take(i)) + spec_decode(t.skip(i)),
    decreases i,
{
    if i == 0 {
        assert(t.take(0) =~= Seq::<char>::empty());
        assert(t.skip(0) =~= t);
        assert(spec_decode(t.take(0)) + spec_decode(t.skip(0)) =~= spec_decode(t));
    } else if i == t.len() {
        assert(t.take(i) =~= t);
        assert(t.skip(i) =~= Seq::<char>::empty());
        assert(spec_decode(t.take(i)) + spec_decode(t.skip(i)) =~= spec_decode(t));
    } else {
        lemma_decode_prefix(t.skip(4), i - 4);
        assert(t.skip(4).take(i - 4) =~= t.take(i).skip(4));
        assert(t.skip(4).skip(i - 4) =~= t.skip(i));
        assert(t.take(i).take(4) =~= t.take(4));
        if i == 4 {
            assert(t.take(4).skip(4) =~= Seq::<char>::empty());
        } else {
            lemma_decode_prefix(t.take(i), 4);
        }
        assert(spec_decode(t.take(i)) + spec_decode(t.skip(i)) =~= spec_decode_chunk(t.take(4))
            + (spec_decode(t.take(i).skip(4)) + spec_decode(t.skip(i))));
    }
}

/// In well-formed text, every aligned four-character group is in order,
/// with padding possible only in the last one.
pub proof fn lemma_valid_group(t: Seq<char>, i: int)
    requires
        is_valid_encoding(t),
        0 <= i,
        i + 4 <= t.len(),
        i % 4 == 0,
    ensures
        group_ok(t.subrange(i, i + 4), i + 4 == t.len()),
{
    let g = t.subrange(i, i + 4);
    assert(g[0] == t[i] && g[1] == t[i + 1] && g[2] == t[i + 2] && g[3] == t[i + 3]);
}

// the chars of the input, read once, in order
fn collect_chars(s: &str) -> (r: Vec<char>)
    ensures
        r@ == s@,
{
    let n = s.unicode_len();
    let mut out: Vec<char> = Vec::new();
    let mut i: usize = 0;
    while i < n
        invariant
            n == s@.len(),
            i <= n,
            out@ == s@.take(i as int),
        decreases n - i,
    {
        out.push(s.get_char(i));
        proof {
            assert(out@ =~= s@.take(i + 1));
        }
        i += 1;
    }
    proof {
        assert(s@.take(n as int) =~= s@);
    }
    out
}

// strips the padding of one group and maps its data characters back to
// their six-bit values; padding may stand only at the tail of the last
// group
fn decode_chunk(chunk: &[char], last: bool) -> (r: Result<Vec<u8>, DecodeError>)
    requires
        chunk@.len() == 4,
    ensures
        r is Ok <==> group_ok(chunk@, last),
        r matches Ok(vals) ==> {
            &&& vals@ == spec_group_values(chunk@)
            &&& 2 <= vals@.len() <= 4
            &&& forall|i: int| 0 <= i < vals@.len() ==> vals@[i] < 64
            &&& (!last ==> vals@.len() == 4)
        },
        r matches Err(e) ==> e == DecodeError::InvalidInput,
{
    proof {
        if is_alphabet_char(chunk@[0]) {
            lemma_table_bijection_rev(chunk@[0]);
        }
        if is_alphabet_char(chunk@[1]) {
            lemma_table_bijection_rev(chunk@[1]);
        }
        if is_alphabet_char(chunk@[2]) {
            lemma_table_bijection_rev(chunk@[2]);
        }
        if is_alphabet_char(chunk@[3]) {
            lemma_table_bijection_rev(chunk@[3]);
        }
    }
    let v0 = match LookupTable.get_b64_index(chunk[0]) {
        Some(v) => v,
        None => {
            return Err(DecodeError::InvalidInput);
        },
    };
    let v1 = match LookupTable.get_b64_index(chunk[1]) {
        Some(v) => v,
        None => {
            return Err(DecodeError::InvalidInput);
        },
    };
    let pad = LookupTable.get_padding();
    if chunk[2] == pad {
        if last && chunk[3] == pad {
            let vals = vec![v0, v1];
            proof {
                assert(vals@ =~= spec_group_values(chunk@));
            }
            Ok(vals)
        } else {
            Err(DecodeError::InvalidInput)
        }
    } else {
        let v2 = match LookupTable.get_b64_index(chunk[2]) {
            Some(v) => v,
            None => {
                return Err(DecodeError::InvalidInput);
            },
        };
        if chunk[3] == pad {
            if last {
                let vals = vec![v0, v1, v2];
                proof {
                    assert(vals@ =~= spec_group_values(chunk@));
                }
                Ok(vals)
            } else {
                Err(DecodeError::InvalidInput)
            }
        } else {
            let v3 = match LookupTable.get_b64_index(chunk[3]) {
                Some(v) => v,
                None => {
                    return Err(DecodeError::InvalidInput);
                },
            };
            let vals = vec![v0, v1, v2, v3];
            proof {
                assert(vals@ =~= spec_group_values(chunk@));
            }
            Ok(vals)
        }
    }
}

// packs the six-bit values of one group back into bytes
fn shift_bytes_per_chunk(chunk: Vec<u8>) -> (r: Vec<u8>)
    requires
        2 <= chunk@.len() <= 4,
    ensures
        r@ == spec_repack(chunk@),
{
    match chunk.len() {
        // 2byte chunk input
        2 => vec![(chunk[0] << 2) | (chunk[1] >> 4)],
        // 3byte chunk input
        3 => vec![(chunk[0] << 2) | (chunk[1] >> 4), (chunk[1] << 4) | (chunk[2] >> 2)],
        // 4byte chunk input
        _ => vec![
            (chunk[0] << 2) | (chunk[1] >> 4),
            (chunk[1] << 4) | (chunk[2] >> 2),
            (chunk[2] << 6) | chunk[3],
        ],
    }
}

/// Decode encoded text back to its bytes. Fails with `InvalidInput`
/// exactly when the text is not well-formed: its length is not a
/// multiple of four, a character lies outside the alphabet and padding
/// set, or padding stands anywhere but at the tail of the last group.
/// The empty string is well-formed and decodes to the empty byte
/// sequence, matching the encoding of no bytes.
pub fn decode(input: &str) -> (r: Result<Vec<u8>, DecodeError>)
    ensures
        r is Ok <==> is_valid_encoding(input@),
        r matches Ok(bytes) ==> bytes@ == spec_decode(input@),
        r matches Err(e) ==> e == DecodeError::InvalidInput,
{
    let chars = collect_chars(input);
    let n = chars.len();
    if n % 4 != 0 {
        return Err(DecodeError::InvalidInput);
    }
    let mut decoded: Vec<u8> = Vec::new();
    let mut i: usize = 0;
    while i < n
        invariant
            chars@ == input@,
            n == chars@.len(),
            n % 4 == 0,
            i % 4 == 0,
            i <= n,
            decoded@ == spec_decode(input@.take(i as int)),
            forall|j: int|
                0 <= j < i ==> is_alphabet_char(#[trigger] input@[j]) || input@[j] == '=',
            forall|j: int| 0 <= j < i && (#[trigger] input@[j]) == '=' ==> n - 2 <= j,
            forall|j: int|
                0 <= j < i - 1 && (#[trigger] input@[j]) == '=' ==> input@[j + 1] == '=',
        decreases n - i,
    {
        let last = i + 4 == n;
        let group = &chars[i..i + 4];
        match decode_chunk(group, last) {
            Ok(vals) => {
                let mut bytes = shift_bytes_per_chunk(vals);
                decoded.append(&mut bytes);
                proof {
                    lemma_decode_prefix(input@.take(i + 4), i as int);
                    assert(input@.take(i + 4).take(i as int) =~= input@.take(i as int));
                    assert(input@.take(i + 4).skip(i as int) =~= group@);
                    assert(group@.take(4) =~= group@);
                    assert(group@.skip(4) =~= Seq::<char>::empty());
                    assert(spec_decode(group@) == spec_decode_chunk(group@.take(4))
                        + spec_decode(group@.skip(4)));
                    assert(spec_decode(group@.skip(4)) == Seq::<u8>::empty());
                    assert(spec_decode_chunk(group@) + Seq::<u8>::empty()
                        =~= spec_decode_chunk(group@));
                    assert(decoded@ =~= spec_decode(input@.take(i + 4)));
                }
            },
            Err(e) => {
                proof {
                    if is_valid_encoding(input@) {
                        lemma_valid_group(input@, i as int);
                        assert(input@.subrange(i as int, i + 4) =~= group@);
                    }
                }
                return Err(e);
            },
        }
        i += 4;
    }
    proof {
        assert(input@.take(n as int) =~= input@);
    }
    Ok(decoded)
}

} // verus!
