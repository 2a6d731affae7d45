//! The codec: URL-safe base64 without padding.
//!
//! Bytes are encoded three at a time into four characters of six bits
//! each; a final group of one or two bytes becomes two or three
//! characters and no padding is written. Decoding inverts the packing
//! and rejects any text whose length leaves a remainder of one modulo
//! four or which holds a character outside the alphabet.

use vstd::prelude::*;

use crate::Error;

verus! {

// ---------------------------------------------------------------------------
// The alphabet
// ---------------------------------------------------------------------------

/// Whether the byte `c` is a character of the URL-safe base64 alphabet
/// `A-Z a-z 0-9 - _`.
pub open spec fn is_base64url_char(c: u8) -> bool {
    (65 <= c <= 90)  // 'A'..'Z'
    || (97 <= c <= 122)  // 'a'..'z'
    || (48 <= c <= 57)  // '0'..'9'
    || c == 45  // '-'
    || c == 95  // '_'
}

/// The alphabet character that stands for the six-bit value `v`.
pub open spec fn sextet_to_char(v: u8) -> u8
    recommends
        v < 64,
{
    if v < 26 {
        (v + 65) as u8  // 'A'..'Z'
    } else if v < 52 {
        (v + 71) as u8  // 'a'..'z'
    } else if v < 62 {
        (v - 4) as u8  // '0'..'9'
    } else if v == 62 {
        45u8  // '-'
    } else {
        95u8  // '_'
    }
}

/// The six-bit value that the alphabet character `c` stands for.
pub open spec fn char_to_sextet(c: u8) -> u8
    recommends
        is_base64url_char(c),
{
    if 65 <= c <= 90 {
        (c - 65) as u8
    } else if 97 <= c <= 122 {
        (c - 71) as u8
    } else if 48 <= c <= 57 {
        (c + 4) as u8
    } else if c == 45 {
        62u8
    } else {
        63u8
    }
}

// ---------------------------------------------------------------------------
// Bit packing
// ---------------------------------------------------------------------------

/// The first sextet of a group: the top six bits of the first byte.
pub open spec fn sextet_0(b0: u8) -> u8 {
    b0 >> 2
}

/// The second sextet: the low two bits of the first byte and the top
/// four of the second.
pub open spec fn sextet_1(b0: u8, b1: u8) -> u8 {
    ((b0 & 3) << 4) | (b1 >> 4)
}

/// The second sextet when the group ends after one byte.
pub open spec fn sextet_1_final(b0: u8) -> u8 {
    (b0 & 3) << 4
}

/// The third sextet: the low four bits of the second byte and the top
/// two of the third.
pub open spec fn sextet_2(b1: u8, b2: u8) -> u8 {
    ((b1 & 15) << 2) | (b2 >> 6)
}

/// The third sextet when the group ends after two bytes.
pub open spec fn sextet_2_final(b1: u8) -> u8 {
    (b1 & 15) << 2
}

/// The fourth sextet: the low six bits of the third byte.
pub open spec fn sextet_3(b2: u8) -> u8 {
    b2 & 63
}

/// The first byte of a decoded group, from its first two sextets.
pub open spec fn decoded_byte_0(v0: u8, v1: u8) -> u8 {
    (v0 << 2) | (v1 >> 4)
}

/// The second byte of a decoded group, from its middle two sextets.
pub open spec fn decoded_byte_1(v1: u8, v2: u8) -> u8 {
    ((v1 & 15) << 4) | (v2 >> 2)
}

/// The third byte of a decoded group, from its last two sextets.
pub open spec fn decoded_byte_2(v2: u8, v3: u8) -> u8 {
    ((v2 & 3) << 6) | v3
}

// ---------------------------------------------------------------------------
// Encoding and decoding, as functions on byte sequences
// ---------------------------------------------------------------------------

/// The encoded text of the byte sequence `s`: groups of three bytes
/// become four characters, and a final group of one or two bytes
/// becomes two or three characters.
pub open spec fn encode_spec(s: Seq<u8>) -> Seq<u8>
    decreases s.len(),
{
    if s.len() == 0 {
        Seq::empty()
    } else if s.len() == 1 {
        seq![
            sextet_to_char(sextet_0(s[0])),
            sextet_to_char(sextet_1_final(s[0])),
        ]
    } else if s.len() == 2 {
        seq![
            sextet_to_char(sextet_0(s[0])),
            sextet_to_char(sextet_1(s[0], s[1])),
            sextet_to_char(sextet_2_final(s[1])),
        ]
    } else {
        seq![
            sextet_to_char(sextet_0(s[0])),
            sextet_to_char(sextet_1(s[0], s[1])),
            sextet_to_char(sextet_2(s[1], s[2])),
            sextet_to_char(sextet_3(s[2])),
        ] + encode_spec(s.skip(3))
    }
}

/// Whether `s` is well-formed unpadded base64url text: its length never
/// leaves a remainder of one modulo four, and every character lies in
/// the alphabet.
pub open spec fn is_encoded_text(s: Seq<u8>) -> bool {
    s.len() % 4 != 1 && forall|i: int| 0 <= i < s.len() ==> is_base64url_char(#[trigger] s[i])
}

/// The bytes that the well-formed text `s` decodes to: groups of four
/// characters become three bytes, and a final group of two or three
/// characters becomes one or two bytes.
pub open spec fn decode_spec(s: Seq<u8>) -> Seq<u8>
    recommends
        is_encoded_text(s),
    decreases s.len(),
{
    if s.len() < 2 {
        Seq::empty()
    } else if s.len() == 2 {
        seq![decoded_byte_0(char_to_sextet(s[0]), char_to_sextet(s[1]))]
    } else if s.len() == 3 {
        seq![
            decoded_byte_0(char_to_sextet(s[0]), char_to_sextet(s[1])),
            decoded_byte_1(char_to_sextet(s[1]), char_to_sextet(s[2])),
        ]
    } else {
        seq![
            decoded_byte_0(char_to_sextet(s[0]), char_to_sextet(s[1])),
            decoded_byte_1(char_to_sextet(s[1]), char_to_sextet(s[2])),
            decoded_byte_2(char_to_sextet(s[2]), char_to_sextet(s[3])),
        ] + decode_spec(s.skip(4))
    }
}

// ---------------------------------------------------------------------------
// Lemmas
// ---------------------------------------------------------------------------

/// Every sextet of a group is below 64, and unpacking the sextets of a
/// group gives the group's bytes back.
proof fn lemma_group_bits(b0: u8, b1: u8, b2: u8)
    by (bit_vector)
    ensures
        sextet_0(b0) < 64,
        sextet_1(b0, b1) < 64,
        sextet_1_final(b0) < 64,
        sextet_2(b1, b2) < 64,
        sextet_2_final(b1) < 64,
        sextet_3(b2) < 64,
        decoded_byte_0(sextet_0(b0), sextet_1(b0, b1)) == b0,
        decoded_byte_0(sextet_0(b0), sextet_1_final(b0)) == b0,
        decoded_byte_1(sextet_1(b0, b1), sextet_2(b1, b2)) == b1,
        decoded_byte_1(sextet_1(b0, b1), sextet_2_final(b1)) == b1,
        decoded_byte_2(sextet_2(b1, b2), sextet_3(b2)) == b2,
{
}

/// The character of a six-bit value lies in the alphabet, and reading
/// it back gives the value again.
proof fn lemma_sextet_char_id(v: u8)
    requires
        v < 64,
    ensures
        is_base64url_char(sextet_to_char(v)),
        char_to_sextet(sextet_to_char(v)) == v,
{
}

/// Round trip: encoding any byte sequence yields well-formed text, and
/// decoding that text yields the original bytes again.
pub proof fn lemma_round_trip(b: Seq<u8>)
    ensures
        is_encoded_text(encode_spec(b)),
        decode_spec(encode_spec(b)) == b,
    decreases b.len(),
{
    let e = encode_spec(b);
    if b.len() == 0 {
        assert(decode_spec(e) =~= b);
    } else if b.len() == 1 {
        lemma_group_bits(b[0], 0, 0);
        lemma_sextet_char_id(sextet_0(b[0]));
        lemma_sextet_char_id(sextet_1_final(b[0]));
        assert(decode_spec(e) =~= b);
    } else if b.len() == 2 {
        lemma_group_bits(b[0], b[1], 0);
        lemma_sextet_char_id(sextet_0(b[0]));
        lemma_sextet_char_id(sextet_1(b[0], b[1]));
        lemma_sextet_char_id(sextet_2_final(b[1]));
        assert(decode_spec(e) =~= b);
    } else {
        let rest = b.skip(3);
        lemma_round_trip(rest);
        lemma_group_bits(b[0], b[1], b[2]);
        lemma_sextet_char_id(sextet_0(b[0]));
        lemma_sextet_char_id(sextet_1(b[0], b[1]));
        lemma_sextet_char_id(sextet_2(b[1], b[2]));
        lemma_sextet_char_id(sextet_3(b[2]));
        let er = encode_spec(rest);
        assert(e.len() == 4 + er.len());
        assert(e.len() % 4 != 1) by {
            vstd::arithmetic::div_mod::lemma_mod_add_multiples_vanish(er.len() as int, 4);
        }
        assert forall|i: int| 0 <= i < e.len() implies is_base64url_char(#[trigger] e[i]) by {
            if 4 <= i {
                assert(e[i] == er[i - 4]);
            }
        }
        assert(e.skip(4) =~= er);
        assert(decode_spec(e) =~= b);
    }
}

/// Alphabet closure: every character of an encoded text lies in the
/// URL-safe alphabet, and in particular the characters `+` (43),
/// `/` (47) and `=` (61) never occur.
pub proof fn lemma_alphabet_closure(b: Seq<u8>)
    ensures
        forall|i: int|
            0 <= i < encode_spec(b).len() ==> is_base64url_char(#[trigger] encode_spec(b)[i]),
        forall|i: int|
            0 <= i < encode_spec(b).len() ==> #[trigger] encode_spec(b)[i] != 43
                && encode_spec(b)[i] != 47 && encode_spec(b)[i] != 61,
{
    lemma_round_trip(b);
}

// ---------------------------------------------------------------------------
// Executable codec
// ---------------------------------------------------------------------------

/// The alphabet character of a six-bit value.
fn alphabet_char(v: u8) -> (c: u8)
    requires
        v < 64,
    ensures
        c == sextet_to_char(v),
{
    if v < 26 {
        v + 65
    } else if v < 52 {
        v + 71
    } else if v < 62 {
        v - 4
    } else if v == 62 {
        45
    } else {
        95
    }
}

/// Whether a byte is an alphabet character.
fn is_alphabet_byte(c: u8) -> (b: bool)
    ensures
        b == is_base64url_char(c),
{
    (65 <= c && c <= 90) || (97 <= c && c <= 122) || (48 <= c && c <= 57) || c == 45 || c == 95
}

/// The six-bit value of an alphabet character.
fn alphabet_index(c: u8) -> (v: u8)
    requires
        is_base64url_char(c),
    ensures
        v == char_to_sextet(c),
        v < 64,
{
    if 65 <= c && c <= 90 {
        c - 65
    } else if 97 <= c && c <= 122 {
        c - 71
    } else if 48 <= c && c <= 57 {
        c + 4
    } else if c == 45 {
        62
    } else {
        63
    }
}

/// Encode arbitrary bytes as unpadded base64url text.
pub fn encode_text(input: &[u8]) -> (r: Vec<u8>)
    ensures
        r@ == encode_spec(input@),
{
    let len = input.len();
    let mut out: Vec<u8> = Vec::new();
    let mut i: usize = 0;
    proof {
        assert(input@.skip(0) =~= input@);
        assert(out@ + encode_spec(input@) =~= encode_spec(input@));
    }
    while len - i >= 3
        invariant
            i <= len,
            len == input@.len(),
            out@ + encode_spec(input@.skip(i as int)) == encode_spec(input@),
        decreases len - i,
    {
        let b0 = input[i];
        let b1 = input[i + 1];
        let b2 = input[i + 2];
        proof {
            lemma_group_bits(b0, b1, b2);
            assert(input@.skip(i as int).skip(3) =~= input@.skip(i as int + 3));
        }
        out.push(alphabet_char(b0 >> 2));
        out.push(alphabet_char(((b0 & 3) << 4) | (b1 >> 4)));
        out.push(alphabet_char(((b1 & 15) << 2) | (b2 >> 6)));
        out.push(alphabet_char(b2 & 63));
        i = i + 3;
    }
    if len - i == 1 {
        let b0 = input[i];
        proof {
            lemma_group_bits(b0, 0, 0);
        }
        out.push(alphabet_char(b0 >> 2));
        out.push(alphabet_char((b0 & 3) << 4));
    } else if len - i == 2 {
        let b0 = input[i];
        let b1 = input[i + 1];
        proof {
            lemma_group_bits(b0, b1, 0);
        }
        out.push(alphabet_char(b0 >> 2));
        out.push(alphabet_char(((b0 & 3) << 4) | (b1 >> 4)));
        out.push(alphabet_char((b1 & 15) << 2));
    }
    proof {
        assert(out@ =~= encode_spec(input@));
    }
    out
}

/// Decode unpadded base64url text, strictly: any character outside the
/// alphabet, whitespace included, and any length leaving a remainder of
/// one modulo four are invalid.
pub fn decode_text(input: &[u8]) -> (r: Result<Vec<u8>, Error>)
    ensures
        r is Ok <==> is_encoded_text(input@),
        r is Ok ==> r->Ok_0@ == decode_spec(input@),
        r is Err ==> r->Err_0 == Error::InvalidEncoding,
{
    let len = input.len();
    if len % 4 == 1 {
        return Err(Error::InvalidEncoding);
    }
    let mut i: usize = 0;
    while i < len
        invariant
            i <= len,
            len == input@.len(),
            forall|j: int| 0 <= j < i ==> is_base64url_char(#[trigger] input@[j]),
        decreases len - i,
    {
        if !is_alphabet_byte(input[i]) {
            return Err(Error::InvalidEncoding);
        }
        i = i + 1;
    }
    let mut out: Vec<u8> = Vec::new();
    let mut i: usize = 0;
    proof {
        assert(input@.skip(0) =~= input@);
        assert(out@ + decode_spec(input@) =~= decode_spec(input@));
    }
    while len - i >= 4
        invariant
            i <= len,
            i % 4 == 0,
            len % 4 != 1,
            len == input@.len(),
            forall|j: int| 0 <= j < len ==> is_base64url_char(#[trigger] input@[j]),
            out@ + decode_spec(input@.skip(i as int)) == decode_spec(input@),
        decreases len - i,
    {
        let v0 = alphabet_index(input[i]);
        let v1 = alphabet_index(input[i + 1]);
        let v2 = alphabet_index(input[i + 2]);
        let v3 = alphabet_index(input[i + 3]);
        proof {
            assert(input@.skip(i as int).skip(4) =~= input@.skip(i as int + 4));
        }
        out.push((v0 << 2) | (v1 >> 4));
        out.push(((v1 & 15) << 4) | (v2 >> 2));
        out.push(((v2 & 3) << 6) | v3);
        i = i + 4;
    }
    if len - i == 2 {
        let v0 = alphabet_index(input[i]);
        let v1 = alphabet_index(input[i + 1]);
        out.push((v0 << 2) | (v1 >> 4));
    } else if len - i == 3 {
        let v0 = alphabet_index(input[i]);
        let v1 = alphabet_index(input[i + 1]);
        let v2 = alphabet_index(input[i + 2]);
        out.push((v0 << 2) | (v1 >> 4));
        out.push(((v1 & 15) << 4) | (v2 >> 2));
    }
    proof {
        assert(out@ =~= decode_spec(input@));
    }
    Ok(out)
}

} // verus!
