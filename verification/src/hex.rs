//! Hex codec for protocol payloads: each byte becomes two lowercase hex
//! digits; decoding is the inverse and checks only the length, mapping
//! unexpected characters to the digit value 0.
use vstd::prelude::*;

use crate::error::GdbError;
use crate::hex_char_val;

verus! {

/// Lowercase hex digit for a value below 16.
pub open spec fn hex_digit_char(v: u8) -> u8
    recommends
        v < 16,
{
    if v < 10 {
        (0x30 + v) as u8
    } else {
        (0x61 + v - 10) as u8
    }
}

/// True for the ASCII digits and letters that denote a hex digit.
pub open spec fn is_hex_digit(c: u8) -> bool {
    (0x30 <= c <= 0x39) || (0x61 <= c <= 0x66) || (0x41 <= c <= 0x46)
}

/// The two-digit encoding of one byte.
pub open spec fn hex_byte(b: u8) -> Seq<u8> {
    seq![hex_digit_char(b / 16), hex_digit_char(b % 16)]
}

/// The encoding of a byte string: the bytes' digit pairs, concatenated.
pub open spec fn hex_encode_spec(s: Seq<u8>) -> Seq<u8>
    decreases s.len(),
{
    if s.len() == 0 {
        Seq::empty()
    } else {
        hex_byte(s[0]) + hex_encode_spec(s.drop_first())
    }
}

/// The decoding of a digit string, two characters per byte; a trailing odd
/// character is ignored.
pub open spec fn hex_decode_spec(s: Seq<u8>) -> Seq<u8>
    decreases s.len(),
{
    if s.len() < 2 {
        Seq::empty()
    } else {
        seq![(hex_char_val(s[0]) * 16 + hex_char_val(s[1])) as u8] + hex_decode_spec(s.skip(2))
    }
}

pub proof fn lemma_hex_encode_len(s: Seq<u8>)
    ensures
        hex_encode_spec(s).len() == 2 * s.len(),
    decreases s.len(),
{
    if s.len() > 0 {
        lemma_hex_encode_len(s.drop_first());
    }
}

pub proof fn lemma_hex_decode_len(s: Seq<u8>)
    ensures
        hex_decode_spec(s).len() == s.len() / 2,
    decreases s.len(),
{
    if s.len() >= 2 {
        lemma_hex_decode_len(s.skip(2));
    }
}

/// Decoding a digit pair of an encoded byte gives that byte back.
proof fn lemma_hex_byte_round_trip(b: u8)
    ensures
        hex_char_val(hex_byte(b)[0]) == b / 16,
        hex_char_val(hex_byte(b)[1]) == b % 16,
{
}

/// Hex codec round trip: decoding the encoding of any byte string returns
/// that byte string.
pub proof fn lemma_hex_round_trip(b: Seq<u8>)
    ensures
        hex_decode_spec(hex_encode_spec(b)) == b,
    decreases b.len(),
{
    if b.len() == 0 {
        assert(hex_decode_spec(hex_encode_spec(b)) =~= b);
    } else {
        let e = hex_encode_spec(b);
        lemma_hex_encode_len(b.drop_first());
        assert(e.skip(2) =~= hex_encode_spec(b.drop_first()));
        lemma_hex_byte_round_trip(b[0]);
        lemma_hex_round_trip(b.drop_first());
        assert(hex_decode_spec(e) =~= b);
    }
}

/// Maps a hex digit to its value and any other byte to 0, as the exec
/// counterpart of `hex_char_val`.
pub fn hex_digit_to_value(c: u8) -> (r: u8)
    ensures
        r == hex_char_val(c),
{
    if 0x30 <= c && c <= 0x39 {
        c - 0x30
    } else if 0x61 <= c && c <= 0x66 {
        c - 0x61 + 10
    } else if 0x41 <= c && c <= 0x46 {
        c - 0x41 + 10
    } else {
        0
    }
}

/// Lowercase hex digit of a value below 16.
pub fn value_to_hex_digit(v: u8) -> (r: u8)
    requires
        v < 16,
    ensures
        r == hex_digit_char(v),
{
    if v < 10 {
        0x30 + v
    } else {
        0x61 + v - 10
    }
}

/// Tests whether a byte is an ASCII hex digit.
pub fn is_hex_digit_byte(c: u8) -> (r: bool)
    ensures
        r == is_hex_digit(c),
{
    (0x30 <= c && c <= 0x39) || (0x61 <= c && c <= 0x66) || (0x41 <= c && c <= 0x46)
}

/// Encodes a byte string as lowercase hex, two digits per byte.
pub fn hex_encode(data: &[u8]) -> (r: Vec<u8>)
    ensures
        r@ == hex_encode_spec(data@),
{
    let mut out: Vec<u8> = Vec::new();
    let mut i: usize = 0;
    proof {
        assert(data@.subrange(0, 0) =~= Seq::<u8>::empty());
    }
    while i < data.len()
        invariant
            i <= data@.len(),
            out@ == hex_encode_spec(data@.subrange(0, i as int)),
            out@.len() == 2 * i,
        decreases data@.len() - i,
    {
        proof {
            lemma_hex_encode_len(data@.subrange(0, i as int));
        }
        let b = data[i];
        out.push(value_to_hex_digit(b / 16));
        out.push(value_to_hex_digit(b % 16));
        proof {
            lemma_hex_encode_append(data@.subrange(0, i as int), b);
            assert(data@.subrange(0, i + 1) =~= data@.subrange(0, i as int).push(b));
        }
        i = i + 1;
    }
    proof {
        assert(data@.subrange(0, data@.len() as int) =~= data@);
    }
    out
}

/// Encoding one more byte appends its digit pair.
proof fn lemma_hex_encode_append(s: Seq<u8>, b: u8)
    ensures
        hex_encode_spec(s.push(b)) == hex_encode_spec(s) + hex_byte(b),
    decreases s.len(),
{
    if s.len() == 0 {
        assert(hex_encode_spec(Seq::<u8>::empty()) == Seq::<u8>::empty());
        assert(s.push(b).drop_first() =~= Seq::<u8>::empty());
        assert(hex_encode_spec(s.push(b)) == hex_byte(b) + Seq::<u8>::empty());
        assert(hex_encode_spec(s.push(b)) =~= hex_encode_spec(s) + hex_byte(b));
    } else {
        let s2 = s.drop_first();
        assert(s.push(b).drop_first() =~= s2.push(b));
        lemma_hex_encode_append(s2, b);
        lemma_hex_encode_len(s);
        lemma_hex_encode_len(s2);
        lemma_hex_encode_len(s.push(b));
        assert(hex_encode_spec(s.push(b)) == hex_byte(s[0]) + hex_encode_spec(s2.push(b)));
        assert(hex_encode_spec(s.push(b)) =~= hex_encode_spec(s) + hex_byte(b));
    }
}

/// Decoding one more digit pair appends the byte it denotes.
proof fn lemma_hex_decode_append(s: Seq<u8>, c0: u8, c1: u8)
    requires
        s.len() % 2 == 0,
    ensures
        hex_decode_spec(s + seq![c0, c1]) == hex_decode_spec(s).push(
            (hex_char_val(c0) * 16 + hex_char_val(c1)) as u8,
        ),
    decreases s.len(),
{
    if s.len() == 0 {
        assert(hex_decode_spec(Seq::<u8>::empty()) == Seq::<u8>::empty());
        assert(s + seq![c0, c1] =~= seq![c0, c1]);
        assert(seq![c0, c1].skip(2) =~= Seq::<u8>::empty());
        assert(hex_decode_spec(seq![c0, c1]) == seq![
            (hex_char_val(c0) * 16 + hex_char_val(c1)) as u8,
        ] + Seq::<u8>::empty());
        assert(hex_decode_spec(seq![c0, c1]) =~= hex_decode_spec(s).push(
            (hex_char_val(c0) * 16 + hex_char_val(c1)) as u8,
        ));
    } else {
        let t = s + seq![c0, c1];
        assert(t.skip(2) =~= s.skip(2) + seq![c0, c1]);
        lemma_hex_decode_append(s.skip(2), c0, c1);
        lemma_hex_decode_len(s);
        lemma_hex_decode_len(s.skip(2));
        lemma_hex_decode_len(t);
        assert(t[0] == s[0] && t[1] == s[1]);
        assert(hex_decode_spec(t) == seq![(hex_char_val(s[0]) * 16 + hex_char_val(s[1])) as u8]
            + hex_decode_spec(t.skip(2)));
        assert(hex_decode_spec(t) =~= hex_decode_spec(s).push(
            (hex_char_val(c0) * 16 + hex_char_val(c1)) as u8,
        ));
    }
}

/// Decodes a hex string that must hold exactly `expected` bytes; fails with
/// a length error, and only with a length error, when the input length is
/// not exactly twice `expected`.
pub fn hex_decode(data: &[u8], expected: usize) -> (r: Result<Vec<u8>, GdbError>)
    ensures
        match r {
            Ok(v) => {
                &&& data@.len() == 2 * expected
                &&& v@ == hex_decode_spec(data@)
                &&& v@.len() == expected
            },
            Err(e) => {
                &&& e is LengthMismatch
                &&& data@.len() != 2 * expected
            },
        },
{
    if data.len() % 2 != 0 || data.len() / 2 != expected {
        return Err(GdbError::LengthMismatch);
    }
    proof {
        lemma_hex_decode_len(data@);
    }
    Ok(hex_decode_unchecked(data))
}

/// Decodes a hex string of even length without an expected count; fails
/// with a length error exactly when the length is odd.
pub fn hex_decode_even(data: &[u8]) -> (r: Result<Vec<u8>, GdbError>)
    ensures
        match r {
            Ok(v) => {
                &&& data@.len() % 2 == 0
                &&& v@ == hex_decode_spec(data@)
            },
            Err(e) => {
                &&& e is LengthMismatch
                &&& data@.len() % 2 != 0
            },
        },
{
    if data.len() % 2 != 0 {
        return Err(GdbError::LengthMismatch);
    }
    Ok(hex_decode_unchecked(data))
}

/// Decodes digit pairs from an even-length input.
fn hex_decode_unchecked(data: &[u8]) -> (r: Vec<u8>)
    requires
        data@.len() % 2 == 0,
    ensures
        r@ == hex_decode_spec(data@),
{
    let mut out: Vec<u8> = Vec::new();
    let mut i: usize = 0;
    proof {
        assert(data@.subrange(0, 0) =~= Seq::<u8>::empty());
    }
    while i + 1 < data.len()
        invariant
            i <= data@.len(),
            i % 2 == 0,
            data@.len() % 2 == 0,
            out@ == hex_decode_spec(data@.subrange(0, i as int)),
        decreases data@.len() - i,
    {
        let high = hex_digit_to_value(data[i]);
        let low = hex_digit_to_value(data[i + 1]);
        out.push(high * 16 + low);
        proof {
            lemma_hex_decode_append(
                data@.subrange(0, i as int),
                data@[i as int],
                data@[i + 1],
            );
            assert(data@.subrange(0, i + 2) =~= data@.subrange(0, i as int) + seq![
                data@[i as int],
                data@[i + 1],
            ]);
        }
        i = i + 2;
    }
    proof {
        assert(i == data@.len());
        assert(data@.subrange(0, data@.len() as int) =~= data@);
    }
    out
}

} // verus!
