//! Frame codec: a packet travels as a start marker, the payload, an end
//! marker and a two-digit lowercase hex checksum equal to the sum of the
//! payload bytes modulo 256.
use vstd::prelude::*;

use crate::hex::{hex_byte, hex_digit_char, is_hex_digit, value_to_hex_digit};
use crate::hex_char_val;

verus! {

/// Start marker of every frame.
pub const START_MARKER: u8 = 0x24;

/// End marker that separates the payload from the checksum digits.
pub const END_MARKER: u8 = 0x23;

/// The single positive-acknowledgment byte.
pub const ACK_BYTE: u8 = 0x2b;

/// First byte of an error reply payload.
pub const ERROR_MARKER: u8 = 0x45;

/// Sum of the bytes modulo 256.
pub open spec fn checksum_spec(s: Seq<u8>) -> u8
    decreases s.len(),
{
    if s.len() == 0 {
        0
    } else {
        ((checksum_spec(s.drop_last()) + s.last()) % 256) as u8
    }
}

/// The wire form of a packet with the given payload.
pub open spec fn frame_spec(payload: Seq<u8>) -> Seq<u8> {
    seq![START_MARKER] + payload + seq![END_MARKER] + hex_byte(checksum_spec(payload))
}

/// Whether an accumulated byte string ends in an end marker followed by two
/// hex digits, the shape of a finished frame.
pub open spec fn has_terminator(s: Seq<u8>) -> bool {
    &&& s.len() >= 4
    &&& s[s.len() - 3] == END_MARKER
    &&& is_hex_digit(s[s.len() - 2])
    &&& is_hex_digit(s[s.len() - 1])
}

/// The payload carried by a terminated frame: everything between the start
/// marker and the terminator.
pub open spec fn frame_payload_of(s: Seq<u8>) -> Seq<u8> {
    s.subrange(1, s.len() - 3)
}

/// The checksum value transmitted in a terminated frame's last two digits.
pub open spec fn transmitted_checksum(s: Seq<u8>) -> u8 {
    (hex_char_val(s[s.len() - 2]) * 16 + hex_char_val(s[s.len() - 1])) as u8
}

/// Computes the checksum of a payload.
pub fn checksum(data: &[u8]) -> (r: u8)
    ensures
        r == checksum_spec(data@),
{
    let mut acc: u8 = 0;
    let mut i: usize = 0;
    proof {
        assert(data@.subrange(0, 0) =~= Seq::<u8>::empty());
    }
    while i < data.len()
        invariant
            i <= data@.len(),
            acc == checksum_spec(data@.subrange(0, i as int)),
        decreases data@.len() - i,
    {
        acc = ((acc as u16 + data[i] as u16) % 256) as u8;
        proof {
            assert(data@.subrange(0, i + 1).drop_last() =~= data@.subrange(0, i as int));
            assert(data@.subrange(0, i + 1).last() == data@[i as int]);
        }
        i = i + 1;
    }
    proof {
        assert(data@.subrange(0, data@.len() as int) =~= data@);
    }
    acc
}

/// Encodes a payload into its wire frame.
pub fn encode_frame(payload: &[u8]) -> (r: Vec<u8>)
    ensures
        r@ == frame_spec(payload@),
{
    let sum = checksum(payload);
    let mut out: Vec<u8> = Vec::new();
    out.push(START_MARKER);
    let mut i: usize = 0;
    while i < payload.len()
        invariant
            i <= payload@.len(),
            out@ == seq![START_MARKER] + payload@.subrange(0, i as int),
        decreases payload@.len() - i,
    {
        out.push(payload[i]);
        proof {
            let pre = seq![START_MARKER] + payload@.subrange(0, i as int);
            assert(pre.push(payload@[i as int]) =~= seq![START_MARKER] + payload@.subrange(
                0,
                i + 1,
            ));
        }
        i = i + 1;
    }
    out.push(END_MARKER);
    out.push(value_to_hex_digit(sum / 16));
    out.push(value_to_hex_digit(sum % 16));
    proof {
        assert(payload@.subrange(0, payload@.len() as int) =~= payload@);
        assert(out@ =~= frame_spec(payload@));
    }
    out
}

/// An encoded frame is terminated, starts with the start marker, and
/// carries its own payload and checksum: decoding an encoded packet of any
/// payload returns that payload, and the transmitted checksum agrees with
/// the recomputed one.
pub proof fn lemma_frame_round_trip(p: Seq<u8>)
    ensures
        frame_spec(p).len() == p.len() + 4,
        frame_spec(p)[0] == START_MARKER,
        has_terminator(frame_spec(p)),
        frame_payload_of(frame_spec(p)) == p,
        transmitted_checksum(frame_spec(p)) == checksum_spec(p),
{
    let f = frame_spec(p);
    assert(f.len() == p.len() + 4);
    assert(f[f.len() - 3] == END_MARKER);
    let c = checksum_spec(p);
    assert(c / 16 < 16 && c % 16 < 16);
    assert(is_hex_digit(hex_digit_char(c / 16)));
    assert(is_hex_digit(hex_digit_char(c % 16)));
    assert(f[f.len() - 2] == hex_digit_char(c / 16));
    assert(f[f.len() - 1] == hex_digit_char(c % 16));
    assert(hex_char_val(hex_digit_char(c / 16)) == c / 16);
    assert(hex_char_val(hex_digit_char(c % 16)) == c % 16);
    assert(frame_payload_of(f) =~= p);
}

/// True of the lowercase digits that `frame_spec` itself emits.
pub open spec fn is_lower_hex_digit(c: u8) -> bool {
    (0x30 <= c <= 0x39) || (0x61 <= c <= 0x66)
}

/// Distinct lowercase hex digits denote distinct values.
proof fn lemma_lower_hex_distinct(a: u8, b: u8)
    requires
        is_lower_hex_digit(a),
        is_lower_hex_digit(b),
        a != b,
    ensures
        hex_char_val(a) != hex_char_val(b),
{
}

/// Corrupting either checksum digit of an encoded frame — replacing it with
/// a different lowercase hex digit — leaves a terminated frame with the
/// same payload whose transmitted checksum no longer matches.
pub proof fn lemma_checksum_digit_corrupt(p: Seq<u8>, j: int, d: u8)
    requires
        j == frame_spec(p).len() - 2 || j == frame_spec(p).len() - 1,
        is_lower_hex_digit(d),
        d != frame_spec(p)[j],
    ensures
        ({
            let g = frame_spec(p).update(j, d);
            &&& g[0] == START_MARKER
            &&& has_terminator(g)
            &&& frame_payload_of(g) == p
            &&& transmitted_checksum(g) != checksum_spec(p)
        }),
{
    let f = frame_spec(p);
    let g = f.update(j, d);
    lemma_frame_round_trip(p);
    let c = checksum_spec(p);
    assert(is_lower_hex_digit(hex_digit_char(c / 16)));
    assert(is_lower_hex_digit(hex_digit_char(c % 16)));
    assert(frame_payload_of(g) =~= p);
    if j == f.len() - 2 {
        lemma_lower_hex_distinct(d, hex_digit_char(c / 16));
        assert(hex_char_val(d) != c / 16);
    } else {
        lemma_lower_hex_distinct(d, hex_digit_char(c % 16));
        assert(hex_char_val(d) != c % 16);
    }
}

} // verus!
