//! Fixed-point numbers and vectors as the target stores them: signed
//! values with twelve fractional bits.
use vstd::prelude::*;

use crate::client::le32;

verus! {

/// A 16-bit fixed-point number, raw.
#[derive(Clone, Copy, Default, PartialEq, Eq, Structural, Debug)]
pub struct Fx16(pub i16);

/// A 32-bit fixed-point number, raw.
#[derive(Clone, Copy, Default, PartialEq, Eq, Structural, Debug)]
pub struct Fx32(pub i32);

/// The signed value of a 32-bit two's-complement pattern.
pub open spec fn as_i32(v: int) -> int {
    if v < 0x80000000 {
        v
    } else {
        v - 0x100000000
    }
}

/// Reinterprets a little-endian 32-bit pattern as a signed value.
pub fn i32_from_le(bytes: &[u8]) -> (r: i32)
    requires
        bytes@.len() == 4,
    ensures
        r as int == as_i32(le32(bytes@)),
{
    let v: i64 = bytes[0] as i64 + bytes[1] as i64 * 256 + bytes[2] as i64 * 65536 + bytes[3]
        as i64 * 16777216;
    if v >= 0x80000000 {
        (v - 0x100000000) as i32
    } else {
        v as i32
    }
}

/// A fixed-point position or velocity vector, raw.
#[derive(Clone, Copy, Default, PartialEq, Eq, Structural, Debug)]
pub struct Vec3p {
    pub x: Fx32,
    pub y: Fx32,
    pub z: Fx32,
}

impl Vec3p {
    /// Decodes the twelve bytes a read fetched for a vector: three
    /// little-endian signed components.
    pub fn from_le_bytes(bytes: &[u8]) -> (r: Result<Vec3p, crate::error::GdbError>)
        ensures
            match r {
                Ok(v) => {
                    &&& bytes@.len() == 12
                    &&& v.x.0 as int == as_i32(le32(bytes@.subrange(0, 4)))
                    &&& v.y.0 as int == as_i32(le32(bytes@.subrange(4, 8)))
                    &&& v.z.0 as int == as_i32(le32(bytes@.subrange(8, 12)))
                },
                Err(e) => e is LengthMismatch && bytes@.len() != 12,
            },
    {
        if bytes.len() != 12 {
            return Err(crate::error::GdbError::LengthMismatch);
        }
        let x = i32_from_le(vstd::slice::slice_subrange(bytes, 0, 4));
        let y = i32_from_le(vstd::slice::slice_subrange(bytes, 4, 8));
        let z = i32_from_le(vstd::slice::slice_subrange(bytes, 8, 12));
        Ok(Vec3p { x: Fx32(x), y: Fx32(y), z: Fx32(z) })
    }
}

} // verus!
