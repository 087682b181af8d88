//! Client-side engine for a text-framed, checksummed, lock-step remote
//! debug protocol: packet framing and checksums, hex payload codecs,
//! size-bounded chunking of memory transfers, a request registry with a
//! byte cache, and the decisions of the fixed-cadence update scheduler.
//!
//! The engine is sans-io: it consumes and produces byte buffers, and the
//! surrounding application moves those bytes over a socket.
use vstd::prelude::*;

pub mod bitwriter;
pub mod client;
pub mod config;
pub mod error;
pub mod fx32;
pub mod hex;
pub mod packet;
pub mod ph;
pub mod pod;
pub mod sched;
pub mod state;
pub mod stream;
pub mod text_field_list;
pub mod vec_ext;

verus! {

/// Value of a single lowercase/uppercase hex digit; any other byte maps to 0.
pub open spec fn hex_char_val(c: u8) -> u8 {
    if 0x30 <= c <= 0x39 {
        (c - 0x30) as u8
    } else if 0x61 <= c <= 0x66 {
        (c - 0x61 + 10) as u8
    } else if 0x41 <= c <= 0x46 {
        (c - 0x41 + 10) as u8
    } else {
        0
    }
}

/// Maps an ASCII hex digit to its value, and every other character to 0.
pub fn hex_char_to_byte(c: char) -> (r: u8)
    ensures
        c as u32 <= 0xff ==> r == hex_char_val(c as u32 as u8),
        c as u32 > 0xff ==> r == 0,
{
    let n = c as u32;
    if 0x30 <= n && n <= 0x39 {
        (n - 0x30) as u8
    } else if 0x61 <= n && n <= 0x66 {
        (n - 0x61 + 10) as u8
    } else if 0x41 <= n && n <= 0x46 {
        (n - 0x41 + 10) as u8
    } else {
        0
    }
}

} // verus!
