//! Plain-old-data cells of the emulated process's structures.
use vstd::prelude::*;

verus! {

/// A one-byte boolean as the target stores it: zero is false, anything
/// else is true.
#[derive(Default, Clone, Copy, PartialEq, Eq, Structural, Debug)]
pub struct Bool(pub u8);

impl Bool {
    /// The truth value of the cell.
    pub fn to_bool(&self) -> (r: bool)
        ensures
            r == (self.0 != 0),
    {
        self.0 != 0
    }
}

/// `N` bytes of padding or unexamined data.
#[derive(Clone, Copy, Debug)]
pub struct Pad<const N: usize>(pub [u8; N]);

/// A raw 32-bit pointer into the target's address space.
#[derive(Default, Clone, Copy, PartialEq, Eq, Structural, Debug)]
pub struct Ptr {
    pub ptr: u32,
}

impl Ptr {
    /// A pointer holding the given raw address.
    pub fn new(ptr: u32) -> (r: Self)
        ensures
            r.ptr == ptr,
    {
        Ptr { ptr }
    }

    /// Whether this is the target's null pointer.
    pub fn is_null(&self) -> (r: bool)
        ensures
            r == (self.ptr == 0),
    {
        self.ptr == 0
    }
}

} // verus!
