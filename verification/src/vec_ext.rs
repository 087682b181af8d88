//! Bit-level editing of byte buffers: shifting a buffer's bit stream up
//! and splicing a range of bits from another buffer into place.
use vstd::prelude::*;

use crate::bitwriter::{bytes_bits, lemma_bytes_bits_index, nth_bit};

verus! {

/// Reads one bit of a buffer's bit stream.
fn get_bit(v: &Vec<u8>, i: usize) -> (r: bool)
    requires
        i < 8 * v@.len(),
    ensures
        r == bytes_bits(v@)[i as int],
{
    proof {
        lemma_bytes_bits_index(v@);
        assert(i / 8 < v@.len() && i % 8 < 8) by (nonlinear_arith)
            requires
                i < 8 * v@.len(),
        ;
    }
    let b = v[i / 8];
    let k = (i % 8) as u8;
    ((b >> k) & 1) == 1
}

/// Writes one bit of a buffer's bit stream, leaving every other bit and
/// the length alone.
fn set_bit(v: &mut Vec<u8>, i: usize, bit: bool)
    requires
        i < 8 * old(v)@.len(),
    ensures
        final(v)@.len() == old(v)@.len(),
        bytes_bits(final(v)@) == bytes_bits(old(v)@).update(i as int, bit),
{
    proof {
        lemma_bytes_bits_index(old(v)@);
        let ghost vlen = old(v)@.len();
        assert(i / 8 < vlen && i % 8 < 8) by (nonlinear_arith)
            requires
                i < 8 * vlen,
        ;
    }
    let j = i / 8;
    let k = (i % 8) as u8;
    let b = v[j];
    let nb = if bit {
        b | (1u8 << k)
    } else {
        b & (!(1u8 << k))
    };
    proof {
        assert forall|t: u8| t < 8 implies #[trigger] nth_bit(nb, t) == (if t == k {
            bit
        } else {
            nth_bit(b, t)
        }) by {
            assert((((if bit {
                b | (1u8 << k)
            } else {
                b & (!(1u8 << k))
            }) >> t) & 1) == (if t == k {
                (if bit {
                    1u8
                } else {
                    0u8
                })
            } else {
                ((b >> t) & 1)
            })) by (bit_vector)
                requires
                    t < 8,
                    k < 8,
            ;
        }
    }
    v.remove(j);
    v.insert(j, nb);
    proof {
        assert(v@ =~= old(v)@.update(j as int, nb));
        lemma_bytes_bits_index(v@);
        assert forall|t: int| 0 <= t < 8 * v@.len() implies #[trigger] bytes_bits(v@)[t]
            == bytes_bits(old(v)@).update(i as int, bit)[t] by {
            assert(bytes_bits(v@)[t] == nth_bit(v@[t / 8], (t % 8) as u8));
            assert(bytes_bits(old(v)@)[t] == nth_bit(old(v)@[t / 8], (t % 8) as u8));
            if t / 8 == j {
                assert(t == i <==> (t % 8) as u8 == (i % 8) as u8) by (nonlinear_arith)
                    requires
                        t / 8 == i / 8,
                        j == i / 8,
                        0 <= t,
                        0 <= i,
                ;
            }
        }
        assert(bytes_bits(v@) =~= bytes_bits(old(v)@).update(i as int, bit));
    }
}

/// Bit-level edits on a byte buffer.
pub trait VecExt {
    /// The buffer's bit stream.
    spec fn bits(&self) -> Seq<bool>;

    /// Shifts the whole bit stream up by `count` zero bits, growing the
    /// buffer by whole bytes; the tail above the shifted data stays zero.
    fn shift_bits_left(&mut self, count: usize)
        requires
            8 * old(self).bits().len() + count + 8 <= usize::MAX,
        ensures
            final(self).bits().len() == old(self).bits().len() + 8 * ((count + 7) / 8 as int),
            forall|i: int|
                0 <= i < count ==> !(#[trigger] final(self).bits()[i]),
            forall|i: int|
                0 <= i < old(self).bits().len() ==> #[trigger] final(self).bits()[count + i]
                    == old(self).bits()[i],
            forall|i: int|
                count + old(self).bits().len() <= i < final(self).bits().len()
                    ==> !(#[trigger] final(self).bits()[i]);

    /// Replaces `count` bits starting at `dst` with the bits of `data`
    /// starting at `src`; every bit outside the window is untouched.
    fn assign_bits(&mut self, dst: usize, data: &[u8], src: usize, count: usize) -> (r: Result<
        (),
        (),
    >)
        requires
            dst + count <= old(self).bits().len(),
            src + count <= 8 * data@.len(),
            dst + count <= usize::MAX,
            src + count <= usize::MAX,
        ensures
            r is Ok,
            final(self).bits().len() == old(self).bits().len(),
            forall|i: int|
                0 <= i < count ==> #[trigger] final(self).bits()[dst + i] == bytes_bits(data@)[
                    src + i
                ],
            forall|i: int|
                0 <= i < final(self).bits().len() && !(dst <= i < dst + count)
                    ==> #[trigger] final(self).bits()[i] == old(self).bits()[i];
}

impl VecExt for Vec<u8> {
    /// The buffer's bytes as a bit stream, least significant bit first.
    open spec fn bits(&self) -> Seq<bool> {
        bytes_bits(self@)
    }

    fn shift_bits_left(&mut self, count: usize) {
        let grow = (count + 7) / 8;
        let old_len = self.len();
        proof {
            lemma_bytes_bits_index(self@);
        }
        let mut shifted: Vec<u8> = Vec::new();
        let mut z: usize = 0;
        while z < old_len + grow
            invariant
                z <= old_len + grow,
                old_len + grow <= usize::MAX,
                shifted@.len() == z,
                forall|j: int| 0 <= j < z ==> (#[trigger] shifted@[j]) == 0,
            decreases old_len + grow - z,
        {
            shifted.push(0);
            z = z + 1;
        }
        proof {
            lemma_bytes_bits_index(shifted@);
            assert forall|i: int| 0 <= i < 8 * shifted@.len() implies !(#[trigger] bytes_bits(
                shifted@,
            )[i]) by {
                assert(bytes_bits(shifted@)[i] == nth_bit(shifted@[i / 8], (i % 8) as u8));
                let k8: u8 = (i % 8) as u8;
                assert(((0u8 >> k8) & 1) != 1) by (bit_vector);
            }
        }
        let mut k: usize = 0;
        let ghost oldbits = bytes_bits(old(self)@);
        proof {
            assert(8 * old(self)@.len() == oldbits.len());
            assert(self@ == old(self)@);
        }
        while k < 8 * old_len
            invariant
                k <= 8 * old_len,
                old_len == old(self)@.len(),
                oldbits == bytes_bits(old(self)@),
                oldbits.len() == 8 * old_len,
                self@ == old(self)@,
                shifted@.len() == old_len + grow,
                count + 8 * old_len <= 8 * shifted@.len(),
                8 * old_len + count + 8 <= usize::MAX,
                forall|i: int|
                    0 <= i < count ==> !(#[trigger] bytes_bits(shifted@)[i]),
                forall|i: int|
                    0 <= i < k ==> #[trigger] bytes_bits(shifted@)[count + i] == oldbits[i],
                forall|i: int|
                    count + k <= i < 8 * shifted@.len() ==> !(#[trigger] bytes_bits(shifted@)[i]),
            decreases 8 * old_len - k,
        {
            proof {
                lemma_bytes_bits_index(shifted@);
                lemma_bytes_bits_index(self@);
            }
            let bit = get_bit(self, k);
            set_bit(&mut shifted, count + k, bit);
            proof {
                lemma_bytes_bits_index(shifted@);
            }
            k = k + 1;
        }
        *self = shifted;
        proof {
            lemma_bytes_bits_index(self@);
            assert(grow as int == (count + 7) / 8 as int);
        }
    }

    fn assign_bits(&mut self, dst: usize, data: &[u8], src: usize, count: usize) -> (r: Result<
        (),
        (),
    >) {
        let mut data_vec: Vec<u8> = Vec::new();
        data_vec.extend_from_slice(data);
        let mut k: usize = 0;
        proof {
            lemma_bytes_bits_index(old(self)@);
            assert(dst + count <= 8 * old(self)@.len());
        }
        while k < count
            invariant
                k <= count,
                data_vec@ == data@,
                dst + count <= 8 * old(self)@.len(),
                src + count <= 8 * data@.len(),
                self@.len() == old(self)@.len(),
                dst + count <= usize::MAX,
                src + count <= usize::MAX,
                forall|i: int|
                    0 <= i < k ==> #[trigger] bytes_bits(self@)[dst + i] == bytes_bits(data@)[
                        src + i
                    ],
                forall|i: int|
                    0 <= i < 8 * self@.len() && !(dst <= i < dst + k)
                        ==> #[trigger] bytes_bits(self@)[i] == bytes_bits(old(self)@)[i],
            decreases count - k,
        {
            proof {
                lemma_bytes_bits_index(self@);
                lemma_bytes_bits_index(data@);
            }
            let bit = get_bit(&data_vec, src + k);
            set_bit(self, dst + k, bit);
            proof {
                lemma_bytes_bits_index(self@);
            }
            k = k + 1;
        }
        proof {
            lemma_bytes_bits_index(self@);
            lemma_bytes_bits_index(old(self)@);
        }
        Ok(())
    }
}

} // verus!
