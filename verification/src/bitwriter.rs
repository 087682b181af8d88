//! A least-significant-bit-first bit stream writer over an in-memory
//! byte buffer: partial bytes accumulate in a one-byte buffer until eight
//! bits are ready.
use vstd::prelude::*;

verus! {

/// Bit `i` of a byte, counting from the least significant.
pub open spec fn nth_bit(b: u8, i: u8) -> bool {
    ((b >> i) & 1) == 1
}

/// A byte as its eight bits, least significant first.
pub open spec fn byte_bits(b: u8) -> Seq<bool> {
    Seq::new(8, |i: int| nth_bit(b, i as u8))
}

/// A byte string as its bit stream.
pub open spec fn bytes_bits(s: Seq<u8>) -> Seq<bool>
    decreases s.len(),
{
    if s.len() == 0 {
        Seq::empty()
    } else {
        bytes_bits(s.drop_last()) + byte_bits(s.last())
    }
}

/// The bit stream of a byte string, bit by bit.
pub proof fn lemma_bytes_bits_index(s: Seq<u8>)
    ensures
        bytes_bits(s).len() == 8 * s.len(),
        forall|i: int|
            0 <= i < 8 * s.len() ==> #[trigger] bytes_bits(s)[i] == nth_bit(
                s[i / 8],
                (i % 8) as u8,
            ),
    decreases s.len(),
{
    if s.len() > 0 {
        lemma_bytes_bits_index(s.drop_last());
        assert forall|i: int| 0 <= i < 8 * s.len() implies #[trigger] bytes_bits(s)[i]
            == nth_bit(s[i / 8], (i % 8) as u8) by {
            if i < 8 * (s.len() - 1) {
                assert(bytes_bits(s)[i] == bytes_bits(s.drop_last())[i]);
                assert(s.drop_last()[i / 8] == s[i / 8]);
            } else {
                assert(bytes_bits(s)[i] == byte_bits(s.last())[i - 8 * (s.len() - 1)]);
                assert(i / 8 == s.len() - 1 && i % 8 == i - 8 * (s.len() - 1));
            }
        }
    }
}

/// Combining a low fragment with a shifted value mixes their bits:
/// positions below the fragment's width come from the fragment, the rest
/// from the value.
proof fn lemma_mix_bit(a: u8, v: u8, c: u8, i: u8)
    requires
        c < 8,
        i < 8,
        (a >> c) == 0,
    ensures
        nth_bit(a | (v << c), i) == if i < c {
            nth_bit(a, i)
        } else {
            nth_bit(v, (i - c) as u8)
        },
{
    assert((((a | (v << c)) >> i) & 1) == if i < c {
        ((a >> i) & 1)
    } else {
        ((v >> (i - c) as u8) & 1)
    }) by (bit_vector)
        requires
            c < 8,
            i < 8,
            (a >> c) == 0,
    ;
}

/// Shifting twice is shifting by the sum.
proof fn lemma_shift_shift(v: u8, c: u8, i: u8)
    requires
        c < 8,
        i < 8,
        c + i < 8,
    ensures
        nth_bit((v >> c), i) == nth_bit(v, (c + i) as u8),
{
    assert((((v >> c) >> i) & 1) == ((v >> ((c + i) as u8)) & 1)) by (bit_vector)
        requires
            c < 8,
            i < 8,
            c + i < 8,
    ;
}

/// The low `n` bits of `x`, shifted down from position `fp`.
fn extract_bits(x: u8, fp: u8, n: u8) -> (r: u8)
    requires
        fp < 8,
        n <= 8,
        fp + n <= 8,
    ensures
        ((r as u16) >> (n as u16)) == 0,
        forall|t: u8| t < n ==> #[trigger] nth_bit(r, t) == nth_bit(x, (fp + t) as u8),
{
    proof {
        assert((1u16 << (n as u16)) >= 1) by (bit_vector)
            requires
                n <= 8,
        ;
    }
    let mask: u16 = (1u16 << (n as u16)) - 1;
    #[verifier::truncate]
    let r = (((x >> fp) as u16) & mask) as u8;
    proof {
        assert(((r as u16) >> (n as u16)) == 0) by (bit_vector)
            requires
                fp < 8,
                n <= 8,
                fp + n <= 8,
                r == ((((x >> fp) as u16) & (((1u16 << (n as u16)) - 1) as u16)) as u8),
        ;
        assert forall|t: u8| t < n implies #[trigger] nth_bit(r, t) == nth_bit(
            x,
            (fp + t) as u8,
        ) by {
            assert(((r >> t) & 1) == ((x >> ((fp + t) as u8)) & 1)) by (bit_vector)
                requires
                    fp < 8,
                    n <= 8,
                    t < n,
                    fp + n <= 8,
                    r == ((((x >> fp) as u16) & (((1u16 << (n as u16)) - 1) as u16)) as u8),
            ;
        }
    }
    r
}

/// The writer: finished bytes, plus up to seven buffered bits.
pub struct BitWriter {
    output: Vec<u8>,
    buffer: u8,
    bit_count: u8,
}

impl BitWriter {
    /// Every bit written so far, least significant position first.
    pub closed spec fn written(&self) -> Seq<bool> {
        bytes_bits(self.output@) + byte_bits(self.buffer).take(self.bit_count as int)
    }

    /// The buffer holds fewer than eight bits and nothing above them.
    pub closed spec fn wf(&self) -> bool {
        &&& self.bit_count < 8
        &&& (self.buffer >> self.bit_count) == 0
    }

    /// The finished bytes; buffered bits are not yet visible here.
    pub closed spec fn output_spec(&self) -> Seq<u8> {
        self.output@
    }

    /// A writer with nothing written.
    pub fn new() -> (w: Self)
        ensures
            w.wf(),
            w.written() == Seq::<bool>::empty(),
            w.output_spec() == Seq::<u8>::empty(),
    {
        let w = BitWriter { output: Vec::new(), buffer: 0, bit_count: 0 };
        proof {
            assert((0u8 >> 0u8) == 0) by (bit_vector);
            assert(w.written() =~= Seq::<bool>::empty());
        }
        w
    }

    /// Takes the finished bytes out of the writer; buffered bits that do
    /// not yet fill a byte stay behind.
    pub fn take_output(&mut self) -> (r: Vec<u8>)
        ensures
            r@ == old(self).output_spec(),
            final(self).output_spec() == Seq::<u8>::empty(),
            old(self).wf() ==> final(self).wf(),
            final(self).written() == old(self).written().skip(8 * old(self).output_spec().len() as int),
    {
        let mut out: Vec<u8> = Vec::new();
        core::mem::swap(&mut out, &mut self.output);
        proof {
            assert(bytes_bits(Seq::<u8>::empty()) == Seq::<bool>::empty());
            lemma_bytes_bits_index(out@);
            assert(self.written() =~= old(self).written().skip(8 * out@.len() as int));
        }
        out
    }

    /// Appends the low `bits` bits of `value` to the stream; `value` must
    /// not carry anything above them.
    pub fn write_u8(&mut self, value: u8, bits: u8) -> (r: Result<(), ()>)
        requires
            old(self).wf(),
            bits <= 8,
            ((value as u16) >> (bits as u16)) == 0,
        ensures
            r is Ok,
            final(self).wf(),
            final(self).written() == old(self).written() + byte_bits(value).take(bits as int),
    {
        let c = self.bit_count;
        let total = c + bits;
        let merged = self.buffer | (value << c);
        proof {
            assert((value >> bits) == 0 && (value << c) >> c == if c + bits <= 8 {
                value
            } else {
                (value << c) >> c
            }) by (bit_vector)
                requires
                    bits <= 8,
                    c < 8,
                    ((value as u16) >> (bits as u16)) == 0,
            ;
        }
        if total >= 8 {
            self.output.push(merged);
            let leftover = if c == 0 {
                0
            } else {
                value >> ((8 - c) as u8)
            };
            proof {
                let ghost ob = old(self).buffer;
                assert((leftover >> ((total - 8) as u8)) == 0) by (bit_vector)
                    requires
                        c < 8,
                        bits <= 8,
                        c + bits >= 8,
                        total == c + bits,
                        ((value as u16) >> (bits as u16)) == 0,
                        leftover == if c == 0 {
                            0u8
                        } else {
                            value >> ((8 - c) as u8)
                        },
                ;
            }
            self.buffer = leftover;
            self.bit_count = total - 8;
            proof {
                let ghost ob = old(self).buffer;
                let fbits = byte_bits(merged);
                assert forall|i: int| 0 <= i < 8 implies #[trigger] fbits[i] == (if i < c {
                    byte_bits(ob)[i]
                } else {
                    byte_bits(value)[i - c]
                }) by {
                    lemma_mix_bit(ob, value, c, i as u8);
                }
                assert forall|i: int| 0 <= i < total - 8 implies #[trigger] byte_bits(
                    leftover,
                )[i] == byte_bits(value)[i + 8 - c] by {
                    lemma_shift_shift(value, (8 - c) as u8, i as u8);
                }
                assert(bytes_bits(self.output@) == bytes_bits(old(self).output@) + byte_bits(
                    merged,
                )) by {
                    assert(self.output@.drop_last() =~= old(self).output@);
                    assert(self.output@.last() == merged);
                }
                assert(self.written() =~= old(self).written() + byte_bits(value).take(
                    bits as int,
                ));
            }
        } else {
            self.buffer = merged;
            self.bit_count = total;
            proof {
                let ghost ob = old(self).buffer;
                assert((merged >> total) == 0) by (bit_vector)
                    requires
                        c < 8,
                        bits <= 8,
                        c + bits < 8,
                        total == c + bits,
                        ((value as u16) >> (bits as u16)) == 0,
                        (ob >> c) == 0,
                        merged == ob | (value << c),
                ;
                assert forall|i: int| 0 <= i < total implies #[trigger] byte_bits(merged)[i]
                    == (if i < c {
                    byte_bits(ob)[i]
                } else {
                    byte_bits(value)[i - c]
                }) by {
                    lemma_mix_bit(ob, value, c, i as u8);
                }
                assert(self.written() =~= old(self).written() + byte_bits(value).take(
                    bits as int,
                ));
            }
        }
        Ok(())
    }

    /// Appends the bits of `slice` at positions `range` — bit positions
    /// count least-significant-first within each byte, bytes in order.
    #[verifier::rlimit(60)]
    pub fn write_slice_range(&mut self, slice: &[u8], range: core::ops::Range<usize>) -> (r:
        Result<(), ()>)
        requires
            old(self).wf(),
            range.start <= range.end,
            range.end <= 8 * slice@.len(),
        ensures
            r is Ok,
            final(self).wf(),
            final(self).written() == old(self).written() + bytes_bits(slice@).subrange(
                range.start as int,
                range.end as int,
            ),
    {
        let start = range.start;
        let end = range.end;
        let slice_len = slice.len();
        proof {
            assert(slice@.len() == slice_len);
        }
        let mut pos = start;
        proof {
            lemma_bytes_bits_index(slice@);
            assert(old(self).written() + bytes_bits(slice@).subrange(
                start as int,
                start as int,
            ) =~= old(self).written());
        }
        if pos % 8 != 0 && pos < end {
            let byte_i = pos / 8;
            let fp = (pos % 8) as u8;
            let avail = 8 - (pos % 8);
            let n = if end - pos < avail {
                end - pos
            } else {
                avail
            };
            proof {
                assert(pos / 8 < slice@.len()) by (nonlinear_arith)
                    requires
                        pos < end,
                        end <= 8 * slice@.len(),
                ;
            }
            let v = extract_bits(slice[byte_i], fp, n as u8);
            let _ = self.write_u8(v, n as u8);
            proof {
                assert forall|t: int| 0 <= t < n implies #[trigger] byte_bits(v)[t]
                    == bytes_bits(slice@)[pos + t] by {
                    assert(nth_bit(v, t as u8) == nth_bit(slice@[byte_i as int], (fp + t) as u8));
                    assert((pos + t) / 8 == byte_i && (pos + t) % 8 == fp + t)
                        by (nonlinear_arith)
                        requires
                            byte_i == pos / 8,
                            fp == pos % 8,
                            0 <= t < n,
                            n <= 8 - fp,
                            fp < 8,
                    ;
                }
                assert(old(self).written() + bytes_bits(slice@).subrange(
                    start as int,
                    (pos + n) as int,
                ) =~= self.written());
            }
            pos = pos + n;
        }
        let ghost mid = self.written();
        let ghost posm = pos;
        while pos < end && end - pos >= 8
            invariant
                posm <= pos <= end,
                end <= 8 * slice@.len(),
                slice@.len() <= usize::MAX,
                pos % 8 == 0 || pos == end,
                self.wf(),
                self.written() == mid + bytes_bits(slice@).subrange(posm as int, pos as int),
            decreases end - pos,
        {
            proof {
                lemma_bytes_bits_index(slice@);
                assert(pos / 8 < slice@.len()) by (nonlinear_arith)
                    requires
                        pos + 8 <= end,
                        end <= 8 * slice@.len(),
                ;
            }
            let b = slice[pos / 8];
            proof {
                assert(((b as u16) >> 8u16) == 0) by (bit_vector);
            }
            let _ = self.write_u8(b, 8);
            proof {
                let ghost prev = mid + bytes_bits(slice@).subrange(posm as int, pos as int);
                assert forall|t: int| 0 <= t < 8 implies #[trigger] byte_bits(b).take(8)[t]
                    == bytes_bits(slice@)[pos + t] by {
                    assert((pos + t) / 8 == pos / 8 && (pos + t) % 8 == t) by (nonlinear_arith)
                        requires
                            pos % 8 == 0,
                            0 <= t < 8,
                    ;
                }
                assert(prev + byte_bits(b).take(8) =~= mid + bytes_bits(slice@).subrange(
                    posm as int,
                    pos + 8,
                ));
            }
            pos = pos + 8;
        }
        if pos < end {
            let n2 = end - pos;
            proof {
                lemma_bytes_bits_index(slice@);
                assert(pos / 8 < slice@.len()) by (nonlinear_arith)
                    requires
                        pos < end,
                        end <= 8 * slice@.len(),
                ;
            }
            let b2 = slice[pos / 8];
            let v2 = extract_bits(b2, 0, n2 as u8);
            let ghost before = self.written();
            let _ = self.write_u8(v2, n2 as u8);
            proof {
                assert forall|t: int| 0 <= t < n2 implies #[trigger] byte_bits(v2)[t]
                    == bytes_bits(slice@)[pos + t] by {
                    assert(nth_bit(v2, t as u8) == nth_bit(slice@[pos as int / 8], t as u8));
                    assert((pos + t) / 8 == pos / 8 && (pos + t) % 8 == t) by (nonlinear_arith)
                        requires
                            pos % 8 == 0,
                            0 <= t < n2,
                            n2 < 8,
                    ;
                }
                assert(before + byte_bits(v2).take(n2 as int) =~= mid + bytes_bits(
                    slice@,
                ).subrange(posm as int, end as int));
            }
            pos = pos + n2;
        }
        proof {
            assert(bytes_bits(slice@).subrange(start as int, posm as int) + bytes_bits(
                slice@,
            ).subrange(posm as int, end as int) =~= bytes_bits(slice@).subrange(
                start as int,
                end as int,
            ));
            assert(self.written() =~= old(self).written() + bytes_bits(slice@).subrange(
                start as int,
                end as int,
            ));
        }
        Ok(())
    }
}

} // verus!
