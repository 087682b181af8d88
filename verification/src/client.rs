//! Protocol client: sequences packet exchanges into semantic operations —
//! memory read, memory write, continue, halt, vendor monitor command —
//! and splits large transfers into packet-size-bounded chunks.
//!
//! Like the stream it drives, the client is sans-io: an operation is
//! started, and then advanced one protocol event at a time while the
//! application shuttles bytes between the stream's buffers and the socket.
use vstd::prelude::*;

use crate::error::GdbError;
use crate::hex::{hex_decode, hex_decode_even, hex_decode_spec, hex_digit_char, hex_encode,
    hex_encode_spec, value_to_hex_digit};
use crate::packet::{frame_spec, ERROR_MARKER};
use crate::stream::{unchanged_state, GdbStream, Step};

verus! {

/// The hex digits of a positive number, most significant first; empty for 0.
pub open spec fn hex_num_rec(n: nat) -> Seq<u8>
    decreases n,
{
    if n == 0 {
        Seq::empty()
    } else {
        hex_num_rec(n / 16).push(hex_digit_char((n % 16) as u8))
    }
}

/// The shortest lowercase hex numeral of a number, as the requests write
/// addresses and lengths.
pub open spec fn hex_num(n: nat) -> Seq<u8> {
    if n == 0 {
        seq![0x30u8]
    } else {
        hex_num_rec(n)
    }
}

/// Appends the digits of `n` (most significant first, nothing for 0).
fn push_hex_rec(n: u32, out: &mut Vec<u8>)
    ensures
        final(out)@ == old(out)@ + hex_num_rec(n as nat),
    decreases n,
{
    if n == 0 {
        proof {
            assert(old(out)@ + hex_num_rec(0) =~= old(out)@);
        }
        return;
    }
    assert(n / 16 < n);
    push_hex_rec(n / 16, out);
    out.push(value_to_hex_digit((n % 16) as u8));
    proof {
        assert(old(out)@ + hex_num_rec((n / 16) as nat).push(hex_digit_char((n % 16) as u8))
            =~= old(out)@ + hex_num_rec(n as nat));
    }
}

/// Writes the shortest lowercase hex numeral of `n`.
pub fn push_hex_num(n: u32, out: &mut Vec<u8>)
    ensures
        final(out)@ == old(out)@ + hex_num(n as nat),
{
    if n == 0 {
        out.push(0x30);
        proof {
            assert(old(out)@.push(0x30u8) =~= old(out)@ + hex_num(0));
        }
    } else {
        push_hex_rec(n, out);
    }
}

/// Payload of one memory-read request for `len` bytes at `addr`.
pub open spec fn read_request_spec(addr: u32, len: u32) -> Seq<u8> {
    seq![0x6du8, 0x20u8] + hex_num(addr as nat) + seq![0x2cu8] + hex_num(len as nat)
}

/// Payload of one memory-write request carrying `data` at `addr`.
pub open spec fn write_request_spec(addr: u32, data: Seq<u8>) -> Seq<u8> {
    seq![0x4du8, 0x20u8] + hex_num(addr as nat) + seq![0x2cu8] + hex_num(data.len()) + seq![
        0x3au8,
    ] + hex_encode_spec(data)
}

/// Payload of the resume command.
pub open spec fn continue_request_spec() -> Seq<u8> {
    seq![0x63u8]
}

/// Payload of the halt request.
pub open spec fn stop_request_spec() -> Seq<u8> {
    seq![0x73u8]
}

/// Payload of a vendor monitor command: the command text, hex-encoded.
pub open spec fn monitor_request_spec(cmd: Seq<u8>) -> Seq<u8> {
    seq![0x71u8, 0x52u8, 0x63u8, 0x6du8, 0x64u8, 0x2cu8] + hex_encode_spec(cmd)
}

/// Builds a memory-read request payload.
pub fn read_request(addr: u32, len: u32) -> (r: Vec<u8>)
    ensures
        r@ == read_request_spec(addr, len),
{
    let mut out: Vec<u8> = Vec::new();
    out.push(0x6d);
    out.push(0x20);
    push_hex_num(addr, &mut out);
    out.push(0x2c);
    push_hex_num(len, &mut out);
    proof {
        assert(out@ =~= read_request_spec(addr, len));
    }
    out
}

/// Builds a memory-write request payload.
pub fn write_request(addr: u32, data: &[u8]) -> (r: Vec<u8>)
    requires
        data@.len() <= u32::MAX,
    ensures
        r@ == write_request_spec(addr, data@),
{
    let mut out: Vec<u8> = Vec::new();
    out.push(0x4d);
    out.push(0x20);
    push_hex_num(addr, &mut out);
    out.push(0x2c);
    push_hex_num(data.len() as u32, &mut out);
    out.push(0x3a);
    let encoded = hex_encode(data);
    let mut i: usize = 0;
    let ghost mid = out@;
    proof {
        assert(mid + encoded@.subrange(0, 0) =~= mid);
    }
    while i < encoded.len()
        invariant
            i <= encoded@.len(),
            out@ == mid + encoded@.subrange(0, i as int),
        decreases encoded@.len() - i,
    {
        out.push(encoded[i]);
        proof {
            assert((mid + encoded@.subrange(0, i as int)).push(encoded@[i as int]) =~= mid
                + encoded@.subrange(0, i + 1));
        }
        i = i + 1;
    }
    proof {
        assert(encoded@.subrange(0, encoded@.len() as int) =~= encoded@);
        assert(out@ =~= write_request_spec(addr, data@));
    }
    out
}

/// Builds a monitor-command request payload.
pub fn monitor_request(cmd: &[u8]) -> (r: Vec<u8>)
    ensures
        r@ == monitor_request_spec(cmd@),
{
    let mut out: Vec<u8> = Vec::new();
    out.push(0x71);
    out.push(0x52);
    out.push(0x63);
    out.push(0x6d);
    out.push(0x64);
    out.push(0x2c);
    let encoded = hex_encode(cmd);
    let mut i: usize = 0;
    let ghost mid = out@;
    proof {
        assert(mid + encoded@.subrange(0, 0) =~= mid);
    }
    while i < encoded.len()
        invariant
            i <= encoded@.len(),
            out@ == mid + encoded@.subrange(0, i as int),
        decreases encoded@.len() - i,
    {
        out.push(encoded[i]);
        proof {
            assert((mid + encoded@.subrange(0, i as int)).push(encoded@[i as int]) =~= mid
                + encoded@.subrange(0, i + 1));
        }
        i = i + 1;
    }
    proof {
        assert(encoded@.subrange(0, encoded@.len() as int) =~= encoded@);
        assert(out@ =~= monitor_request_spec(cmd@));
    }
    out
}

/// One bounded piece of a larger transfer.
pub struct Chunk {
    pub addr: u32,
    pub len: u32,
}

impl Chunk {
    /// The chunk as an (address, length) pair of mathematical integers.
    pub open spec fn view_spec(&self) -> (int, int) {
        (self.addr as int, self.len as int)
    }
}

/// The chunk decomposition of a transfer of `len` bytes at `addr` under a
/// positive per-exchange bound `max`: full chunks at consecutive
/// addresses, then the remainder.
pub open spec fn chunk_seq(addr: int, len: int, max: int) -> Seq<(int, int)>
    decreases len when max > 0
{
    if len <= 0 || max <= 0 {
        Seq::empty()
    } else if len <= max {
        seq![(addr, len)]
    } else {
        seq![(addr, max)] + chunk_seq(addr + max, len - max, max)
    }
}

/// Sum of the chunk lengths.
pub open spec fn chunk_len_sum(s: Seq<(int, int)>) -> int
    decreases s.len(),
{
    if s.len() == 0 {
        0
    } else {
        s[0].1 + chunk_len_sum(s.drop_first())
    }
}

/// Chunking correctness: a bounded transfer of `len` bytes splits into
/// exactly ⌈len/max⌉ chunks whose lengths sum to `len`, which are all
/// nonempty and bounded by `max`, and whose addresses are contiguous —
/// each chunk begins where the previous one ended — hence strictly
/// increasing; a transfer of zero bytes needs zero chunks.
pub proof fn lemma_chunk_plan(addr: int, len: int, max: int)
    requires
        max > 0,
        len >= 0,
    ensures
        ({
            let cs = chunk_seq(addr, len, max);
            &&& cs.len() == (len + max - 1) / max
            &&& (len == 0 <==> cs.len() == 0)
            &&& chunk_len_sum(cs) == len
            &&& forall|i: int| 0 <= i < cs.len() ==> 1 <= (#[trigger] cs[i]).1 <= max
            &&& forall|i: int| 0 <= i < cs.len() ==> (#[trigger] cs[i]).0 == addr + i * max
            &&& forall|i: int|
                0 <= i < cs.len() - 1 ==> (#[trigger] cs[i + 1]).0 == cs[i].0 + cs[i].1
            &&& cs.len() > 0 ==> cs[0].0 == addr
        }),
    decreases len,
{
    let cs = chunk_seq(addr, len, max);
    if len == 0 {
        assert(cs.len() == 0);
        assert((0 + max - 1) / max == 0) by (nonlinear_arith)
            requires
                max > 0,
        ;
    } else if len <= max {
        assert(cs =~= seq![(addr, len)]);
        assert(cs.drop_first() =~= Seq::<(int, int)>::empty());
        assert(chunk_len_sum(Seq::<(int, int)>::empty()) == 0);
        assert(chunk_len_sum(cs) == len);
        assert((len + max - 1) / max == 1) by (nonlinear_arith)
            requires
                max > 0,
                0 < len <= max,
        ;
        assert(cs[0].0 == addr + 0 * max);
    } else {
        lemma_chunk_plan(addr + max, len - max, max);
        let tail = chunk_seq(addr + max, len - max, max);
        assert(cs =~= seq![(addr, max)] + tail);
        assert(cs.drop_first() =~= tail);
        assert(chunk_len_sum(cs) == max + chunk_len_sum(tail));
        assert((len + max - 1) / max == 1 + (len - max + max - 1) / max) by (nonlinear_arith)
            requires
                max > 0,
                len > max,
        ;
        assert forall|i: int| 0 <= i < cs.len() implies (#[trigger] cs[i]).0 == addr + i * max by {
            if i > 0 {
                assert(cs[i] == tail[i - 1]);
                assert(tail[i - 1].0 == addr + max + (i - 1) * max);
                assert(addr + max + (i - 1) * max == addr + i * max) by (nonlinear_arith);
            } else {
                assert(cs[0].0 == addr + 0 * max);
            }
        }
        assert forall|i: int|
            0 <= i < cs.len() - 1 implies (#[trigger] cs[i + 1]).0 == cs[i].0 + cs[i].1 by {
            if i == 0 {
                assert(cs[1].0 == addr + 1 * max) by (nonlinear_arith)
                    requires
                        cs[1].0 == addr + max,
                ;
            } else {
                assert(cs[i + 1] == tail[i]);
                assert(cs[i] == tail[i - 1]);
            }
        }
    }
}

/// A finished read yields exactly the requested number of bytes: the
/// plan a read is started with covers the whole transfer, whatever
/// packet size was negotiated.
pub proof fn lemma_read_plan_total(address: u32, length: u32, ps: Option<u32>)
    requires
        address + length <= u32::MAX,
    ensures
        chunk_len_sum(chunk_seq(address as int, length as int, chunk_bound(ps, length)))
            == length,
{
    lemma_chunk_plan(address as int, length as int, chunk_bound(ps, length));
}

/// The effective per-exchange payload bound: the negotiated maximum packet
/// size minus the framing overhead, halved because replies are
/// hex-encoded; unbounded (one chunk) when nothing was negotiated.
pub open spec fn chunk_bound(ps: Option<u32>, len: u32) -> int {
    match ps {
        Some(p) => if (p as int - 4) / 2 >= 1 {
            (p as int - 4) / 2
        } else {
            1
        },
        None => if len == 0 {
            1
        } else {
            len as int
        },
    }
}

/// Builds the chunk decomposition of a transfer.
pub fn build_chunks(addr: u32, len: u32, ps: Option<u32>) -> (r: Vec<Chunk>)
    requires
        addr + len <= u32::MAX,
    ensures
        r@.map_values(|c: Chunk| c.view_spec()) == chunk_seq(
            addr as int,
            len as int,
            chunk_bound(ps, len),
        ),
{
    let max: u32 = match ps {
        Some(p) => {
            let m = if p >= 4 {
                (p - 4) / 2
            } else {
                0
            };
            if m >= 1 {
                m
            } else {
                1
            }
        },
        None => {
            if len == 0 {
                1
            } else {
                len
            }
        },
    };
    proof {
        assert(max as int == chunk_bound(ps, len));
    }
    let ghost bound = max as int;
    let mut out: Vec<Chunk> = Vec::new();
    let mut cur: u32 = addr;
    let mut rem: u32 = len;
    proof {
        assert(out@.map_values(|c: Chunk| c.view_spec()) =~= Seq::<(int, int)>::empty());
    }
    while rem > 0
        invariant
            max as int == bound,
            bound >= 1,
            cur + rem <= u32::MAX,
            out@.map_values(|c: Chunk| c.view_spec()) + chunk_seq(cur as int, rem as int, bound)
                =~= chunk_seq(addr as int, len as int, bound),
        decreases rem,
    {
        let step = if rem < max {
            rem
        } else {
            max
        };
        let ghost pre = out@.map_values(|c: Chunk| c.view_spec());
        out.push(Chunk { addr: cur, len: step });
        proof {
            let c = Chunk { addr: cur, len: step };
            assert(out@.map_values(|cc: Chunk| cc.view_spec()) =~= pre.push(c.view_spec()));
            if rem <= max {
                assert(chunk_seq(cur as int, rem as int, bound) =~= seq![
                    (cur as int, rem as int),
                ]);
                assert(pre.push(c.view_spec()) + chunk_seq(
                    (cur + step) as int,
                    (rem - step) as int,
                    bound,
                ) =~= pre + chunk_seq(cur as int, rem as int, bound));
            } else {
                assert(chunk_seq(cur as int, rem as int, bound) == seq![(cur as int, bound)]
                    + chunk_seq(cur as int + bound, rem as int - bound, bound));
                assert(pre.push(c.view_spec()) + chunk_seq(
                    (cur + step) as int,
                    (rem - step) as int,
                    bound,
                ) =~= pre + chunk_seq(cur as int, rem as int, bound));
            }
        }
        cur = cur + step;
        rem = rem - step;
    }
    proof {
        assert(chunk_seq(cur as int, 0, bound) =~= Seq::<(int, int)>::empty());
        assert(out@.map_values(|c: Chunk| c.view_spec()) + Seq::<(int, int)>::empty()
            =~= out@.map_values(|c: Chunk| c.view_spec()));
    }
    out
}

/// One bounded piece of a larger write, carrying its slice of the data.
pub struct WriteChunk {
    pub addr: u32,
    pub data: Vec<u8>,
}

impl WriteChunk {
    /// The chunk as an (address, bytes) pair.
    pub open spec fn view_spec(&self) -> (int, Seq<u8>) {
        (self.addr as int, self.data@)
    }
}

/// The chunk decomposition of a write: the data split under the same
/// positive per-exchange bound as reads, at consecutive addresses.
pub open spec fn write_chunk_seq(addr: int, data: Seq<u8>, max: int) -> Seq<(int, Seq<u8>)>
    decreases data.len() when max > 0
{
    if data.len() == 0 || max <= 0 {
        Seq::empty()
    } else if data.len() <= max {
        seq![(addr, data)]
    } else {
        seq![(addr, data.take(max))] + write_chunk_seq(addr + max, data.skip(max), max)
    }
}

/// Builds the chunk decomposition of a write.
pub fn build_write_chunks(addr: u32, data: &[u8], ps: Option<u32>) -> (r: Vec<WriteChunk>)
    requires
        data@.len() <= u32::MAX,
        addr + data@.len() <= u32::MAX,
    ensures
        r@.map_values(|c: WriteChunk| c.view_spec()) == write_chunk_seq(
            addr as int,
            data@,
            chunk_bound(ps, data@.len() as u32),
        ),
{
    let len: u32 = data.len() as u32;
    let max: u32 = match ps {
        Some(p) => {
            let m = if p >= 4 {
                (p - 4) / 2
            } else {
                0
            };
            if m >= 1 {
                m
            } else {
                1
            }
        },
        None => {
            if len == 0 {
                1
            } else {
                len
            }
        },
    };
    proof {
        assert(max as int == chunk_bound(ps, data@.len() as u32));
    }
    let ghost bound = max as int;
    let mut out: Vec<WriteChunk> = Vec::new();
    let mut cur: u32 = addr;
    let mut off: usize = 0;
    proof {
        assert(out@.map_values(|c: WriteChunk| c.view_spec()) =~= Seq::<(int, Seq<u8>)>::empty());
        assert(data@.skip(0) =~= data@);
    }
    while off < data.len()
        invariant
            max as int == bound,
            bound >= 1,
            off <= data@.len(),
            data@.len() <= u32::MAX,
            cur as int == addr + off,
            addr + data@.len() <= u32::MAX,
            out@.map_values(|c: WriteChunk| c.view_spec()) + write_chunk_seq(
                cur as int,
                data@.skip(off as int),
                bound,
            ) =~= write_chunk_seq(addr as int, data@, bound),
        decreases data@.len() - off,
    {
        let rem: usize = data.len() - off;
        let step: usize = if rem < max as usize {
            rem
        } else {
            max as usize
        };
        let piece = vstd::slice::slice_subrange(data, off, off + step);
        let mut piece_vec: Vec<u8> = Vec::new();
        piece_vec.extend_from_slice(piece);
        let ghost pre = out@.map_values(|c: WriteChunk| c.view_spec());
        let ghost restv = data@.skip(off as int);
        out.push(WriteChunk { addr: cur, data: piece_vec });
        proof {
            let c = WriteChunk { addr: cur, data: piece_vec };
            assert(out@.map_values(|cc: WriteChunk| cc.view_spec()) =~= pre.push(c.view_spec()));
            assert(c.view_spec().1 =~= restv.take(step as int));
            if rem <= max as usize {
                assert(write_chunk_seq(cur as int, restv, bound) =~= seq![(cur as int, restv)]);
                assert(restv.take(step as int) =~= restv);
                assert(data@.skip((off + step) as int) =~= restv.skip(step as int));
                assert(write_chunk_seq((cur + step) as int, data@.skip((off + step) as int), bound)
                    =~= Seq::<(int, Seq<u8>)>::empty());
                assert(pre.push(c.view_spec()) + write_chunk_seq(
                    (cur + step as u32) as int,
                    data@.skip((off + step) as int),
                    bound,
                ) =~= pre + write_chunk_seq(cur as int, restv, bound));
            } else {
                assert(write_chunk_seq(cur as int, restv, bound) == seq![
                    (cur as int, restv.take(bound)),
                ] + write_chunk_seq(cur as int + bound, restv.skip(bound), bound));
                assert(data@.skip((off + step) as int) =~= restv.skip(step as int));
                assert(pre.push(c.view_spec()) + write_chunk_seq(
                    (cur + step as u32) as int,
                    data@.skip((off + step) as int),
                    bound,
                ) =~= pre + write_chunk_seq(cur as int, restv, bound));
            }
        }
        cur = cur + step as u32;
        off = off + step;
    }
    proof {
        assert(data@.skip(data@.len() as int) =~= Seq::<u8>::empty());
        assert(write_chunk_seq(cur as int, data@.skip(off as int), bound) =~= Seq::<
            (int, Seq<u8>),
        >::empty());
        assert(out@.map_values(|c: WriteChunk| c.view_spec()) + Seq::<(int, Seq<u8>)>::empty()
            =~= out@.map_values(|c: WriteChunk| c.view_spec()));
    }
    out
}

/// The bytes carried by a sequence of write chunks, in order.
pub open spec fn write_chunks_data(ws: Seq<(int, Seq<u8>)>) -> Seq<u8>
    decreases ws.len(),
{
    if ws.len() == 0 {
        Seq::empty()
    } else {
        ws[0].1 + write_chunks_data(ws.drop_first())
    }
}

/// Write chunking correctness: the chunks carry exactly the written bytes
/// in order, each chunk is nonempty and bounded by `max`, and the
/// addresses are contiguous — each chunk begins where the previous one
/// ended; zero bytes need zero chunks.
pub proof fn lemma_write_chunk_plan(addr: int, data: Seq<u8>, max: int)
    requires
        max > 0,
    ensures
        ({
            let ws = write_chunk_seq(addr, data, max);
            &&& (data.len() == 0 <==> ws.len() == 0)
            &&& write_chunks_data(ws) == data
            &&& forall|i: int|
                0 <= i < ws.len() ==> 1 <= (#[trigger] ws[i]).1.len() <= max && ws[i].1.len()
                    <= data.len()
            &&& ws.len() > 0 ==> ws[0].0 == addr
            &&& forall|i: int|
                0 <= i < ws.len() - 1 ==> (#[trigger] ws[i + 1]).0 == ws[i].0 + ws[i].1.len()
        }),
    decreases data.len(),
{
    let ws = write_chunk_seq(addr, data, max);
    if data.len() == 0 {
        assert(write_chunks_data(ws) =~= data);
    } else if data.len() <= max {
        assert(ws =~= seq![(addr, data)]);
        assert(ws.drop_first() =~= Seq::<(int, Seq<u8>)>::empty());
        assert(write_chunks_data(Seq::<(int, Seq<u8>)>::empty()) == Seq::<u8>::empty());
        assert(write_chunks_data(ws) =~= data);
    } else {
        lemma_write_chunk_plan(addr + max, data.skip(max), max);
        let tail = write_chunk_seq(addr + max, data.skip(max), max);
        assert(ws =~= seq![(addr, data.take(max))] + tail);
        assert(ws.drop_first() =~= tail);
        assert(write_chunks_data(ws) == data.take(max) + write_chunks_data(tail));
        assert(write_chunks_data(ws) =~= data);
        assert forall|i: int|
            0 <= i < ws.len() - 1 implies (#[trigger] ws[i + 1]).0 == ws[i].0 + ws[i].1.len() by {
            if i == 0 {
                assert(ws[1] == tail[0]);
                assert(tail.len() > 0);
                assert(tail[0].0 == addr + max);
            } else {
                assert(ws[i + 1] == tail[i]);
                assert(ws[i] == tail[i - 1]);
            }
        }
    }
}

/// Sum of the lengths of the first `k` chunks.
pub open spec fn chunk_prefix_len(s: Seq<(int, int)>, k: int) -> int {
    chunk_len_sum(s.take(k))
}

/// Taking one more chunk adds exactly its length to the prefix sum.
pub proof fn lemma_chunk_len_sum_take(s: Seq<(int, int)>, k: int)
    requires
        0 <= k < s.len(),
    ensures
        chunk_len_sum(s.take(k + 1)) == chunk_len_sum(s.take(k)) + s[k].1,
    decreases k,
{
    if k == 0 {
        assert(s.take(0) =~= Seq::<(int, int)>::empty());
        assert(chunk_len_sum(Seq::<(int, int)>::empty()) == 0);
        assert(s.take(1).drop_first() =~= Seq::<(int, int)>::empty());
        assert(chunk_len_sum(s.take(1)) == s[0].1);
    } else {
        lemma_chunk_len_sum_take(s.drop_first(), k - 1);
        assert(s.take(k + 1).drop_first() =~= s.drop_first().take(k));
        assert(s.take(k).drop_first() =~= s.drop_first().take(k - 1));
        assert(chunk_len_sum(s.take(k + 1)) == s[0].1 + chunk_len_sum(s.drop_first().take(k)));
        assert(chunk_len_sum(s.take(k)) == s[0].1 + chunk_len_sum(s.drop_first().take(k - 1)));
        assert(s.drop_first()[k - 1] == s[k]);
    }
}

/// Which half of a lock-step exchange the client is waiting for.
pub enum Phase {
    AwaitAck,
    AwaitReply,
}

/// The operation currently in flight, with its progress.
#[allow(inconsistent_fields)]
pub enum Op {
    /// Nothing in flight.
    Idle,
    /// A chunked memory read: bytes decoded so far, and the next chunk.
    Read { chunks: Vec<Chunk>, idx: usize, collected: Vec<u8>, phase: Phase },
    /// A chunked memory write.
    Write { chunks: Vec<WriteChunk>, idx: usize, phase: Phase },
    /// Resume: acknowledged but never answered.
    Continue,
    /// Halt: acknowledged and answered.
    Stop { phase: Phase },
    /// Vendor monitor command: answered with a hex-encoded reply.
    Monitor { phase: Phase },
}

/// What a finished operation yields.
#[derive(Debug)]
pub enum OpOutcome {
    /// The operation carries no data.
    Done,
    /// The bytes read, or a monitor reply's decoded bytes.
    Bytes(Vec<u8>),
}

/// Protocol client: one stream and at most one operation in flight.
pub struct GdbClient {
    stream: GdbStream,
    op: Op,
}

impl Default for GdbClient {
    /// A client with a fresh, disconnected stream and nothing in flight.
    fn default() -> (c: Self)
        ensures
            !c.stream_spec().connected_spec(),
            c.op_spec() is Idle,
            c.wf(),
    {
        GdbClient::new()
    }
}

/// Whether `op` is a read over the given chunk view, progress and phase.
pub open spec fn is_read_op(
    op: Op,
    cview: Seq<(int, int)>,
    idx: int,
    collected: Seq<u8>,
    phase: Phase,
) -> bool {
    op matches Op::Read { chunks, idx: i, collected: c, phase: p } && chunks@.map_values(
        |ch: Chunk| ch.view_spec(),
    ) == cview && i == idx && c@ == collected && p == phase
}

/// Whether `op` is a write over the given chunk view, progress and phase.
pub open spec fn is_write_op(op: Op, wview: Seq<(int, Seq<u8>)>, idx: int, phase: Phase) -> bool {
    op matches Op::Write { chunks, idx: i, phase: p } && chunks@.map_values(
        |ch: WriteChunk| ch.view_spec(),
    ) == wview && i == idx && p == phase
}

impl GdbClient {
    /// The stream the client drives.
    pub closed spec fn stream_spec(&self) -> GdbStream {
        self.stream
    }

    /// The operation in flight.
    pub closed spec fn op_spec(&self) -> Op {
        self.op
    }

    /// Internal consistency of the operation in flight: progress within
    /// bounds, a reply only awaited for a sent chunk, chunk sizes
    /// meaningful, and the collected bytes tracking the finished chunks.
    pub open spec fn wf(&self) -> bool {
        match self.op_spec() {
            Op::Idle => true,
            Op::Read { chunks, idx, collected, phase } => {
                let cv = chunks@.map_values(|c: Chunk| c.view_spec());
                &&& idx <= cv.len()
                &&& (phase is AwaitReply ==> idx < cv.len())
                &&& (forall|i: int| 0 <= i < cv.len() ==> 1 <= (#[trigger] cv[i]).1)
                &&& collected@.len() == chunk_prefix_len(cv, idx as int)
            },
            Op::Write { chunks, idx, phase } => {
                &&& idx <= chunks@.len()
                &&& (phase is AwaitReply ==> idx < chunks@.len())
                &&& (forall|i: int|
                    0 <= i < chunks@.len() ==> (#[trigger] chunks@[i]).data@.len() <= u32::MAX)
            },
            _ => true,
        }
    }

    /// A client with a fresh, disconnected stream and nothing in flight.
    pub fn new() -> (c: Self)
        ensures
            !c.stream_spec().connected_spec(),
            c.stream_spec().inbox_spec() == Seq::<u8>::empty(),
            c.stream_spec().outbox_spec() == Seq::<u8>::empty(),
            c.stream_spec().packet_size_spec() is None,
            c.op_spec() is Idle,
            c.wf(),
    {
        GdbClient { stream: GdbStream::new(), op: Op::Idle }
    }

    /// Opens a session on the stream and abandons any stale operation.
    pub fn connect(&mut self)
        ensures
            final(self).stream_spec().connected_spec(),
            final(self).stream_spec().inbox_spec() == Seq::<u8>::empty(),
            final(self).stream_spec().outbox_spec() == seq![crate::packet::ACK_BYTE],
            final(self).stream_spec().packet_size_spec() is None,
            final(self).op_spec() is Idle,
            final(self).wf(),
    {
        self.op = Op::Idle;
        self.stream.connect();
    }

    /// Tears the session down and abandons any operation in flight.
    pub fn disconnect(&mut self)
        ensures
            !final(self).stream_spec().connected_spec(),
            final(self).stream_spec().inbox_spec() == Seq::<u8>::empty(),
            final(self).stream_spec().outbox_spec() == Seq::<u8>::empty(),
            final(self).op_spec() is Idle,
            final(self).wf(),
    {
        self.op = Op::Idle;
        self.stream.disconnect();
    }

    /// Whether a session is live.
    pub fn is_connected(&self) -> (r: bool)
        ensures
            r == self.stream_spec().connected_spec(),
    {
        self.stream.is_connected()
    }

    /// Whether an operation is in flight.
    pub fn is_busy(&self) -> (r: bool)
        ensures
            r == !(self.op_spec() is Idle),
    {
        !matches!(self.op, Op::Idle)
    }

    /// Records the negotiated maximum packet size.
    pub fn set_packet_size(&mut self, size: Option<u32>)
        requires
            size matches Some(s) ==> s >= 6,
        ensures
            final(self).stream_spec().packet_size_spec() == size,
            final(self).stream_spec().connected_spec() == old(self).stream_spec().connected_spec(),
            final(self).stream_spec().inbox_spec() == old(self).stream_spec().inbox_spec(),
            final(self).stream_spec().outbox_spec() == old(self).stream_spec().outbox_spec(),
            final(self).op_spec() == old(self).op_spec(),
            old(self).wf() ==> final(self).wf(),
    {
        self.stream.set_packet_size(size);
    }

    /// Hands bytes read from the transport to the engine.
    pub fn feed(&mut self, bytes: &[u8])
        ensures
            final(self).stream_spec().inbox_spec() == old(self).stream_spec().inbox_spec()
                + bytes@,
            final(self).stream_spec().outbox_spec() == old(self).stream_spec().outbox_spec(),
            final(self).stream_spec().connected_spec() == old(self).stream_spec().connected_spec(),
            final(self).stream_spec().packet_size_spec() == old(
                self,
            ).stream_spec().packet_size_spec(),
            final(self).op_spec() == old(self).op_spec(),
            old(self).wf() ==> final(self).wf(),
    {
        self.stream.feed(bytes);
    }

    /// Takes every queued outbound byte for the application to write.
    pub fn take_outbox(&mut self) -> (r: Vec<u8>)
        ensures
            r@ == old(self).stream_spec().outbox_spec(),
            final(self).stream_spec().outbox_spec() == Seq::<u8>::empty(),
            final(self).stream_spec().inbox_spec() == old(self).stream_spec().inbox_spec(),
            final(self).stream_spec().connected_spec() == old(self).stream_spec().connected_spec(),
            final(self).stream_spec().packet_size_spec() == old(
                self,
            ).stream_spec().packet_size_spec(),
            final(self).op_spec() == old(self).op_spec(),
            old(self).wf() ==> final(self).wf(),
    {
        self.stream.take_outbox()
    }

    /// Records that the peer closed the connection; fatal.
    pub fn peer_closed(&mut self) -> (e: GdbError)
        ensures
            e is IoFailure,
            !final(self).stream_spec().connected_spec(),
            final(self).op_spec() is Idle,
            final(self).wf(),
    {
        self.op = Op::Idle;
        self.stream.peer_closed()
    }

    /// Completes the connection handshake: consumes the peer's answering
    /// acknowledgment, polling until it has arrived.
    pub fn receive_handshake_ack(&mut self) -> (r: Result<Step<()>, GdbError>)
        requires
            old(self).wf(),
            old(self).op_spec() is Idle,
        ensures
            final(self).wf(),
            final(self).op_spec() is Idle,
            match r {
                Ok(Step::Pending) => {
                    &&& old(self).stream_spec().connected_spec()
                    &&& old(self).stream_spec().inbox_spec().len() == 0
                    &&& unchanged_state(&old(self).stream_spec(), &final(self).stream_spec())
                },
                Ok(Step::Ready(())) => {
                    &&& old(self).stream_spec().connected_spec()
                    &&& final(self).stream_spec().connected_spec()
                    &&& final(self).stream_spec().inbox_spec() == old(
                        self,
                    ).stream_spec().inbox_spec().drop_first()
                    &&& final(self).stream_spec().outbox_spec() == old(
                        self,
                    ).stream_spec().outbox_spec()
                },
                Err(e) => {
                    if !old(self).stream_spec().connected_spec() {
                        &&& e is NotConnected
                        &&& unchanged_state(&old(self).stream_spec(), &final(self).stream_spec())
                    } else {
                        &&& e is ProtocolViolation
                        &&& !final(self).stream_spec().connected_spec()
                    }
                },
            },
    {
        self.stream.receive_ack()
    }

    /// Starts a chunked memory read of `length` bytes at `address`: plans
    /// the chunks under the negotiated bound and sends the first request.
    pub fn start_read(&mut self, address: u32, length: u32) -> (r: Result<(), GdbError>)
        requires
            old(self).wf(),
            old(self).op_spec() is Idle,
            address + length <= u32::MAX,
        ensures
            final(self).wf(),
            match r {
                Ok(()) => {
                    let s0 = old(self).stream_spec();
                    let s1 = final(self).stream_spec();
                    let cview = chunk_seq(
                        address as int,
                        length as int,
                        chunk_bound(s0.packet_size_spec(), length),
                    );
                    &&& s0.connected_spec()
                    &&& is_read_op(
                        final(self).op_spec(),
                        cview,
                        0,
                        Seq::<u8>::empty(),
                        Phase::AwaitAck,
                    )
                    &&& s1.connected_spec()
                    &&& s1.inbox_spec() == s0.inbox_spec()
                    &&& s1.packet_size_spec() == s0.packet_size_spec()
                    &&& if cview.len() > 0 {
                        s1.outbox_spec() == s0.outbox_spec() + frame_spec(
                            read_request_spec(cview[0].0 as u32, cview[0].1 as u32),
                        )
                    } else {
                        s1.outbox_spec() == s0.outbox_spec()
                    }
                },
                Err(e) => {
                    &&& e is NotConnected
                    &&& !old(self).stream_spec().connected_spec()
                    &&& unchanged_state(&old(self).stream_spec(), &final(self).stream_spec())
                    &&& final(self).op_spec() is Idle
                },
            },
    {
        if !self.stream.is_connected() {
            return Err(GdbError::NotConnected);
        }
        let ps = self.stream.packet_size();
        let chunks = build_chunks(address, length, ps);
        proof {
            lemma_chunk_plan(
                address as int,
                length as int,
                chunk_bound(self.stream.packet_size_spec(), length),
            );
        }
        if chunks.len() > 0 {
            let req = read_request(chunks[0].addr, chunks[0].len);
            send_packet_connected(&mut self.stream, req.as_slice());
        }
        let collected: Vec<u8> = Vec::new();
        proof {
            let cview = chunks@.map_values(|c: Chunk| c.view_spec());
            assert(cview.take(0) =~= Seq::<(int, int)>::empty());
            assert(chunk_len_sum(Seq::<(int, int)>::empty()) == 0);
        }
        self.op = Op::Read { chunks, idx: 0, collected, phase: Phase::AwaitAck };
        Ok(())
    }

    /// Starts a chunked memory write of `data` at `address`: the same
    /// per-exchange bound applies to writes as to reads.
    pub fn start_write(&mut self, address: u32, data: &[u8]) -> (r: Result<(), GdbError>)
        requires
            old(self).wf(),
            old(self).op_spec() is Idle,
            data@.len() <= u32::MAX,
            address + data@.len() <= u32::MAX,
        ensures
            final(self).wf(),
            match r {
                Ok(()) => {
                    let s0 = old(self).stream_spec();
                    let s1 = final(self).stream_spec();
                    let wview = write_chunk_seq(
                        address as int,
                        data@,
                        chunk_bound(s0.packet_size_spec(), data@.len() as u32),
                    );
                    &&& s0.connected_spec()
                    &&& is_write_op(final(self).op_spec(), wview, 0, Phase::AwaitAck)
                    &&& s1.connected_spec()
                    &&& s1.inbox_spec() == s0.inbox_spec()
                    &&& s1.packet_size_spec() == s0.packet_size_spec()
                    &&& if wview.len() > 0 {
                        s1.outbox_spec() == s0.outbox_spec() + frame_spec(
                            write_request_spec(wview[0].0 as u32, wview[0].1),
                        )
                    } else {
                        s1.outbox_spec() == s0.outbox_spec()
                    }
                },
                Err(e) => {
                    &&& e is NotConnected
                    &&& !old(self).stream_spec().connected_spec()
                    &&& unchanged_state(&old(self).stream_spec(), &final(self).stream_spec())
                    &&& final(self).op_spec() is Idle
                },
            },
    {
        if !self.stream.is_connected() {
            return Err(GdbError::NotConnected);
        }
        let ps = self.stream.packet_size();
        let chunks = build_write_chunks(address, data, ps);
        proof {
            lemma_write_chunk_plan(
                address as int,
                data@,
                chunk_bound(self.stream.packet_size_spec(), data@.len() as u32),
            );
        }
        if chunks.len() > 0 {
            let req = write_request(chunks[0].addr, chunks[0].data.as_slice());
            send_packet_connected(&mut self.stream, req.as_slice());
        }
        proof {
            let wv = chunks@.map_values(|c: WriteChunk| c.view_spec());
            assert forall|i: int|
                0 <= i < chunks@.len() implies (#[trigger] chunks@[i]).data@.len()
                <= u32::MAX by {
                assert(wv[i] == chunks@[i].view_spec());
                assert(wv[i].1.len() <= data@.len());
            }
        }
        self.op = Op::Write { chunks, idx: 0, phase: Phase::AwaitAck };
        Ok(())
    }

    /// Starts the resume command, which is acknowledged but not answered.
    pub fn start_continue(&mut self) -> (r: Result<(), GdbError>)
        requires
            old(self).wf(),
            old(self).op_spec() is Idle,
        ensures
            final(self).wf(),
            match r {
                Ok(()) => {
                    let s0 = old(self).stream_spec();
                    let s1 = final(self).stream_spec();
                    &&& s0.connected_spec()
                    &&& final(self).op_spec() is Continue
                    &&& s1.connected_spec()
                    &&& s1.inbox_spec() == s0.inbox_spec()
                    &&& s1.packet_size_spec() == s0.packet_size_spec()
                    &&& s1.outbox_spec() == s0.outbox_spec() + frame_spec(continue_request_spec())
                },
                Err(e) => {
                    &&& e is NotConnected
                    &&& !old(self).stream_spec().connected_spec()
                    &&& unchanged_state(&old(self).stream_spec(), &final(self).stream_spec())
                    &&& final(self).op_spec() is Idle
                },
            },
    {
        if !self.stream.is_connected() {
            return Err(GdbError::NotConnected);
        }
        let mut req: Vec<u8> = Vec::new();
        req.push(0x63);
        proof {
            assert(req@ =~= continue_request_spec());
        }
        send_packet_connected(&mut self.stream, req.as_slice());
        self.op = Op::Continue;
        Ok(())
    }

    /// Starts the halt request, which is acknowledged and answered; the
    /// answer must not be an error.
    pub fn start_stop(&mut self) -> (r: Result<(), GdbError>)
        requires
            old(self).wf(),
            old(self).op_spec() is Idle,
        ensures
            final(self).wf(),
            match r {
                Ok(()) => {
                    let s0 = old(self).stream_spec();
                    let s1 = final(self).stream_spec();
                    &&& s0.connected_spec()
                    &&& final(self).op_spec() == (Op::Stop { phase: Phase::AwaitAck })
                    &&& s1.connected_spec()
                    &&& s1.inbox_spec() == s0.inbox_spec()
                    &&& s1.packet_size_spec() == s0.packet_size_spec()
                    &&& s1.outbox_spec() == s0.outbox_spec() + frame_spec(stop_request_spec())
                },
                Err(e) => {
                    &&& e is NotConnected
                    &&& !old(self).stream_spec().connected_spec()
                    &&& unchanged_state(&old(self).stream_spec(), &final(self).stream_spec())
                    &&& final(self).op_spec() is Idle
                },
            },
    {
        if !self.stream.is_connected() {
            return Err(GdbError::NotConnected);
        }
        let mut req: Vec<u8> = Vec::new();
        req.push(0x73);
        proof {
            assert(req@ =~= stop_request_spec());
        }
        send_packet_connected(&mut self.stream, req.as_slice());
        self.op = Op::Stop { phase: Phase::AwaitAck };
        Ok(())
    }

    /// Starts a vendor monitor command carrying `cmd`, hex-encoded.
    pub fn start_monitor(&mut self, cmd: &[u8]) -> (r: Result<(), GdbError>)
        requires
            old(self).wf(),
            old(self).op_spec() is Idle,
        ensures
            final(self).wf(),
            match r {
                Ok(()) => {
                    let s0 = old(self).stream_spec();
                    let s1 = final(self).stream_spec();
                    &&& s0.connected_spec()
                    &&& final(self).op_spec() == (Op::Monitor { phase: Phase::AwaitAck })
                    &&& s1.connected_spec()
                    &&& s1.inbox_spec() == s0.inbox_spec()
                    &&& s1.packet_size_spec() == s0.packet_size_spec()
                    &&& s1.outbox_spec() == s0.outbox_spec() + frame_spec(
                        monitor_request_spec(cmd@),
                    )
                },
                Err(e) => {
                    &&& e is NotConnected
                    &&& !old(self).stream_spec().connected_spec()
                    &&& unchanged_state(&old(self).stream_spec(), &final(self).stream_spec())
                    &&& final(self).op_spec() is Idle
                },
            },
    {
        if !self.stream.is_connected() {
            return Err(GdbError::NotConnected);
        }
        let req = monitor_request(cmd);
        send_packet_connected(&mut self.stream, req.as_slice());
        self.op = Op::Monitor { phase: Phase::AwaitAck };
        Ok(())
    }
}

/// The payload of the frame standing complete in a stream's inbox.
pub open spec fn reply_payload(s: GdbStream) -> Seq<u8> {
    crate::packet::frame_payload_of(s.inbox_spec())
}

/// Whether a reply payload is an error reply.
pub open spec fn is_error_reply(p: Seq<u8>) -> bool {
    p.len() > 0 && p[0] == ERROR_MARKER
}

/// An acknowledgment poll found the inbox empty: nothing changed.
pub open spec fn ack_pending(s0: GdbStream, s1: GdbStream) -> bool {
    &&& s0.connected_spec()
    &&& s0.inbox_spec().len() == 0
    &&& unchanged_state(&s0, &s1)
}

/// The positive acknowledgment byte was consumed.
pub open spec fn ack_consumed(s0: GdbStream, s1: GdbStream) -> bool {
    &&& s0.connected_spec()
    &&& s0.inbox_spec().len() > 0
    &&& s0.inbox_spec()[0] == crate::packet::ACK_BYTE
    &&& s1.connected_spec()
    &&& s1.inbox_spec() == s0.inbox_spec().drop_first()
    &&& s1.outbox_spec() == s0.outbox_spec()
    &&& s1.packet_size_spec() == s0.packet_size_spec()
}

/// An acknowledgment poll failed: either no session, or a negative
/// acknowledgment byte, which tears the session down.
pub open spec fn ack_failed(s0: GdbStream, s1: GdbStream, e: GdbError) -> bool {
    if !s0.connected_spec() {
        &&& e is NotConnected
        &&& unchanged_state(&s0, &s1)
    } else {
        &&& e is ProtocolViolation
        &&& s0.inbox_spec().len() > 0
        &&& s0.inbox_spec()[0] != crate::packet::ACK_BYTE
        &&& !s1.connected_spec()
        &&& s1.inbox_spec().len() == 0
        &&& s1.outbox_spec().len() == 0
    }
}

/// A reply poll found no complete frame yet: nothing changed.
pub open spec fn reply_pending(s0: GdbStream, s1: GdbStream) -> bool {
    &&& s0.connected_spec()
    &&& unchanged_state(&s0, &s1)
    &&& (s0.inbox_spec().len() == 0 || (s0.inbox_spec()[0] == crate::packet::START_MARKER
        && !crate::packet::has_terminator(s0.inbox_spec())))
}

/// A complete, checksum-correct frame was consumed and acknowledged, and
/// `extra` was queued after the acknowledgment.
pub open spec fn reply_consumed(s0: GdbStream, s1: GdbStream, extra: Seq<u8>) -> bool {
    &&& s0.connected_spec()
    &&& s0.inbox_spec().len() > 0
    &&& s0.inbox_spec()[0] == crate::packet::START_MARKER
    &&& crate::packet::has_terminator(s0.inbox_spec())
    &&& crate::packet::transmitted_checksum(s0.inbox_spec()) == crate::packet::checksum_spec(
        reply_payload(s0),
    )
    &&& s1.connected_spec()
    &&& s1.inbox_spec().len() == 0
    &&& s1.outbox_spec() == s0.outbox_spec() + seq![crate::packet::ACK_BYTE] + extra
    &&& s1.packet_size_spec() == s0.packet_size_spec()
}

/// A reply poll failed at the framing level: either no session, a frame
/// without the start marker, or a checksum mismatch; the last two tear
/// the session down.
pub open spec fn reply_failed(s0: GdbStream, s1: GdbStream, e: GdbError) -> bool {
    if !s0.connected_spec() {
        &&& e is NotConnected
        &&& unchanged_state(&s0, &s1)
    } else {
        &&& !s1.connected_spec()
        &&& s1.inbox_spec().len() == 0
        &&& s1.outbox_spec().len() == 0
        &&& s0.inbox_spec().len() > 0
        &&& match e {
            GdbError::ProtocolViolation => s0.inbox_spec()[0] != crate::packet::START_MARKER,
            GdbError::ChecksumMismatch => {
                &&& s0.inbox_spec()[0] == crate::packet::START_MARKER
                &&& crate::packet::has_terminator(s0.inbox_spec())
                &&& crate::packet::transmitted_checksum(s0.inbox_spec())
                    != crate::packet::checksum_spec(reply_payload(s0))
            },
            _ => false,
        }
    }
}

/// Everything `advance` may do, one protocol event per call, as a relation
/// between the client before, the client after, and the outcome.
pub open spec fn advance_post(
    pre: GdbClient,
    post: GdbClient,
    r: Result<Step<OpOutcome>, GdbError>,
) -> bool {
    let s0 = pre.stream_spec();
    let s1 = post.stream_spec();
    match pre.op_spec() {
        Op::Idle => false,
        Op::Continue => match r {
            Ok(Step::Pending) => ack_pending(s0, s1) && post.op_spec() is Continue,
            Ok(Step::Ready(out)) => out is Done && ack_consumed(s0, s1) && post.op_spec() is Idle,
            Err(e) => ack_failed(s0, s1, e) && post.op_spec() is Idle,
        },
        Op::Stop { phase } => match phase {
            Phase::AwaitAck => match r {
                Ok(Step::Pending) => (ack_pending(s0, s1) && post.op_spec() == (Op::Stop {
                    phase: Phase::AwaitAck,
                })) || (ack_consumed(s0, s1) && post.op_spec() == (Op::Stop {
                    phase: Phase::AwaitReply,
                })),
                Ok(Step::Ready(_)) => false,
                Err(e) => ack_failed(s0, s1, e) && post.op_spec() is Idle,
            },
            Phase::AwaitReply => match r {
                Ok(Step::Pending) => reply_pending(s0, s1) && post.op_spec() == (Op::Stop {
                    phase: Phase::AwaitReply,
                }),
                Ok(Step::Ready(out)) => {
                    &&& out is Done
                    &&& reply_consumed(s0, s1, Seq::<u8>::empty())
                    &&& !is_error_reply(reply_payload(s0))
                    &&& post.op_spec() is Idle
                },
                Err(e) => post.op_spec() is Idle && (reply_failed(s0, s1, e) || (e matches
                    GdbError::ServerError(v) && reply_consumed(s0, s1, Seq::<u8>::empty())
                    && is_error_reply(reply_payload(s0)) && v@ == reply_payload(s0))),
            },
        },
        Op::Monitor { phase } => match phase {
            Phase::AwaitAck => match r {
                Ok(Step::Pending) => (ack_pending(s0, s1) && post.op_spec() == (Op::Monitor {
                    phase: Phase::AwaitAck,
                })) || (ack_consumed(s0, s1) && post.op_spec() == (Op::Monitor {
                    phase: Phase::AwaitReply,
                })),
                Ok(Step::Ready(_)) => false,
                Err(e) => ack_failed(s0, s1, e) && post.op_spec() is Idle,
            },
            Phase::AwaitReply => match r {
                Ok(Step::Pending) => reply_pending(s0, s1) && post.op_spec() == (Op::Monitor {
                    phase: Phase::AwaitReply,
                }),
                Ok(Step::Ready(out)) => match out {
                    OpOutcome::Bytes(b) => {
                        &&& reply_consumed(s0, s1, Seq::<u8>::empty())
                        &&& !is_error_reply(reply_payload(s0))
                        &&& reply_payload(s0).len() % 2 == 0
                        &&& b@ == hex_decode_spec(reply_payload(s0))
                        &&& post.op_spec() is Idle
                    },
                    _ => false,
                },
                Err(e) => post.op_spec() is Idle && (reply_failed(s0, s1, e) || (
                    reply_consumed(s0, s1, Seq::<u8>::empty()) && ((e matches
                    GdbError::ServerError(v) && is_error_reply(reply_payload(s0)) && v@
                    == reply_payload(s0)) || (e is LengthMismatch && !is_error_reply(
                        reply_payload(s0),
                    ) && reply_payload(s0).len() % 2 != 0)))),
            },
        },
        Op::Read { chunks, idx, collected, phase } => {
            let cv = chunks@.map_values(|c: Chunk| c.view_spec());
            if idx >= cv.len() {
                match r {
                    Ok(Step::Ready(OpOutcome::Bytes(b))) => {
                        &&& b@ == collected@
                        &&& unchanged_state(&s0, &s1)
                        &&& post.op_spec() is Idle
                    },
                    _ => false,
                }
            } else {
                match phase {
                    Phase::AwaitAck => match r {
                        Ok(Step::Pending) => (ack_pending(s0, s1) && is_read_op(
                            post.op_spec(),
                            cv,
                            idx as int,
                            collected@,
                            Phase::AwaitAck,
                        )) || (ack_consumed(s0, s1) && is_read_op(
                            post.op_spec(),
                            cv,
                            idx as int,
                            collected@,
                            Phase::AwaitReply,
                        )),
                        Ok(Step::Ready(_)) => false,
                        Err(e) => ack_failed(s0, s1, e) && post.op_spec() is Idle,
                    },
                    Phase::AwaitReply => {
                        let p = reply_payload(s0);
                        match r {
                            Ok(Step::Pending) => (reply_pending(s0, s1) && is_read_op(
                                post.op_spec(),
                                cv,
                                idx as int,
                                collected@,
                                Phase::AwaitReply,
                            )) || ({
                                &&& idx + 1 < cv.len()
                                &&& reply_consumed(
                                    s0,
                                    s1,
                                    frame_spec(
                                        read_request_spec(
                                            cv[idx + 1].0 as u32,
                                            cv[idx + 1].1 as u32,
                                        ),
                                    ),
                                )
                                &&& !is_error_reply(p)
                                &&& p.len() == 2 * cv[idx as int].1
                                &&& is_read_op(
                                    post.op_spec(),
                                    cv,
                                    idx + 1,
                                    collected@ + hex_decode_spec(p),
                                    Phase::AwaitAck,
                                )
                            }),
                            Ok(Step::Ready(out)) => match out {
                                OpOutcome::Bytes(b) => {
                                    &&& idx + 1 == cv.len()
                                    &&& reply_consumed(s0, s1, Seq::<u8>::empty())
                                    &&& !is_error_reply(p)
                                    &&& p.len() == 2 * cv[idx as int].1
                                    &&& b@ == collected@ + hex_decode_spec(p)
                                    &&& b@.len() == chunk_len_sum(cv)
                                    &&& post.op_spec() is Idle
                                },
                                _ => false,
                            },
                            Err(e) => post.op_spec() is Idle && (reply_failed(s0, s1, e) || (
                                reply_consumed(s0, s1, Seq::<u8>::empty()) && ((e matches
                                GdbError::ServerError(v) && is_error_reply(p) && v@ == p) || (
                                e is LengthMismatch && !is_error_reply(p) && p.len() != 2 * cv[
                                    idx as int
                                ].1)))),
                        }
                    },
                }
            }
        },
        Op::Write { chunks, idx, phase } => {
            let wv = chunks@.map_values(|c: WriteChunk| c.view_spec());
            if idx >= wv.len() {
                match r {
                    Ok(Step::Ready(out)) => {
                        &&& out is Done
                        &&& unchanged_state(&s0, &s1)
                        &&& post.op_spec() is Idle
                    },
                    _ => false,
                }
            } else {
                match phase {
                    Phase::AwaitAck => match r {
                        Ok(Step::Pending) => (ack_pending(s0, s1) && is_write_op(
                            post.op_spec(),
                            wv,
                            idx as int,
                            Phase::AwaitAck,
                        )) || (ack_consumed(s0, s1) && is_write_op(
                            post.op_spec(),
                            wv,
                            idx as int,
                            Phase::AwaitReply,
                        )),
                        Ok(Step::Ready(_)) => false,
                        Err(e) => ack_failed(s0, s1, e) && post.op_spec() is Idle,
                    },
                    Phase::AwaitReply => {
                        let p = reply_payload(s0);
                        match r {
                            Ok(Step::Pending) => (reply_pending(s0, s1) && is_write_op(
                                post.op_spec(),
                                wv,
                                idx as int,
                                Phase::AwaitReply,
                            )) || ({
                                &&& idx + 1 < wv.len()
                                &&& reply_consumed(
                                    s0,
                                    s1,
                                    frame_spec(
                                        write_request_spec(wv[idx + 1].0 as u32, wv[idx + 1].1),
                                    ),
                                )
                                &&& !is_error_reply(p)
                                &&& is_write_op(post.op_spec(), wv, idx + 1, Phase::AwaitAck)
                            }),
                            Ok(Step::Ready(out)) => {
                                &&& out is Done
                                &&& idx + 1 == wv.len()
                                &&& reply_consumed(s0, s1, Seq::<u8>::empty())
                                &&& !is_error_reply(p)
                                &&& post.op_spec() is Idle
                            },
                            Err(e) => post.op_spec() is Idle && (reply_failed(s0, s1, e) || (
                                reply_consumed(s0, s1, Seq::<u8>::empty()) && (e matches
                                GdbError::ServerError(v) && is_error_reply(p) && v@ == p))),
                        }
                    },
                }
            }
        },
    }
}

impl GdbClient {
    /// Advances the operation in flight by at most one protocol event:
    /// consumes an acknowledgment or a reply frame from the inbox, queues
    /// the acknowledgment owed for a consumed reply and the next chunk's
    /// request, and reports `Ready` with the operation's outcome once the
    /// final exchange is done. Fail-fast: any framing violation, error
    /// reply or length mismatch abandons the whole operation.
    pub fn advance(&mut self) -> (r: Result<Step<OpOutcome>, GdbError>)
        requires
            old(self).wf(),
            !(old(self).op_spec() is Idle),
        ensures
            final(self).wf(),
            advance_post(*old(self), *final(self), r),
    {
        let mut op = Op::Idle;
        core::mem::swap(&mut op, &mut self.op);
        match op {
            Op::Idle => {
                proof {
                    assert(false);
                }
                Err(GdbError::NotConnected)
            },
            Op::Continue => match self.stream.receive_ack() {
                Err(e) => Err(e),
                Ok(Step::Pending) => {
                    self.op = Op::Continue;
                    Ok(Step::Pending)
                },
                Ok(Step::Ready(())) => Ok(Step::Ready(OpOutcome::Done)),
            },
            Op::Stop { phase } => match phase {
                Phase::AwaitAck => match self.stream.receive_ack() {
                    Err(e) => Err(e),
                    Ok(Step::Pending) => {
                        self.op = Op::Stop { phase: Phase::AwaitAck };
                        Ok(Step::Pending)
                    },
                    Ok(Step::Ready(())) => {
                        self.op = Op::Stop { phase: Phase::AwaitReply };
                        Ok(Step::Pending)
                    },
                },
                Phase::AwaitReply => match self.stream.receive_packet() {
                    Err(e) => Err(e),
                    Ok(Step::Pending) => {
                        self.op = Op::Stop { phase: Phase::AwaitReply };
                        Ok(Step::Pending)
                    },
                    Ok(Step::Ready(payload)) => {
                        send_ack_connected(&mut self.stream);
                        if payload.len() > 0 && payload[0] == ERROR_MARKER {
                            return Err(GdbError::ServerError(payload));
                        }
                        Ok(Step::Ready(OpOutcome::Done))
                    },
                },
            },
            Op::Monitor { phase } => match phase {
                Phase::AwaitAck => match self.stream.receive_ack() {
                    Err(e) => Err(e),
                    Ok(Step::Pending) => {
                        self.op = Op::Monitor { phase: Phase::AwaitAck };
                        Ok(Step::Pending)
                    },
                    Ok(Step::Ready(())) => {
                        self.op = Op::Monitor { phase: Phase::AwaitReply };
                        Ok(Step::Pending)
                    },
                },
                Phase::AwaitReply => match self.stream.receive_packet() {
                    Err(e) => Err(e),
                    Ok(Step::Pending) => {
                        self.op = Op::Monitor { phase: Phase::AwaitReply };
                        Ok(Step::Pending)
                    },
                    Ok(Step::Ready(payload)) => {
                        send_ack_connected(&mut self.stream);
                        if payload.len() > 0 && payload[0] == ERROR_MARKER {
                            return Err(GdbError::ServerError(payload));
                        }
                        match hex_decode_even(payload.as_slice()) {
                            Err(e) => Err(e),
                            Ok(decoded) => Ok(Step::Ready(OpOutcome::Bytes(decoded))),
                        }
                    },
                },
            },
            Op::Read { chunks, idx, mut collected, phase } => {
                let ghost cv = chunks@.map_values(|c: Chunk| c.view_spec());
                if idx >= chunks.len() {
                    return Ok(Step::Ready(OpOutcome::Bytes(collected)));
                }
                match phase {
                    Phase::AwaitAck => match self.stream.receive_ack() {
                        Err(e) => Err(e),
                        Ok(Step::Pending) => {
                            self.op = Op::Read { chunks, idx, collected, phase: Phase::AwaitAck };
                            Ok(Step::Pending)
                        },
                        Ok(Step::Ready(())) => {
                            self.op = Op::Read {
                                chunks,
                                idx,
                                collected,
                                phase: Phase::AwaitReply,
                            };
                            Ok(Step::Pending)
                        },
                    },
                    Phase::AwaitReply => match self.stream.receive_packet() {
                        Err(e) => Err(e),
                        Ok(Step::Pending) => {
                            self.op = Op::Read {
                                chunks,
                                idx,
                                collected,
                                phase: Phase::AwaitReply,
                            };
                            Ok(Step::Pending)
                        },
                        Ok(Step::Ready(payload)) => {
                            send_ack_connected(&mut self.stream);
                            if payload.len() > 0 && payload[0] == ERROR_MARKER {
                                return Err(GdbError::ServerError(payload));
                            }
                            let expected = chunks[idx].len as usize;
                            match hex_decode(payload.as_slice(), expected) {
                                Err(e) => Err(e),
                                Ok(mut decoded) => {
                                    proof {
                                        lemma_chunk_len_sum_take(cv, idx as int);
                                    }
                                    collected.append(&mut decoded);
                                    let idx2 = idx + 1;
                                    if idx2 < chunks.len() {
                                        let req = read_request(
                                            chunks[idx2].addr,
                                            chunks[idx2].len,
                                        );
                                        send_packet_connected(&mut self.stream, req.as_slice());
                                        self.op = Op::Read {
                                            chunks,
                                            idx: idx2,
                                            collected,
                                            phase: Phase::AwaitAck,
                                        };
                                        Ok(Step::Pending)
                                    } else {
                                        proof {
                                            assert(cv.take(cv.len() as int) =~= cv);
                                        }
                                        Ok(Step::Ready(OpOutcome::Bytes(collected)))
                                    }
                                },
                            }
                        },
                    },
                }
            },
            Op::Write { chunks, idx, phase } => {
                let ghost wv = chunks@.map_values(|c: WriteChunk| c.view_spec());
                if idx >= chunks.len() {
                    return Ok(Step::Ready(OpOutcome::Done));
                }
                match phase {
                    Phase::AwaitAck => match self.stream.receive_ack() {
                        Err(e) => Err(e),
                        Ok(Step::Pending) => {
                            self.op = Op::Write { chunks, idx, phase: Phase::AwaitAck };
                            Ok(Step::Pending)
                        },
                        Ok(Step::Ready(())) => {
                            self.op = Op::Write { chunks, idx, phase: Phase::AwaitReply };
                            Ok(Step::Pending)
                        },
                    },
                    Phase::AwaitReply => match self.stream.receive_packet() {
                        Err(e) => Err(e),
                        Ok(Step::Pending) => {
                            self.op = Op::Write { chunks, idx, phase: Phase::AwaitReply };
                            Ok(Step::Pending)
                        },
                        Ok(Step::Ready(payload)) => {
                            send_ack_connected(&mut self.stream);
                            if payload.len() > 0 && payload[0] == ERROR_MARKER {
                                return Err(GdbError::ServerError(payload));
                            }
                            let idx2 = idx + 1;
                            if idx2 < chunks.len() {
                                let req = write_request(
                                    chunks[idx2].addr,
                                    chunks[idx2].data.as_slice(),
                                );
                                send_packet_connected(&mut self.stream, req.as_slice());
                                self.op = Op::Write { chunks, idx: idx2, phase: Phase::AwaitAck };
                                Ok(Step::Pending)
                            } else {
                                Ok(Step::Ready(OpOutcome::Done))
                            }
                        },
                    },
                }
            },
        }
    }
}

/// The little-endian value of two bytes.
pub open spec fn le16(b: Seq<u8>) -> int {
    b[0] + 256 * b[1]
}

/// The little-endian value of four bytes.
pub open spec fn le32(b: Seq<u8>) -> int {
    b[0] + 256 * b[1] + 65536 * b[2] + 16777216 * b[3]
}

/// Decodes a fetched buffer as a little-endian 16-bit integer; fails with
/// a length error exactly when the buffer is not two bytes.
pub fn decode_u16_le(bytes: &[u8]) -> (r: Result<u16, GdbError>)
    ensures
        match r {
            Ok(x) => bytes@.len() == 2 && x as int == le16(bytes@),
            Err(e) => e is LengthMismatch && bytes@.len() != 2,
        },
{
    if bytes.len() != 2 {
        return Err(GdbError::LengthMismatch);
    }
    Ok(bytes[0] as u16 + bytes[1] as u16 * 256)
}

/// Decodes a fetched buffer as a little-endian 32-bit integer; fails with
/// a length error exactly when the buffer is not four bytes.
pub fn decode_u32_le(bytes: &[u8]) -> (r: Result<u32, GdbError>)
    ensures
        match r {
            Ok(x) => bytes@.len() == 4 && x as int == le32(bytes@),
            Err(e) => e is LengthMismatch && bytes@.len() != 4,
        },
{
    if bytes.len() != 4 {
        return Err(GdbError::LengthMismatch);
    }
    Ok(bytes[0] as u32 + bytes[1] as u32 * 256 + bytes[2] as u32 * 65536 + bytes[3] as u32
        * 16777216)
}

/// The command text whose monitor reply identifies the running program.
pub fn gamecode_command() -> (r: Vec<u8>)
    ensures
        r@ == seq![0x67u8, 0x61u8, 0x6du8, 0x65u8, 0x63u8, 0x6fu8, 0x64u8, 0x65u8],
{
    let mut out: Vec<u8> = Vec::new();
    out.push(0x67);
    out.push(0x61);
    out.push(0x6d);
    out.push(0x65);
    out.push(0x63);
    out.push(0x6f);
    out.push(0x64);
    out.push(0x65);
    proof {
        assert(out@ =~= seq![0x67u8, 0x61u8, 0x6du8, 0x65u8, 0x63u8, 0x6fu8, 0x64u8, 0x65u8]);
    }
    out
}

/// The characters a byte string decodes to as text, when it is valid.
pub uninterp spec fn utf8_decode(bytes: Seq<u8>) -> Option<Seq<char>>;

/// Relies on String::from_utf8: it succeeds exactly on valid text, the
/// decoding depends on the bytes alone, and bytes below 0x80 decode to
/// themselves, character for character.
#[verifier::external_body]
fn bytes_to_text(bytes: Vec<u8>) -> (r: Option<String>)
    ensures
        match r {
            Some(s) => utf8_decode(bytes@) == Some(s@),
            None => utf8_decode(bytes@) is None,
        },
        r is Some <== (forall|i: int| 0 <= i < bytes@.len() ==> bytes@[i] < 0x80),
        r matches Some(s) ==> ((forall|i: int| 0 <= i < bytes@.len() ==> bytes@[i] < 0x80) ==> s@
            == bytes@.map_values(|b: u8| b as char)),
{
    String::from_utf8(bytes).ok()
}

/// Turns a monitor reply's decoded bytes into text; fails exactly when
/// the bytes are not valid text.
pub fn monitor_reply_text(bytes: Vec<u8>) -> (r: Result<String, GdbError>)
    ensures
        match r {
            Ok(s) => utf8_decode(bytes@) == Some(s@),
            Err(e) => e is TextDecodeError && utf8_decode(bytes@) is None,
        },
        (forall|i: int| 0 <= i < bytes@.len() ==> bytes@[i] < 0x80) ==> (r matches Ok(s) && s@
            == bytes@.map_values(|b: u8| b as char)),
{
    match bytes_to_text(bytes) {
        Some(s) => Ok(s),
        None => Err(GdbError::TextDecodeError),
    }
}

/// Queues the acknowledgment owed on a stream known to be connected.
fn send_ack_connected(s: &mut GdbStream)
    requires
        old(s).connected_spec(),
    ensures
        final(s).connected_spec(),
        final(s).outbox_spec() == old(s).outbox_spec() + seq![crate::packet::ACK_BYTE],
        final(s).inbox_spec() == old(s).inbox_spec(),
        final(s).packet_size_spec() == old(s).packet_size_spec(),
{
    match s.send_ack() {
        Ok(()) => (),
        Err(_) => {
            proof {
                assert(false);
            }
        },
    }
}

/// Sends a packet on a stream known to be connected.
fn send_packet_connected(s: &mut GdbStream, payload: &[u8])
    requires
        old(s).connected_spec(),
    ensures
        final(s).connected_spec(),
        final(s).outbox_spec() == old(s).outbox_spec() + frame_spec(payload@),
        final(s).inbox_spec() == old(s).inbox_spec(),
        final(s).packet_size_spec() == old(s).packet_size_spec(),
{
    match s.send_packet(payload) {
        Ok(()) => (),
        Err(_) => {
            proof {
                assert(false);
            }
        },
    }
}

} // verus!
