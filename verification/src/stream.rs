//! Connection-level packet exchange as a sans-io state machine.
//!
//! The stream owns the session state and two byte buffers: an inbox of
//! bytes received from the peer and an outbox of bytes waiting to be sent.
//! The surrounding application moves bytes between these buffers and the
//! socket; every protocol decision — framing, checksum verification,
//! acknowledgment handling, forced disconnection — is made here.
use vstd::prelude::*;

use crate::error::GdbError;
use crate::hex::{hex_digit_to_value, is_hex_digit_byte};
use crate::packet::{
    checksum, encode_frame, frame_payload_of, frame_spec, has_terminator, transmitted_checksum,
    ACK_BYTE, START_MARKER,
};
use crate::packet::checksum_spec;

verus! {

/// Outcome of polling a receive routine: either the inbox does not yet
/// hold enough bytes, or the awaited unit is ready.
pub enum Step<T> {
    Pending,
    Ready(T),
}

/// Whether two stream states agree on every observable component.
pub open spec fn unchanged_state(a: &GdbStream, b: &GdbStream) -> bool {
    &&& b.connected_spec() == a.connected_spec()
    &&& b.inbox_spec() == a.inbox_spec()
    &&& b.outbox_spec() == a.outbox_spec()
    &&& b.packet_size_spec() == a.packet_size_spec()
}

impl Default for GdbStream {
    /// A disconnected stream with empty buffers.
    fn default() -> (s: Self)
        ensures
            !s.connected_spec(),
            s.inbox_spec() == Seq::<u8>::empty(),
            s.outbox_spec() == Seq::<u8>::empty(),
            s.packet_size_spec() is None,
    {
        GdbStream::new()
    }
}

/// One lock-step protocol connection.
pub struct GdbStream {
    connected: bool,
    packet_size: Option<u32>,
    inbox: Vec<u8>,
    outbox: Vec<u8>,
}

impl GdbStream {
    /// Whether a session is live.
    pub closed spec fn connected_spec(&self) -> bool {
        self.connected
    }

    /// Bytes received from the peer and not yet consumed.
    pub closed spec fn inbox_spec(&self) -> Seq<u8> {
        self.inbox@
    }

    /// Bytes queued to be written to the peer.
    pub closed spec fn outbox_spec(&self) -> Seq<u8> {
        self.outbox@
    }

    /// The negotiated maximum packet size, if any.
    pub closed spec fn packet_size_spec(&self) -> Option<u32> {
        self.packet_size
    }

    /// A disconnected stream with empty buffers.
    pub fn new() -> (s: Self)
        ensures
            !s.connected_spec(),
            s.inbox_spec() == Seq::<u8>::empty(),
            s.outbox_spec() == Seq::<u8>::empty(),
            s.packet_size_spec() is None,
    {
        GdbStream { connected: false, packet_size: None, inbox: Vec::new(), outbox: Vec::new() }
    }

    /// Opens a fresh session once the application has a transport: marks
    /// the stream connected and queues the initial acknowledgment, whose
    /// answer the application awaits through `receive_ack`.
    pub fn connect(&mut self)
        ensures
            final(self).connected_spec(),
            final(self).inbox_spec() == Seq::<u8>::empty(),
            final(self).outbox_spec() == seq![ACK_BYTE],
            final(self).packet_size_spec() is None,
    {
        self.connected = true;
        self.packet_size = None;
        self.inbox = Vec::new();
        let mut out: Vec<u8> = Vec::new();
        out.push(ACK_BYTE);
        self.outbox = out;
    }

    /// Tears the session down; idempotent.
    pub fn disconnect(&mut self)
        ensures
            !final(self).connected_spec(),
            final(self).inbox_spec() == Seq::<u8>::empty(),
            final(self).outbox_spec() == Seq::<u8>::empty(),
            final(self).packet_size_spec() is None,
    {
        self.connected = false;
        self.packet_size = None;
        self.inbox = Vec::new();
        self.outbox = Vec::new();
    }

    /// Whether a session is live.
    pub fn is_connected(&self) -> (r: bool)
        ensures
            r == self.connected_spec(),
    {
        self.connected
    }

    /// Records the maximum packet size negotiated for this session; sizes
    /// below the framing overhead plus one payload byte are meaningless.
    pub fn set_packet_size(&mut self, size: Option<u32>)
        requires
            size matches Some(s) ==> s >= 6,
        ensures
            final(self).packet_size_spec() == size,
            final(self).connected_spec() == old(self).connected_spec(),
            final(self).inbox_spec() == old(self).inbox_spec(),
            final(self).outbox_spec() == old(self).outbox_spec(),
    {
        self.packet_size = size;
    }

    /// The negotiated maximum packet size, if any.
    pub fn packet_size(&self) -> (r: Option<u32>)
        ensures
            r == self.packet_size_spec(),
    {
        self.packet_size
    }

    /// Hands bytes read from the transport to the engine.
    pub fn feed(&mut self, bytes: &[u8])
        ensures
            final(self).inbox_spec() == old(self).inbox_spec() + bytes@,
            final(self).outbox_spec() == old(self).outbox_spec(),
            final(self).connected_spec() == old(self).connected_spec(),
            final(self).packet_size_spec() == old(self).packet_size_spec(),
    {
        let mut i: usize = 0;
        proof {
            assert(old(self).inbox_spec() + bytes@.subrange(0, 0) =~= old(self).inbox_spec());
        }
        while i < bytes.len()
            invariant
                i <= bytes@.len(),
                self.inbox@ == old(self).inbox@ + bytes@.subrange(0, i as int),
                self.outbox == old(self).outbox,
                self.connected == old(self).connected,
                self.packet_size == old(self).packet_size,
            decreases bytes@.len() - i,
        {
            self.inbox.push(bytes[i]);
            proof {
                let pre = old(self).inbox@ + bytes@.subrange(0, i as int);
                assert(pre.push(bytes@[i as int]) =~= old(self).inbox@ + bytes@.subrange(
                    0,
                    i + 1,
                ));
            }
            i = i + 1;
        }
        proof {
            assert(bytes@.subrange(0, bytes@.len() as int) =~= bytes@);
        }
    }

    /// Takes every queued outbound byte for the application to write.
    pub fn take_outbox(&mut self) -> (r: Vec<u8>)
        ensures
            r@ == old(self).outbox_spec(),
            final(self).outbox_spec() == Seq::<u8>::empty(),
            final(self).inbox_spec() == old(self).inbox_spec(),
            final(self).connected_spec() == old(self).connected_spec(),
            final(self).packet_size_spec() == old(self).packet_size_spec(),
    {
        let mut out: Vec<u8> = Vec::new();
        core::mem::swap(&mut out, &mut self.outbox);
        out
    }

    /// Queues the single positive-acknowledgment byte.
    pub fn send_ack(&mut self) -> (r: Result<(), GdbError>)
        ensures
            match r {
                Ok(()) => {
                    &&& old(self).connected_spec()
                    &&& final(self).outbox_spec() == old(self).outbox_spec() + seq![ACK_BYTE]
                    &&& final(self).inbox_spec() == old(self).inbox_spec()
                    &&& final(self).connected_spec()
                    &&& final(self).packet_size_spec() == old(self).packet_size_spec()
                },
                Err(e) => {
                    &&& e is NotConnected
                    &&& !old(self).connected_spec()
                    &&& unchanged_state(old(self), final(self))
                },
            },
    {
        if !self.connected {
            return Err(GdbError::NotConnected);
        }
        self.outbox.push(ACK_BYTE);
        Ok(())
    }

    /// Frames a payload — start marker, payload, end marker, checksum —
    /// and queues it for sending.
    pub fn send_packet(&mut self, payload: &[u8]) -> (r: Result<(), GdbError>)
        ensures
            match r {
                Ok(()) => {
                    &&& old(self).connected_spec()
                    &&& final(self).outbox_spec() == old(self).outbox_spec() + frame_spec(
                        payload@,
                    )
                    &&& final(self).inbox_spec() == old(self).inbox_spec()
                    &&& final(self).connected_spec()
                    &&& final(self).packet_size_spec() == old(self).packet_size_spec()
                },
                Err(e) => {
                    &&& e is NotConnected
                    &&& !old(self).connected_spec()
                    &&& unchanged_state(old(self), final(self))
                },
            },
    {
        if !self.connected {
            return Err(GdbError::NotConnected);
        }
        let frame = encode_frame(payload);
        let mut i: usize = 0;
        proof {
            assert(old(self).outbox@ + frame@.subrange(0, 0) =~= old(self).outbox@);
        }
        while i < frame.len()
            invariant
                i <= frame@.len(),
                self.outbox@ == old(self).outbox@ + frame@.subrange(0, i as int),
                self.inbox == old(self).inbox,
                self.connected == old(self).connected,
                self.packet_size == old(self).packet_size,
                self.connected,
            decreases frame@.len() - i,
        {
            self.outbox.push(frame[i]);
            proof {
                let pre = old(self).outbox@ + frame@.subrange(0, i as int);
                assert(pre.push(frame@[i as int]) =~= old(self).outbox@ + frame@.subrange(
                    0,
                    i + 1,
                ));
            }
            i = i + 1;
        }
        proof {
            assert(frame@.subrange(0, frame@.len() as int) =~= frame@);
        }
        Ok(())
    }

    /// Consumes one acknowledgment byte from the inbox. Any byte other
    /// than the positive acknowledgment is a protocol violation and tears
    /// the connection down.
    pub fn receive_ack(&mut self) -> (r: Result<Step<()>, GdbError>)
        ensures
            match r {
                Ok(Step::Pending) => {
                    &&& old(self).connected_spec()
                    &&& old(self).inbox_spec().len() == 0
                    &&& unchanged_state(old(self), final(self))
                },
                Ok(Step::Ready(())) => {
                    &&& old(self).connected_spec()
                    &&& old(self).inbox_spec().len() > 0
                    &&& old(self).inbox_spec()[0] == ACK_BYTE
                    &&& final(self).inbox_spec() == old(self).inbox_spec().drop_first()
                    &&& final(self).outbox_spec() == old(self).outbox_spec()
                    &&& final(self).connected_spec()
                    &&& final(self).packet_size_spec() == old(self).packet_size_spec()
                },
                Err(e) => {
                    if !old(self).connected_spec() {
                        &&& e is NotConnected
                        &&& unchanged_state(old(self), final(self))
                    } else {
                        &&& e is ProtocolViolation
                        &&& old(self).inbox_spec().len() > 0
                        &&& old(self).inbox_spec()[0] != ACK_BYTE
                        &&& !final(self).connected_spec()
                        &&& final(self).inbox_spec() == Seq::<u8>::empty()
                        &&& final(self).outbox_spec() == Seq::<u8>::empty()
                    }
                },
            },
    {
        if !self.connected {
            return Err(GdbError::NotConnected);
        }
        if self.inbox.len() == 0 {
            return Ok(Step::Pending);
        }
        let b = self.inbox.remove(0);
        proof {
            assert(old(self).inbox@.remove(0) =~= old(self).inbox@.drop_first());
        }
        if b != ACK_BYTE {
            self.disconnect();
            return Err(GdbError::ProtocolViolation);
        }
        Ok(Step::Ready(()))
    }

    /// Accumulated-frame receiver. Reports `Pending` until the inbox holds
    /// a terminated frame; a frame that does not begin with the start
    /// marker, or whose transmitted checksum disagrees with the payload
    /// sum, forcibly tears the connection down.
    pub fn receive_packet(&mut self) -> (r: Result<Step<Vec<u8>>, GdbError>)
        ensures
            match r {
                Ok(Step::Pending) => {
                    &&& old(self).connected_spec()
                    &&& unchanged_state(old(self), final(self))
                    &&& (old(self).inbox_spec().len() == 0 || (old(self).inbox_spec()[0]
                        == START_MARKER && !has_terminator(old(self).inbox_spec())))
                },
                Ok(Step::Ready(p)) => {
                    &&& old(self).connected_spec()
                    &&& old(self).inbox_spec().len() > 0
                    &&& old(self).inbox_spec()[0] == START_MARKER
                    &&& has_terminator(old(self).inbox_spec())
                    &&& p@ == frame_payload_of(old(self).inbox_spec())
                    &&& transmitted_checksum(old(self).inbox_spec()) == checksum_spec(p@)
                    &&& final(self).inbox_spec() == Seq::<u8>::empty()
                    &&& final(self).outbox_spec() == old(self).outbox_spec()
                    &&& final(self).connected_spec()
                    &&& final(self).packet_size_spec() == old(self).packet_size_spec()
                },
                Err(e) => {
                    if !old(self).connected_spec() {
                        &&& e is NotConnected
                        &&& unchanged_state(old(self), final(self))
                    } else {
                        &&& !final(self).connected_spec()
                        &&& final(self).inbox_spec() == Seq::<u8>::empty()
                        &&& final(self).outbox_spec() == Seq::<u8>::empty()
                        &&& old(self).inbox_spec().len() > 0
                        &&& match e {
                            GdbError::ProtocolViolation => old(self).inbox_spec()[0]
                                != START_MARKER,
                            GdbError::ChecksumMismatch => {
                                &&& old(self).inbox_spec()[0] == START_MARKER
                                &&& has_terminator(old(self).inbox_spec())
                                &&& transmitted_checksum(old(self).inbox_spec())
                                    != checksum_spec(frame_payload_of(old(self).inbox_spec()))
                            },
                            _ => false,
                        }
                    }
                },
            },
    {
        if !self.connected {
            return Err(GdbError::NotConnected);
        }
        let n = self.inbox.len();
        if n == 0 {
            return Ok(Step::Pending);
        }
        if self.inbox[0] != START_MARKER {
            self.disconnect();
            return Err(GdbError::ProtocolViolation);
        }
        if n < 4 {
            return Ok(Step::Pending);
        }
        let terminated = self.inbox[n - 3] == crate::packet::END_MARKER
            && is_hex_digit_byte(self.inbox[n - 2]) && is_hex_digit_byte(self.inbox[n - 1]);
        if !terminated {
            return Ok(Step::Pending);
        }
        let mut payload: Vec<u8> = Vec::new();
        let mut i: usize = 1;
        proof {
            assert(self.inbox@.subrange(1, 1) =~= Seq::<u8>::empty());
        }
        while i < n - 3
            invariant
                1 <= i <= n - 3,
                n == self.inbox@.len(),
                n >= 4,
                payload@ == self.inbox@.subrange(1, i as int),
            decreases n - 3 - i,
        {
            payload.push(self.inbox[i]);
            proof {
                assert(self.inbox@.subrange(1, i as int).push(self.inbox@[i as int])
                    =~= self.inbox@.subrange(1, i + 1));
            }
            i = i + 1;
        }
        proof {
            assert(payload@ == frame_payload_of(self.inbox@));
        }
        let expected = checksum(payload.as_slice());
        let actual = hex_digit_to_value(self.inbox[n - 2]) * 16 + hex_digit_to_value(
            self.inbox[n - 1],
        );
        if expected != actual {
            self.disconnect();
            return Err(GdbError::ChecksumMismatch);
        }
        self.inbox = Vec::new();
        Ok(Step::Ready(payload))
    }

    /// Receives a reply that must be exactly the positive "OK" payload;
    /// anything else is a protocol violation and tears the session down.
    /// The acknowledgment for the reply is still the caller's to send.
    pub fn receive_ok(&mut self) -> (r: Result<Step<()>, GdbError>)
        ensures
            match r {
                Ok(Step::Pending) => {
                    &&& old(self).connected_spec()
                    &&& unchanged_state(old(self), final(self))
                    &&& (old(self).inbox_spec().len() == 0 || (old(self).inbox_spec()[0]
                        == START_MARKER && !has_terminator(old(self).inbox_spec())))
                },
                Ok(Step::Ready(())) => {
                    &&& old(self).connected_spec()
                    &&& has_terminator(old(self).inbox_spec())
                    &&& frame_payload_of(old(self).inbox_spec()) == seq![0x4fu8, 0x4bu8]
                    &&& final(self).inbox_spec() == Seq::<u8>::empty()
                    &&& final(self).outbox_spec() == old(self).outbox_spec()
                    &&& final(self).connected_spec()
                },
                Err(e) => {
                    if !old(self).connected_spec() {
                        &&& e is NotConnected
                        &&& unchanged_state(old(self), final(self))
                    } else {
                        &&& !final(self).connected_spec()
                        &&& final(self).inbox_spec() == Seq::<u8>::empty()
                        &&& final(self).outbox_spec() == Seq::<u8>::empty()
                        &&& (e is ProtocolViolation || e is ChecksumMismatch)
                        &&& (old(self).inbox_spec().len() > 0 && old(self).inbox_spec()[0]
                            == START_MARKER && has_terminator(old(self).inbox_spec())
                            && transmitted_checksum(old(self).inbox_spec()) == checksum_spec(
                            frame_payload_of(old(self).inbox_spec()),
                        ) ==> frame_payload_of(old(self).inbox_spec()) != seq![0x4fu8, 0x4bu8])
                    }
                },
            },
    {
        match self.receive_packet() {
            Err(e) => Err(e),
            Ok(Step::Pending) => Ok(Step::Pending),
            Ok(Step::Ready(payload)) => {
                if payload.len() == 2 && payload[0] == 0x4f && payload[1] == 0x4b {
                    proof {
                        assert(payload@ =~= seq![0x4fu8, 0x4bu8]);
                    }
                    Ok(Step::Ready(()))
                } else {
                    proof {
                        assert(payload@ != seq![0x4fu8, 0x4bu8]);
                    }
                    self.disconnect();
                    Err(GdbError::ProtocolViolation)
                }
            },
        }
    }

    /// Records that the peer closed the connection: fatal for the session.
    pub fn peer_closed(&mut self) -> (e: GdbError)
        ensures
            e is IoFailure,
            !final(self).connected_spec(),
            final(self).inbox_spec() == Seq::<u8>::empty(),
            final(self).outbox_spec() == Seq::<u8>::empty(),
    {
        self.disconnect();
        GdbError::IoFailure
    }
}

} // verus!
