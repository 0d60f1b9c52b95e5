//! Frames and the bytes that carry them.
//!
//! A raw packet is a variable-length packet id followed by the payload. On the
//! local connection, which is neither compressed nor encrypted, raw packets
//! come one after the other, each behind its length.

use vstd::prelude::*;

use crate::plugin::{Frame, FrameView};
use crate::wire;

verus! {

/// The longest packet that the local connection may carry, which is also the
/// protocol's limit for a decompressed packet.
pub const MAX_LOCAL_FRAME_BYTES: usize = 8_388_608;

/// Why bytes are no frame.
#[derive(Clone, Copy, Debug, PartialEq, Eq, Structural)]
pub enum RelayError {
    /// The packet id is cut short.
    PacketId,
    /// A packet's length does not end within five bytes.
    LengthVarInt,
    /// A packet is longer than the limit.
    TooLong { length: usize },
    /// The connection is compressed or encrypted.
    NotPlain,
}

/// A frame as a raw packet.
pub open spec fn encoded(f: FrameView) -> Seq<u8> {
    wire::varint(f.packet_id) + f.body
}

/// A raw packet as a frame.
pub open spec fn decoded(raw: Seq<u8>) -> Option<FrameView> {
    match wire::read_varint(raw) {
        Some((packet_id, n)) => Some(FrameView { packet_id, body: raw.skip(n as int) }),
        None => None,
    }
}

/// What the length at the front of `b` says. `Err` for one that does not end
/// within five bytes, `None` for one that is still to be completed.
pub open spec fn declared(b: Seq<u8>) -> Result<Option<nat>, RelayError> {
    match wire::varint_end(b) {
        Some(n) => if b[n - 1] < 128 {
            Ok(Some(groups_value(b.take(n as int))))
        } else {
            Err(RelayError::LengthVarInt)
        },
        None => Ok(None),
    }
}

/// The low thirty-two bits of a number in groups of seven.
pub open spec fn groups_value(b: Seq<u8>) -> nat {
    wire::groups(b) % 0x1_0000_0000
}

/// What comes out of the pending bytes `b` of a local connection: the next
/// packet and what is pending after it, nothing yet, or an error.
pub open spec fn next_packet(b: Seq<u8>) -> Result<Option<(Seq<u8>, Seq<u8>)>, RelayError> {
    match declared(b) {
        Err(e) => Err(e),
        Ok(None) => Ok(None),
        Ok(Some(length)) => {
            let n = wire::varint_end(b)->0;
            if length > MAX_LOCAL_FRAME_BYTES {
                Err(RelayError::TooLong { length: length as usize })
            } else if b.len() < n + length {
                Ok(None)
            } else {
                Ok(Some((b.subrange(n as int, (n + length) as int), b.skip((n + length) as int))))
            }
        },
    }
}

/// A frame is read back from the packet that it was written as.
pub proof fn frame_roundtrip(f: FrameView)
    ensures
        decoded(encoded(f)) == Some(f),
{
    wire::varint_roundtrip(f.packet_id, f.body);
    let v = wire::varint(f.packet_id);
    assert(encoded(f).skip(v.len() as int) =~= f.body);
}

/// A packet that was written behind its length comes out whole, and what
/// follows it stays pending.
pub proof fn packet_roundtrip(raw: Seq<u8>, rest: Seq<u8>)
    requires
        raw.len() <= MAX_LOCAL_FRAME_BYTES,
    ensures
        next_packet(wire::varint(raw.len() as u32) + raw + rest) == Ok::<_, RelayError>(
            Some((raw, rest)),
        ),
{
    let v = wire::varint(raw.len() as u32);
    let b = v + raw + rest;
    assert(b =~= v + (raw + rest));
    wire::varint_roundtrip(raw.len() as u32, raw + rest);
    let n = v.len() as int;
    wire::varint_last(raw.len() as u32);
    assert(b[n - 1] == v[n - 1]);
    assert(b.take(n) =~= v);
    assert(b.subrange(n, n + raw.len()) =~= raw);
    assert(b.skip(n + raw.len()) =~= rest);
}

/// No packet longer than the limit ever comes out.
pub proof fn packets_are_bounded(b: Seq<u8>)
    ensures
        next_packet(b) matches Ok(Some((raw, _))) ==> raw.len() <= MAX_LOCAL_FRAME_BYTES,
{
}

/// Where no packet comes out yet, fewer bytes are pending than the longest packet
/// and its length take.
pub proof fn pending_bytes_are_bounded(b: Seq<u8>)
    ensures
        next_packet(b) == Ok::<Option<(Seq<u8>, Seq<u8>)>, RelayError>(None) ==> b.len()
            < MAX_LOCAL_FRAME_BYTES + 5,
{
}

/// Reads a raw packet.
pub fn decode_frame(raw_packet: Vec<u8>) -> (r: Result<Frame, RelayError>)
    ensures
        match r {
            Ok(f) => decoded(raw_packet@) == Some(f@),
            Err(e) => decoded(raw_packet@) is None && e == RelayError::PacketId,
        },
{
    match wire::take_varint(raw_packet.as_slice()) {
        Some((packet_id, n)) => {
            let mut head: Vec<u8> = raw_packet;
            let body: Vec<u8> = head.split_off(n);
            proof {
                assert(body@ =~= raw_packet@.skip(n as int));
            }
            Ok(Frame { packet_id, body })
        },
        None => Err(RelayError::PacketId),
    }
}

/// Writes a frame as a raw packet.
pub fn encode_frame(frame: &Frame) -> (r: Vec<u8>)
    ensures
        r@ == encoded(frame@),
{
    let mut raw: Vec<u8> = Vec::new();
    wire::write_varint(&mut raw, frame.packet_id);
    raw.extend_from_slice(frame.body.as_slice());
    proof {
        assert(raw@ =~= encoded(frame@));
    }
    raw
}

/// What the length at the front of some bytes says.
pub fn declared_frame_length(bytes: &[u8]) -> (r: Result<Option<usize>, RelayError>)
    ensures
        match r {
            Ok(Some(length)) => declared(bytes@) == Ok::<_, RelayError>(Some(length as nat)),
            Ok(None) => declared(bytes@) == Ok::<Option<nat>, RelayError>(None),
            Err(e) => declared(bytes@) == Err::<Option<nat>, _>(e),
        },
{
    match wire::take_varint(bytes) {
        Some((value, n)) => {
            if bytes[n - 1] < 128 {
                Ok(Some(value as usize))
            } else {
                Err(RelayError::LengthVarInt)
            }
        },
        None => Ok(None),
    }
}

/// The local connection can only be read where it is neither compressed nor
/// encrypted.
pub fn require_plain(compressed: bool, encrypted: bool) -> (r: Result<(), RelayError>)
    ensures
        r == (if compressed || encrypted {
            Err(RelayError::NotPlain)
        } else {
            Ok(())
        }),
{
    if compressed || encrypted {
        Err(RelayError::NotPlain)
    } else {
        Ok(())
    }
}

/// The bytes that have arrived on a local connection and were not taken out
/// yet.
pub struct LocalBuffer {
    bytes: Vec<u8>,
    consumed: usize,
}

impl View for LocalBuffer {
    type V = Seq<u8>;

    closed spec fn view(&self) -> Seq<u8> {
        self.bytes@.skip(self.consumed as int)
    }
}

impl LocalBuffer {
    #[verifier::type_invariant]
    spec fn within(self) -> bool {
        self.consumed <= self.bytes@.len()
    }

    /// How many bytes are held, pending or not.
    pub closed spec fn held(&self) -> nat {
        self.bytes@.len()
    }

    /// Nothing pending.
    pub fn new() -> (r: LocalBuffer)
        ensures
            r@ == Seq::<u8>::empty(),
            r.held() == 0,
    {
        let r: LocalBuffer = LocalBuffer { bytes: Vec::new(), consumed: 0 };
        proof {
            assert(r@ =~= Seq::<u8>::empty());
        }
        r
    }

    /// Takes in what has arrived. Bytes of packets that were taken out are let
    /// go first, so that a steady stream does not pile up.
    pub fn push_chunk(&mut self, chunk: &[u8])
        ensures
            final(self)@ == old(self)@ + chunk@,
            final(self).held() == old(self)@.len() + chunk@.len(),
    {
        proof {
            use_type_invariant(&*self);
        }
        let ghost pending = self@;
        let mut bytes: Vec<u8> = Vec::new();
        let consumed: usize = self.consumed;
        self.consumed = 0;
        std::mem::swap(&mut bytes, &mut self.bytes);
        if consumed > 0 {
            let rest: Vec<u8> = bytes.split_off(consumed);
            bytes = rest;
        }
        proof {
            assert(bytes@ =~= pending);
        }
        bytes.extend_from_slice(chunk);
        self.bytes = bytes;
        proof {
            assert(self@ =~= pending + chunk@);
        }
    }

    /// Takes out the next packet, if it has arrived whole. A length beyond the
    /// limit is refused before any of the packet is waited for, so what is
    /// pending between two chunks stays below the limit and five bytes.
    pub fn next_packet(&mut self) -> (r: Result<Option<Vec<u8>>, RelayError>)
        ensures
            match r {
                Ok(Some(raw)) => next_packet(old(self)@) == Ok::<_, RelayError>(
                    Some((raw@, final(self)@)),
                ),
                Ok(None) => next_packet(old(self)@) == Ok::<
                    Option<(Seq<u8>, Seq<u8>)>,
                    RelayError,
                >(None) && final(self)@ == old(self)@ && final(self)@.len()
                    < MAX_LOCAL_FRAME_BYTES + 5,
                Err(e) => next_packet(old(self)@) == Err::<Option<(Seq<u8>, Seq<u8>)>, _>(e)
                    && final(self)@ == old(self)@,
            },
            final(self).held() == old(self).held(),
    {
        proof {
            use_type_invariant(&*self);
        }
        let ghost pending = self@;
        proof {
            pending_bytes_are_bounded(pending);
        }
        match wire::take_varint_at(self.bytes.as_slice(), self.consumed) {
            Some((value, n)) => {
                if self.bytes[self.consumed + n - 1] >= 128 {
                    return Err(RelayError::LengthVarInt);
                }
                let length: usize = value as usize;
                if length > MAX_LOCAL_FRAME_BYTES {
                    return Err(RelayError::TooLong { length });
                }
                if self.bytes.len() - self.consumed - n < length {
                    return Ok(None);
                }
                let from: usize = self.consumed + n;
                let mut raw: Vec<u8> = Vec::new();
                let mut i: usize = 0;
                let ghost all = self.bytes@;
                while i < length
                    invariant
                        i <= length,
                        from + length <= self.bytes.len(),
                        self.bytes@ == all,
                        raw@ == all.subrange(from as int, from + i),
                    decreases length - i,
                {
                    raw.push(self.bytes[from + i]);
                    proof {
                        assert(raw@ =~= all.subrange(from as int, from + i + 1));
                    }
                    i = i + 1;
                }
                self.consumed = from + length;
                proof {
                    assert(raw@ =~= pending.subrange(n as int, n + length));
                    assert(self@ =~= pending.skip(n + length));
                }
                Ok(Some(raw))
            },
            None => Ok(None),
        }
    }
}

} // verus!
