//! Frames into a byte stream.

use crate::codec::{put_bytes, put_var_int, EncodeError, MAX_PACKET_SIZE};
use crate::decoder::{frame_bytes, lemma_frame_complete, next_frame, FrameParse};
use crate::packet::{lemma_packet_round_trip, parse_packet, Packet, PacketView};
use crate::codec::DecodeError;
use vstd::prelude::*;

verus! {

/// The frame that carries `content`, unless the content is longer than a
/// frame may be.
pub fn encode_frame(content: &[u8]) -> (r: Result<Vec<u8>, EncodeError>)
    ensures
        match r {
            Ok(frame) => frame@ == frame_bytes(content@) && content@.len() <= MAX_PACKET_SIZE,
            Err(_) => content@.len() > MAX_PACKET_SIZE,
        },
{
    if content.len() > MAX_PACKET_SIZE {
        return Err(EncodeError::PacketTooLarge);
    }
    let mut frame: Vec<u8> = Vec::new();
    put_var_int(&mut frame, content.len() as i32);
    put_bytes(&mut frame, content);
    Ok(frame)
}

/// Frames that were written and wait to be sent.
pub struct PacketEncoder {
    buf: Vec<u8>,
}

impl View for PacketEncoder {
    type V = Seq<u8>;

    closed spec fn view(&self) -> Seq<u8> {
        self.buf@
    }
}

impl PacketEncoder {
    /// An encoder that holds no bytes.
    pub fn new() -> (e: PacketEncoder)
        ensures
            e@ == Seq::<u8>::empty(),
    {
        PacketEncoder { buf: Vec::new() }
    }

    /// Writes `packet` as one frame after what is held already. A packet
    /// too long for a frame is refused, and nothing is written.
    pub fn append_packet(&mut self, packet: &Packet) -> (r: Result<(), EncodeError>)
        ensures
            match r {
                Ok(_) => final(self)@ == old(self)@ + frame_bytes(packet@.content())
                    && packet@.content().len() <= MAX_PACKET_SIZE,
                Err(_) => final(self)@ == old(self)@ && packet@.content().len()
                    > MAX_PACKET_SIZE,
            },
    {
        let content: Vec<u8> = match packet.encode() {
            Ok(content) => content,
            Err(e) => {
                return Err(e);
            },
        };
        put_var_int(&mut self.buf, content.len() as i32);
        put_bytes(&mut self.buf, content.as_slice());
        assert(self@ =~= old(self)@ + frame_bytes(packet@.content()));
        Ok(())
    }

    /// Hands out the bytes that are held, and holds none after.
    pub fn take(&mut self) -> (bytes: Vec<u8>)
        ensures
            bytes@ == old(self)@,
            final(self)@ == Seq::<u8>::empty(),
    {
        let mut bytes: Vec<u8> = Vec::new();
        std::mem::swap(&mut bytes, &mut self.buf);
        bytes
    }
}

/// The frame that carries `packet`, unless the packet is too long for one.
pub fn make_bytes(packet: &Packet) -> (r: Result<Vec<u8>, EncodeError>)
    ensures
        match r {
            Ok(frame) => frame@ == frame_bytes(packet@.content()) && packet@.content().len()
                <= MAX_PACKET_SIZE,
            Err(_) => packet@.content().len() > MAX_PACKET_SIZE,
        },
{
    let mut encoder: PacketEncoder = PacketEncoder::new();
    match encoder.append_packet(packet) {
        Ok(_) => Ok(encoder.take()),
        Err(e) => Err(e),
    }
}

/// Round trip on the wire: a stream that starts with the frame written for
/// a packet gives that frame's content back, and the content reads back as
/// the packet.
pub proof fn lemma_wire_round_trip(v: PacketView, rest: Seq<u8>)
    requires
        v.content().len() <= MAX_PACKET_SIZE,
        v.writable(),
    ensures
        next_frame(frame_bytes(v.content()) + rest) == (FrameParse::Frame {
            content: v.content(),
            consumed: frame_bytes(v.content()).len(),
        }),
        parse_packet(v.stage(), v.content()) == Ok::<PacketView, DecodeError>(v),
{
    lemma_frame_complete(v.content(), rest);
    lemma_packet_round_trip(v);
}

} // verus!
