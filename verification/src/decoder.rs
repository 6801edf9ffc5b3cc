//! Frames out of a byte stream: the bytes arrive in pieces of any size, and
//! each frame is handed out once all of it is there.

use crate::codec::{put_bytes, slice_range, wire_error, DecodeError, MAX_PACKET_SIZE};
use crate::var_int::{
    groups, lemma_decode_encode, lemma_prefix_incomplete, signed, spec_decode, unsigned, Parsed,
    VarInt, VarIntDecodeError,
};
use vstd::prelude::*;

verus! {

/// What the start of a byte stream holds.
pub enum FrameParse {
    /// The first frame has not arrived whole.
    Incomplete,
    /// The stream does not start with a frame.
    Malformed(DecodeError),
    /// One frame: its content, and the bytes that the frame takes in all.
    Frame { content: Seq<u8>, consumed: nat },
}

/// Reads the first frame of `buf`: a length as a variable-length integer,
/// then as many bytes of content.
pub open spec fn next_frame(buf: Seq<u8>) -> FrameParse {
    match spec_decode(buf, 0) {
        Parsed::Incomplete => FrameParse::Incomplete,
        Parsed::Malformed(e) => FrameParse::Malformed(wire_error(e)),
        Parsed::Value { value, consumed } => {
            let len = signed(value);
            if len < 0 || len > MAX_PACKET_SIZE {
                FrameParse::Malformed(DecodeError::LengthOutOfBounds)
            } else if buf.len() < consumed + len {
                FrameParse::Incomplete
            } else {
                FrameParse::Frame {
                    content: buf.subrange(consumed as int, consumed + len),
                    consumed: (consumed + len) as nat,
                }
            }
        },
    }
}

/// The frame that carries `content`: its length, then the content.
pub open spec fn frame_bytes(content: Seq<u8>) -> Seq<u8> {
    groups(content.len()) + content
}

/// The bytes of `chunks`, one after the other.
pub open spec fn concat(chunks: Seq<Seq<u8>>) -> Seq<u8>
    decreases chunks.len(),
{
    if chunks.len() == 0 {
        Seq::empty()
    } else {
        concat(chunks.drop_last()) + chunks.last()
    }
}

/// The start of a frame: the length of its content and the packet's id.
#[derive(Clone, Copy, Debug, PartialEq, Eq)]
pub struct PacketHeader {
    /// The number of bytes that follow the length itself.
    pub length: i32,
    /// The number that says which packet of its phase this is.
    pub packet_id: i32,
}

/// What the start of a byte stream says of its first frame.
#[derive(Clone, Copy, Debug, PartialEq, Eq)]
pub enum HeaderParse {
    /// The header of the first frame.
    Header(PacketHeader),
    /// The header has not arrived whole.
    NeedMoreBytes,
    /// The stream does not start with a header.
    Malformed(DecodeError),
}

/// Reads the header of the first frame of `buf`. The packet's id counts
/// into the length, so a length too short to hold it is refused.
pub open spec fn header_of(buf: Seq<u8>) -> HeaderParse {
    match spec_decode(buf, 0) {
        Parsed::Incomplete => HeaderParse::NeedMoreBytes,
        Parsed::Malformed(e) => HeaderParse::Malformed(wire_error(e)),
        Parsed::Value { value, consumed } => {
            let len = signed(value);
            if len < 0 || len > MAX_PACKET_SIZE {
                HeaderParse::Malformed(DecodeError::LengthOutOfBounds)
            } else {
                match spec_decode(buf, consumed as int) {
                    Parsed::Incomplete => HeaderParse::NeedMoreBytes,
                    Parsed::Malformed(e) => HeaderParse::Malformed(wire_error(e)),
                    Parsed::Value { value: id, consumed: id_len } => if id_len > len {
                        HeaderParse::Malformed(DecodeError::LengthOutOfBounds)
                    } else {
                        HeaderParse::Header(
                            PacketHeader { length: len as i32, packet_id: signed(id) as i32 },
                        )
                    },
                }
            }
        },
    }
}

/// Reads the header of the first frame of `buf`.
pub fn decode_header(buf: &[u8]) -> (r: HeaderParse)
    ensures
        r == header_of(buf@),
{
    let (length, start) = match VarInt::decode(buf, 0) {
        Ok((value, next)) => (value.0, next),
        Err(VarIntDecodeError::Incomplete) => {
            return HeaderParse::NeedMoreBytes;
        },
        Err(VarIntDecodeError::TooLarge) => {
            return HeaderParse::Malformed(DecodeError::VarIntTooLarge);
        },
        Err(VarIntDecodeError::NotMinimal) => {
            return HeaderParse::Malformed(DecodeError::VarIntNotMinimal);
        },
    };
    if length < 0 || length as usize > MAX_PACKET_SIZE {
        return HeaderParse::Malformed(DecodeError::LengthOutOfBounds);
    }
    let (packet_id, next) = match VarInt::decode(buf, start) {
        Ok((value, next)) => (value.0, next),
        Err(VarIntDecodeError::Incomplete) => {
            return HeaderParse::NeedMoreBytes;
        },
        Err(VarIntDecodeError::TooLarge) => {
            return HeaderParse::Malformed(DecodeError::VarIntTooLarge);
        },
        Err(VarIntDecodeError::NotMinimal) => {
            return HeaderParse::Malformed(DecodeError::VarIntNotMinimal);
        },
    };
    if next - start > length as usize {
        return HeaderParse::Malformed(DecodeError::LengthOutOfBounds);
    }
    HeaderParse::Header(PacketHeader { length, packet_id })
}

/// The bytes that have arrived and have not been handed out as frames.
pub struct PacketDecoder {
    buf: Vec<u8>,
    cursor: usize,
}

impl View for PacketDecoder {
    type V = Seq<u8>;

    closed spec fn view(&self) -> Seq<u8> {
        self.buf@.skip(self.cursor as int)
    }
}

impl PacketDecoder {
    #[verifier::type_invariant]
    spec fn well_formed(self) -> bool {
        self.cursor <= self.buf@.len()
    }

    /// A decoder that holds no bytes.
    pub fn new() -> (d: PacketDecoder)
        ensures
            d@ == Seq::<u8>::empty(),
    {
        PacketDecoder { buf: Vec::new(), cursor: 0 }
    }

    /// Takes in bytes that were read from the stream.
    pub fn queue_bytes(&mut self, bytes: &[u8])
        ensures
            final(self)@ == old(self)@ + bytes@,
    {
        proof {
            use_type_invariant(&*self);
        }
        let mut pending: Vec<u8> = slice_range(self.buf.as_slice(), self.cursor, self.buf.len());
        put_bytes(&mut pending, bytes);
        self.cursor = 0;
        self.buf = pending;
    }

    /// Hands out the bytes that wait, and holds none after.
    pub fn take_pending(&mut self) -> (bytes: Vec<u8>)
        ensures
            bytes@ == old(self)@,
            final(self)@ == Seq::<u8>::empty(),
    {
        proof {
            use_type_invariant(&*self);
        }
        let bytes: Vec<u8> = slice_range(self.buf.as_slice(), self.cursor, self.buf.len());
        self.cursor = 0;
        self.buf = Vec::new();
        bytes
    }

    /// The number of bytes that wait for the rest of their frame.
    pub fn pending(&self) -> (n: usize)
        ensures
            n == self@.len(),
    {
        proof {
            use_type_invariant(self);
        }
        self.buf.len() - self.cursor
    }

    /// Hands out the content of the next frame, once all of it has arrived.
    /// Bytes that are no frame, or one that is not whole yet, stay where
    /// they are.
    pub fn try_next_packet(&mut self) -> (r: Result<Option<Vec<u8>>, DecodeError>)
        ensures
            match next_frame(old(self)@) {
                FrameParse::Incomplete => r matches Ok(None) && final(self)@ == old(self)@,
                FrameParse::Malformed(e) => r matches Err(f) && f == e && final(self)@ == old(
                    self,
                )@,
                FrameParse::Frame { content, consumed } => r matches Ok(Some(frame)) && frame@
                    == content && final(self)@ == old(self)@.skip(consumed as int),
            },
    {
        proof {
            use_type_invariant(&*self);
        }
        let total: usize = self.buf.len();
        let ghost whole = self.buf@;
        let ghost pending = self@;
        proof {
            lemma_decode_skip(whole, self.cursor as int);
        }
        let (length, start) = match VarInt::decode(
            self.buf.as_slice(),
            self.cursor,
        ) {
            Ok((value, next)) => (value.0, next),
            Err(VarIntDecodeError::Incomplete) => {
                return Ok(None);
            },
            Err(VarIntDecodeError::TooLarge) => {
                return Err(DecodeError::VarIntTooLarge);
            },
            Err(VarIntDecodeError::NotMinimal) => {
                return Err(DecodeError::VarIntNotMinimal);
            },
        };
        if length < 0 || length as usize > MAX_PACKET_SIZE {
            return Err(DecodeError::LengthOutOfBounds);
        }
        if total - start < length as usize {
            return Ok(None);
        }
        let end: usize = start + length as usize;
        let frame: Vec<u8> = slice_range(self.buf.as_slice(), start, end);
        self.cursor = end;
        proof {
            let consumed = start - old(self).cursor;
            assert(frame@ =~= pending.subrange(consumed as int, consumed + length));
            assert(self@ =~= pending.skip(end - old(self).cursor));
        }
        Ok(Some(frame))
    }
}

/// Reading in the bytes after a place gives what reading at that place in
/// the whole gives.
proof fn lemma_decode_skip(whole: Seq<u8>, at: int)
    requires
        0 <= at <= whole.len(),
    ensures
        spec_decode(whole.skip(at), 0) == spec_decode(whole, at),
{
    lemma_groups_skip(whole, at, 0, 5);
}

proof fn lemma_groups_skip(whole: Seq<u8>, at: int, pos: int, limit: nat)
    requires
        0 <= at <= whole.len(),
        0 <= pos,
    ensures
        crate::var_int::parse_groups(whole.skip(at), pos, limit) == crate::var_int::parse_groups(
            whole,
            at + pos,
            limit,
        ),
    decreases limit,
{
    if limit > 0 && at + pos < whole.len() {
        assert(whole.skip(at)[pos] == whole[at + pos]);
        lemma_groups_skip(whole, at, pos + 1, (limit - 1) as nat);
    }
}

/// A frame takes at least one byte, and no more than the stream has.
pub proof fn lemma_frame_consumes(buf: Seq<u8>)
    ensures
        next_frame(buf) matches FrameParse::Frame { content, consumed } ==> 1 <= consumed
            <= buf.len(),
{
    crate::var_int::lemma_parse_groups_minimal(buf, 0, 5);
}

/// A frame that stands at the start of a stream is read as it was written,
/// whatever follows it.
pub proof fn lemma_frame_complete(content: Seq<u8>, rest: Seq<u8>)
    requires
        content.len() <= MAX_PACKET_SIZE,
    ensures
        next_frame(frame_bytes(content) + rest) == (FrameParse::Frame {
            content,
            consumed: frame_bytes(content).len(),
        }),
{
    let len = content.len() as i32;
    let head = groups(unsigned(len));
    let buf = frame_bytes(content) + rest;
    lemma_decode_encode(Seq::empty(), len, content + rest);
    assert(buf =~= Seq::<u8>::empty() + head + (content + rest));
    assert(buf.subrange(head.len() as int, (head.len() + content.len()) as int) =~= content);
}

/// While a frame has not arrived whole, the reader waits: a proper prefix
/// of a frame is never taken for a frame, nor refused.
pub proof fn lemma_frame_prefix(content: Seq<u8>, k: int)
    requires
        content.len() <= MAX_PACKET_SIZE,
        0 <= k < frame_bytes(content).len(),
    ensures
        next_frame(frame_bytes(content).take(k)) == FrameParse::Incomplete,
{
    let len = content.len() as i32;
    let head = groups(unsigned(len));
    let buf = frame_bytes(content).take(k);
    if k < head.len() {
        lemma_prefix_incomplete(Seq::empty(), len, k);
        assert(buf =~= Seq::<u8>::empty() + head.take(k));
    } else {
        let part = content.take(k - head.len());
        lemma_decode_encode(Seq::empty(), len, part);
        assert(buf =~= Seq::<u8>::empty() + head + part);
    }
}

/// Fragmentation changes nothing: however a stream that starts with a frame
/// is cut into reads, the reader waits while the bytes that have arrived
/// fall short of the frame, and hands out the frame's content as soon as
/// they do not.
pub proof fn lemma_fragmentation(content: Seq<u8>, rest: Seq<u8>, arrived: int)
    requires
        content.len() <= MAX_PACKET_SIZE,
        0 <= arrived <= frame_bytes(content).len() + rest.len(),
    ensures
        next_frame((frame_bytes(content) + rest).take(arrived)) == if arrived < frame_bytes(
            content,
        ).len() {
            FrameParse::Incomplete
        } else {
            FrameParse::Frame { content, consumed: frame_bytes(content).len() }
        },
{
    let frame = frame_bytes(content);
    let stream = frame + rest;
    if arrived < frame.len() {
        assert(stream.take(arrived) =~= frame.take(arrived));
        lemma_frame_prefix(content, arrived);
    } else {
        assert(stream.take(arrived) =~= frame + rest.take(arrived - frame.len()));
        lemma_frame_complete(content, rest.take(arrived - frame.len()));
    }
}

/// What has arrived after some reads is a prefix of the stream: the first
/// `n` chunks, one after the other, are the first bytes of all the chunks.
pub proof fn lemma_concat_prefix(chunks: Seq<Seq<u8>>, n: int)
    requires
        0 <= n <= chunks.len(),
    ensures
        concat(chunks.take(n)).len() <= concat(chunks).len(),
        concat(chunks.take(n)) == concat(chunks).take(concat(chunks.take(n)).len() as int),
    decreases chunks.len(),
{
    if n == chunks.len() {
        assert(chunks.take(n) =~= chunks);
        assert(concat(chunks).take(concat(chunks).len() as int) =~= concat(chunks));
    } else {
        lemma_concat_prefix(chunks.drop_last(), n);
        assert(chunks.drop_last().take(n) =~= chunks.take(n));
        let part = concat(chunks.take(n));
        assert(part =~= concat(chunks).take(part.len() as int));
    }
}

/// Fragmentation in terms of reads: where a stream that starts with a
/// frame arrives in chunks of whatever sizes, the reader waits after each
/// read that leaves the frame short, and after the read that completes it
/// hands out the content that an unsplit read would hand out.
pub proof fn lemma_chunked_reads(content: Seq<u8>, rest: Seq<u8>, chunks: Seq<Seq<u8>>, n: int)
    requires
        content.len() <= MAX_PACKET_SIZE,
        concat(chunks) == frame_bytes(content) + rest,
        0 <= n <= chunks.len(),
    ensures
        next_frame(concat(chunks.take(n))) == if concat(chunks.take(n)).len() < frame_bytes(
            content,
        ).len() {
            FrameParse::Incomplete
        } else {
            next_frame(concat(chunks))
        },
{
    lemma_concat_prefix(chunks, n);
    lemma_fragmentation(content, rest, concat(chunks.take(n)).len() as int);
    lemma_frame_complete(content, rest);
}

} // verus!
