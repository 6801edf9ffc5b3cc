//! Packets that the server sends.

use crate::codec::{
    get_string, lemma_read_string_at, lemma_read_var_int_at, put_string, put_var_int,
    read_string, string_bytes, DecodeError, EncodeError, MAX_PACKET_SIZE,
};
use crate::packet::c2s::{
    decode_payload, encode_payload, lemma_payload_round_trip, payload_content, payload_parse,
};
use crate::packet::{expect_packet_id, finish, read_packet_id};
use crate::var_int::{groups, unsigned};
use vstd::prelude::*;
use vstd::utf8::encode_utf8;

verus! {

/// The content of a packet that holds an id and one text.
pub open spec fn text_content(id: i32, text: Seq<char>) -> Seq<u8> {
    groups(unsigned(id)) + string_bytes(text)
}

/// What a frame's content holds, read as an id and one text.
pub open spec fn text_parse(content: Seq<u8>, id: i32) -> Result<Seq<char>, DecodeError> {
    match read_packet_id(content, id) {
        Err(e) => Err(e),
        Ok(pos) => finish(content, read_string(content, pos)),
    }
}

/// The content of a packet that holds an id and one text, unless it is
/// longer than a frame may be.
pub fn encode_text(id: i32, text: &str) -> (r: Result<Vec<u8>, EncodeError>)
    ensures
        match r {
            Ok(content) => content@ == text_content(id, text@) && content@.len()
                <= MAX_PACKET_SIZE,
            Err(_) => text_content(id, text@).len() > MAX_PACKET_SIZE,
        },
{
    if text.as_bytes().len() > MAX_PACKET_SIZE {
        return Err(EncodeError::PacketTooLarge);
    }
    let mut out: Vec<u8> = Vec::new();
    put_var_int(&mut out, id);
    put_string(&mut out, text);
    if out.len() > MAX_PACKET_SIZE {
        return Err(EncodeError::PacketTooLarge);
    }
    Ok(out)
}

/// Reads a frame's content as an id and one text.
pub fn decode_text(content: &[u8], id: i32) -> (r: Result<String, DecodeError>)
    ensures
        match text_parse(content@, id) {
            Ok(v) => r matches Ok(text) && text@ == v,
            Err(e) => r matches Err(f) && f == e,
        },
{
    let pos: usize = match expect_packet_id(content, id) {
        Ok(pos) => pos,
        Err(e) => {
            return Err(e);
        },
    };
    let (text, next) = match get_string(content, pos) {
        Ok(pair) => pair,
        Err(e) => {
            return Err(e);
        },
    };
    if next != content.len() {
        return Err(DecodeError::TrailingBytes);
    }
    Ok(text)
}

/// Round trip: an id and a text read back from their content.
pub proof fn lemma_text_round_trip(id: i32, text: Seq<char>)
    requires
        encode_utf8(text).len() <= i32::MAX,
    ensures
        text_parse(text_content(id, text), id) == Ok::<Seq<char>, DecodeError>(text),
{
    let c = text_content(id, text);
    let head = groups(unsigned(id));
    let end0 = head.len() as int;
    assert(c.subrange(0, end0) =~= head);
    assert(c.subrange(end0, c.len() as int) =~= string_bytes(text));
    lemma_read_var_int_at(c, 0, id);
    lemma_read_string_at(c, end0, text);
}

/// The server's status: a JSON document.
#[derive(Clone, Debug, PartialEq, Eq)]
pub struct QueryResponse {
    pub json: String,
}

impl View for QueryResponse {
    type V = Seq<char>;

    open spec fn view(&self) -> Seq<char> {
        self.json@
    }
}

impl QueryResponse {
    /// The number that opens the packet's content.
    pub const ID: i32 = 0;

    /// The packet's content: its id and the document.
    pub open spec fn spec_content(json: Seq<char>) -> Seq<u8> {
        text_content(Self::ID, json)
    }

    /// What a frame's content holds, read as a status.
    pub open spec fn spec_parse(content: Seq<u8>) -> Result<Seq<char>, DecodeError> {
        text_parse(content, Self::ID)
    }

    /// The packet's content, unless it is longer than a frame may be.
    pub fn encode(&self) -> (r: Result<Vec<u8>, EncodeError>)
        ensures
            match r {
                Ok(content) => content@ == Self::spec_content(self@) && content@.len()
                    <= MAX_PACKET_SIZE,
                Err(_) => Self::spec_content(self@).len() > MAX_PACKET_SIZE,
            },
    {
        encode_text(Self::ID, self.json.as_str())
    }

    /// Reads a frame's content as a status.
    pub fn decode(content: &[u8]) -> (r: Result<QueryResponse, DecodeError>)
        ensures
            match Self::spec_parse(content@) {
                Ok(v) => r matches Ok(packet) && packet@ == v,
                Err(e) => r matches Err(f) && f == e,
            },
    {
        match decode_text(content, Self::ID) {
            Ok(json) => Ok(QueryResponse { json }),
            Err(e) => Err(e),
        }
    }

    /// Round trip: the content written for a status reads back as that
    /// status.
    pub proof fn lemma_round_trip(json: Seq<char>)
        requires
            encode_utf8(json).len() <= i32::MAX,
        ensures
            Self::spec_parse(Self::spec_content(json)) == Ok::<Seq<char>, DecodeError>(json),
    {
        lemma_text_round_trip(Self::ID, json);
    }
}

/// The answer to a ping: the payload that the ping carried.
#[derive(Clone, Copy, Debug, PartialEq, Eq)]
pub struct QueryPong {
    pub payload: u64,
}

impl QueryPong {
    /// The number that opens the packet's content.
    pub const ID: i32 = 1;

    /// The packet's content: its id and the payload.
    pub open spec fn spec_content(self) -> Seq<u8> {
        payload_content(Self::ID, self.payload)
    }

    /// What a frame's content holds, read as the answer to a ping.
    pub open spec fn spec_parse(content: Seq<u8>) -> Result<QueryPong, DecodeError> {
        match payload_parse(content, Self::ID) {
            Ok(payload) => Ok(QueryPong { payload }),
            Err(e) => Err(e),
        }
    }

    /// The packet's content.
    pub fn encode(&self) -> (r: Result<Vec<u8>, EncodeError>)
        ensures
            r matches Ok(content) && content@ == self.spec_content() && content@.len()
                <= MAX_PACKET_SIZE,
    {
        Ok(encode_payload(Self::ID, self.payload))
    }

    /// Reads a frame's content as the answer to a ping.
    pub fn decode(content: &[u8]) -> (r: Result<QueryPong, DecodeError>)
        ensures
            r == Self::spec_parse(content@),
    {
        match decode_payload(content, Self::ID) {
            Ok(payload) => Ok(QueryPong { payload }),
            Err(e) => Err(e),
        }
    }

    /// Round trip: the content written for an answer reads back as that
    /// answer.
    pub proof fn lemma_round_trip(packet: QueryPong)
        ensures
            Self::spec_parse(packet.spec_content()) == Ok::<QueryPong, DecodeError>(packet),
    {
        lemma_payload_round_trip(Self::ID, packet.payload);
    }
}

/// The refusal of a login: a chat component, as JSON, that says why.
#[derive(Clone, Debug, PartialEq, Eq)]
pub struct Disconnect {
    pub reason: String,
}

impl View for Disconnect {
    type V = Seq<char>;

    open spec fn view(&self) -> Seq<char> {
        self.reason@
    }
}

impl Disconnect {
    /// The number that opens the packet's content.
    pub const ID: i32 = 0;

    /// The packet's content: its id and the reason.
    pub open spec fn spec_content(reason: Seq<char>) -> Seq<u8> {
        text_content(Self::ID, reason)
    }

    /// What a frame's content holds, read as a refusal.
    pub open spec fn spec_parse(content: Seq<u8>) -> Result<Seq<char>, DecodeError> {
        text_parse(content, Self::ID)
    }

    /// The packet's content, unless it is longer than a frame may be.
    pub fn encode(&self) -> (r: Result<Vec<u8>, EncodeError>)
        ensures
            match r {
                Ok(content) => content@ == Self::spec_content(self@) && content@.len()
                    <= MAX_PACKET_SIZE,
                Err(_) => Self::spec_content(self@).len() > MAX_PACKET_SIZE,
            },
    {
        encode_text(Self::ID, self.reason.as_str())
    }

    /// Reads a frame's content as a refusal.
    pub fn decode(content: &[u8]) -> (r: Result<Disconnect, DecodeError>)
        ensures
            match Self::spec_parse(content@) {
                Ok(v) => r matches Ok(packet) && packet@ == v,
                Err(e) => r matches Err(f) && f == e,
            },
    {
        match decode_text(content, Self::ID) {
            Ok(reason) => Ok(Disconnect { reason }),
            Err(e) => Err(e),
        }
    }

    /// Round trip: the content written for a refusal reads back as that
    /// refusal.
    pub proof fn lemma_round_trip(reason: Seq<char>)
        requires
            encode_utf8(reason).len() <= i32::MAX,
        ensures
            Self::spec_parse(Self::spec_content(reason)) == Ok::<Seq<char>, DecodeError>(reason),
    {
        lemma_text_round_trip(Self::ID, reason);
    }
}

} // verus!
