//! Packets that the client sends.

use crate::codec::{
    be_bytes, bool_bytes, get_be, get_bool, get_string, get_var_int, lemma_be_bytes_len,
    lemma_read_be_at, lemma_read_bool_at, lemma_read_string_at, lemma_read_var_int_at, put_be,
    put_bool, put_string, put_var_int, read_be, read_bool, read_string, read_var_int,
    string_bytes, DecodeError, EncodeError, MAX_PACKET_SIZE,
};
use crate::packet::{expect_packet_id, finish, read_packet_id, NextState};
use crate::var_int::{groups, unsigned};
use vstd::prelude::*;
use vstd::utf8::encode_utf8;

verus! {

/// The first packet of a connection: what the client speaks, whom it asked
/// for, and the phase it wants next.
#[derive(Clone, Debug, PartialEq, Eq)]
pub struct Handshake {
    pub protocol_version: i32,
    pub server_address: String,
    pub server_port: u16,
    pub next_state: NextState,
}

/// A handshake as plain values.
pub struct HandshakeView {
    pub protocol_version: i32,
    pub server_address: Seq<char>,
    pub server_port: u16,
    pub next_state: NextState,
}

impl View for Handshake {
    type V = HandshakeView;

    open spec fn view(&self) -> HandshakeView {
        HandshakeView {
            protocol_version: self.protocol_version,
            server_address: self.server_address@,
            server_port: self.server_port,
            next_state: self.next_state,
        }
    }
}

/// Reads the requested phase at `pos`.
pub open spec fn read_next_state(content: Seq<u8>, pos: int) -> Result<
    (NextState, int),
    DecodeError,
> {
    match read_var_int(content, pos) {
        Err(e) => Err(e),
        Ok((tag, next)) => if tag == 1 {
            Ok((NextState::Status, next))
        } else if tag == 2 {
            Ok((NextState::Login, next))
        } else {
            Err(DecodeError::InvalidNextState)
        },
    }
}

impl Handshake {
    /// The number that opens the packet's content.
    pub const ID: i32 = 0;

    /// The packet's content: its id and its fields.
    pub open spec fn spec_content(v: HandshakeView) -> Seq<u8> {
        groups(unsigned(Self::ID)) + groups(unsigned(v.protocol_version)) + string_bytes(
            v.server_address,
        ) + be_bytes(v.server_port as nat, 2) + groups(unsigned(v.next_state.tag()))
    }

    /// Reads the fields that follow the id.
    pub open spec fn read_fields(content: Seq<u8>, pos: int) -> Result<
        (HandshakeView, int),
        DecodeError,
    > {
        match read_var_int(content, pos) {
            Err(e) => Err(e),
            Ok((protocol_version, end1)) => match read_string(content, end1) {
                Err(e) => Err(e),
                Ok((server_address, end2)) => match read_be(content, end2, 2) {
                    Err(e) => Err(e),
                    Ok((server_port, end3)) => match read_next_state(content, end3) {
                        Err(e) => Err(e),
                        Ok((next_state, end4)) => Ok(
                            (
                                HandshakeView {
                                    protocol_version: protocol_version as i32,
                                    server_address,
                                    server_port: server_port as u16,
                                    next_state,
                                },
                                end4,
                            ),
                        ),
                    },
                },
            },
        }
    }

    /// What a frame's content holds, read as a handshake.
    pub open spec fn spec_parse(content: Seq<u8>) -> Result<HandshakeView, DecodeError> {
        match read_packet_id(content, Self::ID) {
            Err(e) => Err(e),
            Ok(pos) => finish(content, Self::read_fields(content, pos)),
        }
    }

    /// The packet's content, unless it is longer than a frame may be.
    pub fn encode(&self) -> (r: Result<Vec<u8>, EncodeError>)
        ensures
            match r {
                Ok(content) => content@ == Self::spec_content(self@) && content@.len()
                    <= MAX_PACKET_SIZE,
                Err(_) => Self::spec_content(self@).len() > MAX_PACKET_SIZE,
            },
    {
        if self.server_address.as_str().as_bytes().len() > MAX_PACKET_SIZE {
            return Err(EncodeError::PacketTooLarge);
        }
        let mut out: Vec<u8> = Vec::new();
        put_var_int(&mut out, Self::ID);
        put_var_int(&mut out, self.protocol_version);
        put_string(&mut out, self.server_address.as_str());
        put_be(&mut out, self.server_port as u128, 2);
        let tag: i32 = match self.next_state {
            NextState::Status => 1,
            NextState::Login => 2,
        };
        put_var_int(&mut out, tag);
        if out.len() > MAX_PACKET_SIZE {
            return Err(EncodeError::PacketTooLarge);
        }
        Ok(out)
    }

    /// Reads a frame's content as a handshake.
    pub fn decode(content: &[u8]) -> (r: Result<Handshake, DecodeError>)
        ensures
            match Self::spec_parse(content@) {
                Ok(v) => r matches Ok(packet) && packet@ == v,
                Err(e) => r matches Err(f) && f == e,
            },
    {
        let pos: usize = match expect_packet_id(content, Self::ID) {
            Ok(pos) => pos,
            Err(e) => {
                return Err(e);
            },
        };
        let (protocol_version, end1) = match get_var_int(content, pos) {
            Ok(pair) => pair,
            Err(e) => {
                return Err(e);
            },
        };
        let (server_address, end2) = match get_string(content, end1) {
            Ok(pair) => pair,
            Err(e) => {
                return Err(e);
            },
        };
        let (port, end3) = match get_be(content, end2, 2) {
            Ok(pair) => pair,
            Err(e) => {
                return Err(e);
            },
        };
        let (tag, end4) = match get_var_int(content, end3) {
            Ok(pair) => pair,
            Err(e) => {
                return Err(e);
            },
        };
        let next_state: NextState = if tag == 1 {
            NextState::Status
        } else if tag == 2 {
            NextState::Login
        } else {
            return Err(DecodeError::InvalidNextState);
        };
        if end4 != content.len() {
            return Err(DecodeError::TrailingBytes);
        }
        proof {
            assert(crate::codec::pow256(2) == 0x1_0000) by {
                reveal_with_fuel(crate::codec::pow256, 3);
            }
        }
        Ok(Handshake { protocol_version, server_address, server_port: port as u16, next_state })
    }

    /// Round trip: the content written for a handshake reads back as that
    /// handshake.
    pub proof fn lemma_round_trip(v: HandshakeView)
        requires
            encode_utf8(v.server_address).len() <= i32::MAX,
        ensures
            Self::spec_parse(Self::spec_content(v)) == Ok::<HandshakeView, DecodeError>(v),
    {
        let c = Self::spec_content(v);
        let id = groups(unsigned(Self::ID));
        let pv = groups(unsigned(v.protocol_version));
        let addr = string_bytes(v.server_address);
        let port = be_bytes(v.server_port as nat, 2);
        let ns = groups(unsigned(v.next_state.tag()));
        lemma_be_bytes_len(v.server_port as nat, 2);
        assert(crate::codec::pow256(2) == 0x1_0000) by {
            reveal_with_fuel(crate::codec::pow256, 3);
        }
        let end0 = id.len() as int;
        let end1 = end0 + pv.len();
        let end2 = end1 + addr.len();
        let end3 = end2 + port.len();
        let end4 = end3 + ns.len();
        assert(c.subrange(0, end0) =~= id);
        assert(c.subrange(end0, end1) =~= pv);
        assert(c.subrange(end1, end2) =~= addr);
        assert(c.subrange(end2, end3) =~= port);
        assert(c.subrange(end3, end4) =~= ns);
        lemma_read_var_int_at(c, 0, Self::ID);
        lemma_read_var_int_at(c, end0, v.protocol_version);
        lemma_read_string_at(c, end1, v.server_address);
        lemma_read_be_at(c, end2, v.server_port as nat, 2);
        lemma_read_var_int_at(c, end3, v.next_state.tag());
    }
}

/// The request for the server's status. It has no fields.
#[derive(Clone, Copy, Debug, PartialEq, Eq)]
pub struct QueryRequest;

impl QueryRequest {
    /// The number that opens the packet's content.
    pub const ID: i32 = 0;

    /// The packet's content: its id.
    pub open spec fn spec_content() -> Seq<u8> {
        groups(unsigned(Self::ID))
    }

    /// What a frame's content holds, read as a status request.
    pub open spec fn spec_parse(content: Seq<u8>) -> Result<QueryRequest, DecodeError> {
        match read_packet_id(content, Self::ID) {
            Err(e) => Err(e),
            Ok(pos) => finish(content, Ok::<(QueryRequest, int), DecodeError>((QueryRequest, pos))),
        }
    }

    /// The packet's content.
    pub fn encode(&self) -> (r: Result<Vec<u8>, EncodeError>)
        ensures
            r matches Ok(content) && content@ == Self::spec_content() && content@.len()
                <= MAX_PACKET_SIZE,
    {
        let mut out: Vec<u8> = Vec::new();
        put_var_int(&mut out, Self::ID);
        proof {
            crate::var_int::lemma_decode_encode(Seq::empty(), Self::ID, Seq::empty());
        }
        Ok(out)
    }

    /// Reads a frame's content as a status request.
    pub fn decode(content: &[u8]) -> (r: Result<QueryRequest, DecodeError>)
        ensures
            r == Self::spec_parse(content@),
    {
        let pos: usize = match expect_packet_id(content, Self::ID) {
            Ok(pos) => pos,
            Err(e) => {
                return Err(e);
            },
        };
        if pos != content.len() {
            return Err(DecodeError::TrailingBytes);
        }
        Ok(QueryRequest)
    }

    /// Round trip: the content written for a status request reads back as
    /// one.
    pub proof fn lemma_round_trip()
        ensures
            Self::spec_parse(Self::spec_content()) == Ok::<QueryRequest, DecodeError>(
                QueryRequest,
            ),
    {
        let c = Self::spec_content();
        assert(c.subrange(0, c.len() as int) =~= c);
        lemma_read_var_int_at(c, 0, Self::ID);
    }
}

/// A ping in the status phase; the server answers with the same payload.
#[derive(Clone, Copy, Debug, PartialEq, Eq)]
pub struct QueryPing {
    pub payload: u64,
}

/// The content of a packet that holds an id and one 64-bit number.
pub open spec fn payload_content(id: i32, payload: u64) -> Seq<u8> {
    groups(unsigned(id)) + be_bytes(payload as nat, 8)
}

/// What a frame's content holds, read as an id and one 64-bit number.
pub open spec fn payload_parse(content: Seq<u8>, id: i32) -> Result<u64, DecodeError> {
    match read_packet_id(content, id) {
        Err(e) => Err(e),
        Ok(pos) => match read_be(content, pos, 8) {
            Err(e) => Err(e),
            Ok((payload, next)) => finish(
                content,
                Ok::<(u64, int), DecodeError>((payload as u64, next)),
            ),
        },
    }
}

/// The content of a packet that holds an id and one 64-bit number.
pub fn encode_payload(id: i32, payload: u64) -> (content: Vec<u8>)
    ensures
        content@ == payload_content(id, payload),
        content@.len() <= MAX_PACKET_SIZE,
{
    let mut out: Vec<u8> = Vec::new();
    put_var_int(&mut out, id);
    put_be(&mut out, payload as u128, 8);
    proof {
        lemma_be_bytes_len(payload as nat, 8);
        crate::var_int::lemma_decode_encode(Seq::empty(), id, Seq::empty());
    }
    out
}

/// Reads a frame's content as an id and one 64-bit number.
pub fn decode_payload(content: &[u8], id: i32) -> (r: Result<u64, DecodeError>)
    ensures
        r == payload_parse(content@, id),
{
    let pos: usize = match expect_packet_id(content, id) {
        Ok(pos) => pos,
        Err(e) => {
            return Err(e);
        },
    };
    let (payload, next) = match get_be(content, pos, 8) {
        Ok(pair) => pair,
        Err(e) => {
            return Err(e);
        },
    };
    if next != content.len() {
        return Err(DecodeError::TrailingBytes);
    }
    proof {
        assert(crate::codec::pow256(8) == 0x1_0000_0000_0000_0000) by {
            reveal_with_fuel(crate::codec::pow256, 9);
        }
    }
    Ok(payload as u64)
}

/// Round trip: an id and a 64-bit number read back from their content.
pub proof fn lemma_payload_round_trip(id: i32, payload: u64)
    ensures
        payload_parse(payload_content(id, payload), id) == Ok::<u64, DecodeError>(payload),
{
    let c = payload_content(id, payload);
    let head = groups(unsigned(id));
    lemma_be_bytes_len(payload as nat, 8);
    assert(crate::codec::pow256(8) == 0x1_0000_0000_0000_0000) by {
        reveal_with_fuel(crate::codec::pow256, 9);
    }
    let end0 = head.len() as int;
    assert(c.subrange(0, end0) =~= head);
    assert(c.subrange(end0, end0 + 8) =~= be_bytes(payload as nat, 8));
    lemma_read_var_int_at(c, 0, id);
    lemma_read_be_at(c, end0, payload as nat, 8);
}

impl QueryPing {
    /// The number that opens the packet's content.
    pub const ID: i32 = 1;

    /// The packet's content: its id and the payload.
    pub open spec fn spec_content(self) -> Seq<u8> {
        payload_content(Self::ID, self.payload)
    }

    /// What a frame's content holds, read as a ping.
    pub open spec fn spec_parse(content: Seq<u8>) -> Result<QueryPing, DecodeError> {
        match payload_parse(content, Self::ID) {
            Ok(payload) => Ok(QueryPing { payload }),
            Err(e) => Err(e),
        }
    }

    /// The packet's content.
    pub fn encode(&self) -> (r: Result<Vec<u8>, EncodeError>)
        ensures
            r matches Ok(content) && content@ == self.spec_content() && content@.len()
                <= MAX_PACKET_SIZE,
    {
        Ok(encode_payload(Self::ID, self.payload))
    }

    /// Reads a frame's content as a ping.
    pub fn decode(content: &[u8]) -> (r: Result<QueryPing, DecodeError>)
        ensures
            r == Self::spec_parse(content@),
    {
        match decode_payload(content, Self::ID) {
            Ok(payload) => Ok(QueryPing { payload }),
            Err(e) => Err(e),
        }
    }

    /// Round trip: the content written for a ping reads back as that ping.
    pub proof fn lemma_round_trip(packet: QueryPing)
        ensures
            Self::spec_parse(packet.spec_content()) == Ok::<QueryPing, DecodeError>(packet),
    {
        lemma_payload_round_trip(Self::ID, packet.payload);
    }
}

/// The first packet of the login phase: the player's name, and the
/// player's id where the client sends one.
#[derive(Clone, Debug, PartialEq, Eq)]
pub struct LoginHello {
    pub username: String,
    pub profile_id: Option<u128>,
}

/// A login request as plain values.
pub struct LoginHelloView {
    pub username: Seq<char>,
    pub profile_id: Option<u128>,
}

impl View for LoginHello {
    type V = LoginHelloView;

    open spec fn view(&self) -> LoginHelloView {
        LoginHelloView { username: self.username@, profile_id: self.profile_id }
    }
}

/// The wire form of an optional 128-bit id: whether it is there, then the
/// id.
pub open spec fn profile_bytes(profile_id: Option<u128>) -> Seq<u8> {
    match profile_id {
        Some(id) => bool_bytes(true) + be_bytes(id as nat, 16),
        None => bool_bytes(false),
    }
}

/// Reads an optional 128-bit id at `pos`.
pub open spec fn read_profile(content: Seq<u8>, pos: int) -> Result<
    (Option<u128>, int),
    DecodeError,
> {
    match read_bool(content, pos) {
        Err(e) => Err(e),
        Ok((present, end1)) => if present {
            match read_be(content, end1, 16) {
                Err(e) => Err(e),
                Ok((id, end2)) => Ok((Some(id as u128), end2)),
            }
        } else {
            Ok((None, end1))
        },
    }
}

impl LoginHello {
    /// The number that opens the packet's content.
    pub const ID: i32 = 0;

    /// The packet's content: its id and its fields.
    pub open spec fn spec_content(v: LoginHelloView) -> Seq<u8> {
        groups(unsigned(Self::ID)) + string_bytes(v.username) + profile_bytes(v.profile_id)
    }

    /// Reads the fields that follow the id.
    pub open spec fn read_fields(content: Seq<u8>, pos: int) -> Result<
        (LoginHelloView, int),
        DecodeError,
    > {
        match read_string(content, pos) {
            Err(e) => Err(e),
            Ok((username, end1)) => match read_profile(content, end1) {
                Err(e) => Err(e),
                Ok((profile_id, end2)) => Ok((LoginHelloView { username, profile_id }, end2)),
            },
        }
    }

    /// What a frame's content holds, read as a login request.
    pub open spec fn spec_parse(content: Seq<u8>) -> Result<LoginHelloView, DecodeError> {
        match read_packet_id(content, Self::ID) {
            Err(e) => Err(e),
            Ok(pos) => finish(content, Self::read_fields(content, pos)),
        }
    }

    /// The packet's content, unless it is longer than a frame may be.
    pub fn encode(&self) -> (r: Result<Vec<u8>, EncodeError>)
        ensures
            match r {
                Ok(content) => content@ == Self::spec_content(self@) && content@.len()
                    <= MAX_PACKET_SIZE,
                Err(_) => Self::spec_content(self@).len() > MAX_PACKET_SIZE,
            },
    {
        if self.username.as_str().as_bytes().len() > MAX_PACKET_SIZE {
            return Err(EncodeError::PacketTooLarge);
        }
        let mut out: Vec<u8> = Vec::new();
        put_var_int(&mut out, Self::ID);
        put_string(&mut out, self.username.as_str());
        match self.profile_id {
            Some(id) => {
                put_bool(&mut out, true);
                put_be(&mut out, id, 16);
            },
            None => {
                put_bool(&mut out, false);
            },
        }
        if out.len() > MAX_PACKET_SIZE {
            return Err(EncodeError::PacketTooLarge);
        }
        Ok(out)
    }

    /// Reads a frame's content as a login request.
    pub fn decode(content: &[u8]) -> (r: Result<LoginHello, DecodeError>)
        ensures
            match Self::spec_parse(content@) {
                Ok(v) => r matches Ok(packet) && packet@ == v,
                Err(e) => r matches Err(f) && f == e,
            },
    {
        let pos: usize = match expect_packet_id(content, Self::ID) {
            Ok(pos) => pos,
            Err(e) => {
                return Err(e);
            },
        };
        let (username, end1) = match get_string(content, pos) {
            Ok(pair) => pair,
            Err(e) => {
                return Err(e);
            },
        };
        let (present, end2) = match get_bool(content, end1) {
            Ok(pair) => pair,
            Err(e) => {
                return Err(e);
            },
        };
        let mut profile_id: Option<u128> = None;
        let mut end: usize = end2;
        if present {
            let (id, end3) = match get_be(content, end2, 16) {
                Ok(pair) => pair,
                Err(e) => {
                    return Err(e);
                },
            };
            profile_id = Some(id);
            end = end3;
        }
        if end != content.len() {
            return Err(DecodeError::TrailingBytes);
        }
        Ok(LoginHello { username, profile_id })
    }

    /// Round trip: the content written for a login request reads back as
    /// that request.
    pub proof fn lemma_round_trip(v: LoginHelloView)
        requires
            encode_utf8(v.username).len() <= i32::MAX,
        ensures
            Self::spec_parse(Self::spec_content(v)) == Ok::<LoginHelloView, DecodeError>(v),
    {
        let c = Self::spec_content(v);
        let id = groups(unsigned(Self::ID));
        let name = string_bytes(v.username);
        let end0 = id.len() as int;
        let end1 = end0 + name.len();
        assert(c.subrange(0, end0) =~= id);
        assert(c.subrange(end0, end1) =~= name);
        lemma_read_var_int_at(c, 0, Self::ID);
        lemma_read_string_at(c, end0, v.username);
        assert(c.subrange(end1, c.len() as int) =~= profile_bytes(v.profile_id));
        lemma_read_profile_at(c, end1, v.profile_id);
    }
}

/// An optional id reads back where its wire form stands at the end of the
/// content.
pub proof fn lemma_read_profile_at(c: Seq<u8>, at: int, profile_id: Option<u128>)
    requires
        0 <= at <= c.len(),
        c.subrange(at, c.len() as int) == profile_bytes(profile_id),
    ensures
        read_profile(c, at) == Ok::<(Option<u128>, int), DecodeError>(
            (profile_id, c.len() as int),
        ),
{
    match profile_id {
        Some(profile) => {
            lemma_profile_present(c, at, profile);
        },
        None => {
            assert(c.subrange(at, at + 1) =~= bool_bytes(false));
            lemma_read_bool_at(c, at, false);
        },
    }
}

proof fn lemma_profile_present(c: Seq<u8>, at: int, profile: u128)
    requires
        0 <= at <= c.len(),
        c.subrange(at, c.len() as int) == bool_bytes(true) + be_bytes(profile as nat, 16),
    ensures
        read_profile(c, at) == Ok::<(Option<u128>, int), DecodeError>(
            (Some(profile), c.len() as int),
        ),
{
    lemma_be_bytes_len(profile as nat, 16);
    assert(crate::codec::pow256(16) == 0x1_0000_0000_0000_0000_0000_0000_0000_0000) by {
        reveal_with_fuel(crate::codec::pow256, 17);
    }
    let rest = c.subrange(at, c.len() as int);
    assert(rest.len() == 17);
    assert(c.subrange(at, at + 1) =~= bool_bytes(true)) by {
        assert(c.subrange(at, at + 1)[0] == rest[0]);
    }
    assert(c.subrange(at + 1, at + 17) =~= be_bytes(profile as nat, 16)) by {
        assert forall|j: int| 0 <= j < 16 implies #[trigger] c.subrange(at + 1, at + 17)[j]
            == be_bytes(profile as nat, 16)[j] by {
            assert(rest[j + 1] == c[at + 1 + j]);
        }
    }
    lemma_read_bool_at(c, at, true);
    lemma_read_be_at(c, at + 1, profile as nat, 16);
}

} // verus!
