//! The packets that the proxy reads, and the phases of a connection.

pub mod c2s;
pub mod s2c;

use crate::codec::{get_var_int, read_var_int, DecodeError, EncodeError, MAX_PACKET_SIZE};
use crate::packet::c2s::{Handshake, HandshakeView, LoginHello, LoginHelloView, QueryPing, QueryRequest};
use crate::packet::s2c::{QueryPong, QueryResponse};
use vstd::prelude::*;
use vstd::utf8::encode_utf8;

verus! {

/// The direction a packet travels in.
#[derive(Clone, Copy, Debug, PartialEq, Eq, Structural)]
pub enum PacketDirection {
    /// From the client to the server.
    C2S,
    /// From the server to the client.
    S2C,
}

/// The phase of a connection.
#[derive(Clone, Copy, Debug, PartialEq, Eq, Structural)]
pub enum PacketState {
    Handshake,
    Status,
    Login,
    Play,
}

/// The phase that a handshake asks for.
#[derive(Clone, Copy, Debug, PartialEq, Eq, Structural)]
pub enum NextState {
    Status,
    Login,
}

/// The packet that a connection expects next.
#[derive(Clone, Copy, Debug, PartialEq, Eq, Structural)]
pub enum PacketStage {
    C2sHandshake,
    C2sQueryRequest,
    S2cQueryResponse,
    C2sPingRequest,
    S2cPingResponse,
    C2sLoginStart,
}

/// The phase that the number `value` stands for in a handshake.
pub open spec fn state_of(value: int) -> Option<PacketState> {
    if value == 0 {
        Some(PacketState::Handshake)
    } else if value == 1 {
        Some(PacketState::Status)
    } else if value == 2 {
        Some(PacketState::Login)
    } else {
        None
    }
}

impl PacketState {
    /// The phase that `value` stands for; play has no number.
    pub fn try_from(value: i32) -> (r: Result<PacketState, ()>)
        ensures
            match state_of(value as int) {
                Some(state) => r == Ok::<PacketState, ()>(state),
                None => r is Err,
            },
    {
        if value == 0 {
            Ok(PacketState::Handshake)
        } else if value == 1 {
            Ok(PacketState::Status)
        } else if value == 2 {
            Ok(PacketState::Login)
        } else {
            Err(())
        }
    }
}

/// Whether a connection may go from the phase `from` to the phase `to`:
/// from the handshake to status or login, from login to play, and no other
/// way.
pub open spec fn follows(from: PacketState, to: PacketState) -> bool {
    ||| from == PacketState::Handshake && (to == PacketState::Status || to == PacketState::Login)
    ||| from == PacketState::Login && to == PacketState::Play
}

/// What moves a connection to another phase.
pub enum Transition {
    /// A handshake asked for a phase.
    Requested(NextState),
    /// The filters let a login pass.
    Admitted,
}

/// The phase after `event`, where the event can happen in the phase
/// `state`.
pub open spec fn moved(state: PacketState, event: Transition) -> Option<PacketState> {
    match (state, event) {
        (PacketState::Handshake, Transition::Requested(next)) => Some(next.spec_state()),
        (PacketState::Login, Transition::Admitted) => Some(PacketState::Play),
        _ => None,
    }
}

/// The phase after all of `events`, one after the other.
pub open spec fn moved_all(state: PacketState, events: Seq<Transition>) -> Option<PacketState>
    decreases events.len(),
{
    if events.len() == 0 {
        Some(state)
    } else {
        match moved_all(state, events.drop_last()) {
            Some(before) => moved(before, events.last()),
            None => None,
        }
    }
}

/// The phases only go forward: every move is one of the three that
/// `follows` allows, and a connection that is in play came there from a
/// handshake that asked for login, by an admitted login and by nothing
/// else.
pub proof fn lemma_state_forward(events: Seq<Transition>)
    ensures
        events.len() > 0 ==> (moved_all(PacketState::Handshake, events) matches Some(after)
            ==> moved_all(PacketState::Handshake, events.drop_last()) matches Some(before)
            && follows(before, after)),
        moved_all(PacketState::Handshake, events) == Some(PacketState::Play) ==> events
            == seq![Transition::Requested(NextState::Login), Transition::Admitted],
        moved_all(PacketState::Handshake, events) is Some ==> events.len() <= 2,
    decreases events.len(),
{
    if events.len() > 0 {
        let front = events.drop_last();
        lemma_state_forward(front);
        if moved_all(PacketState::Handshake, events) is Some {
            let before = moved_all(PacketState::Handshake, front)->0;
            if front.len() > 0 {
                let earlier = front.drop_last();
                lemma_state_forward(earlier);
                assert(moved_all(PacketState::Handshake, earlier) is Some);
                if earlier.len() > 0 {
                    let first = moved_all(PacketState::Handshake, earlier.drop_last())->0;
                    assert(follows(first, moved_all(PacketState::Handshake, earlier)->0));
                    assert(false);
                }
                assert(earlier =~= Seq::<Transition>::empty());
                assert(front =~= seq![front[0]]);
                assert(front.last() == front[0]);
                if moved_all(PacketState::Handshake, events) == Some(PacketState::Play) {
                    assert(events =~= seq![front[0], events.last()]);
                    assert(front[0] == Transition::Requested(NextState::Login));
                    assert(events.last() == Transition::Admitted);
                }
            } else {
                assert(before == PacketState::Handshake);
            }
        }
    }
}

impl PacketState {
    /// The phase that a handshake asking for `next` leads to. Only a
    /// connection that is in the handshake can be asked to move.
    pub fn requested(self, next: NextState) -> (r: Option<PacketState>)
        ensures
            r == moved(self, Transition::Requested(next)),
            r matches Some(after) ==> follows(self, after),
    {
        match self {
            PacketState::Handshake => Some(next.state()),
            _ => None,
        }
    }

    /// The phase that an admitted login leads to: play. Only a connection
    /// that is in login can be admitted.
    pub fn admitted(self) -> (r: Option<PacketState>)
        ensures
            r == moved(self, Transition::Admitted),
            r matches Some(after) ==> follows(self, after),
    {
        match self {
            PacketState::Login => Some(PacketState::Play),
            _ => None,
        }
    }
}

impl NextState {
    /// The number that stands for the phase on the wire.
    pub open spec fn tag(self) -> i32 {
        match self {
            NextState::Status => 1,
            NextState::Login => 2,
        }
    }

    /// The phase a connection enters with this request.
    pub open spec fn spec_state(self) -> PacketState {
        match self {
            NextState::Status => PacketState::Status,
            NextState::Login => PacketState::Login,
        }
    }

    /// The phase a connection enters with this request.
    pub fn state(self) -> (s: PacketState)
        ensures
            s == self.spec_state(),
    {
        match self {
            NextState::Status => PacketState::Status,
            NextState::Login => PacketState::Login,
        }
    }
}

impl PacketStage {
    /// The direction in which the expected packet travels.
    pub open spec fn spec_direction(self) -> PacketDirection {
        match self {
            PacketStage::S2cQueryResponse | PacketStage::S2cPingResponse => PacketDirection::S2C,
            _ => PacketDirection::C2S,
        }
    }

    /// The direction in which the expected packet travels.
    pub fn direction(self) -> (d: PacketDirection)
        ensures
            d == self.spec_direction(),
    {
        match self {
            PacketStage::S2cQueryResponse | PacketStage::S2cPingResponse => PacketDirection::S2C,
            _ => PacketDirection::C2S,
        }
    }

    /// The id that the expected packet carries.
    pub open spec fn spec_packet_id(self) -> i32 {
        match self {
            PacketStage::C2sPingRequest | PacketStage::S2cPingResponse => 1,
            _ => 0,
        }
    }

    /// The id that the expected packet carries.
    pub fn packet_id(self) -> (id: i32)
        ensures
            id == self.spec_packet_id(),
    {
        match self {
            PacketStage::C2sPingRequest | PacketStage::S2cPingResponse => 1,
            _ => 0,
        }
    }
}

/// Reads the packet id at the start of a frame's content and holds it
/// against the expected one; gives the place where the fields start.
pub open spec fn read_packet_id(content: Seq<u8>, id: i32) -> Result<int, DecodeError> {
    match read_var_int(content, 0) {
        Err(e) => Err(e),
        Ok((found, next)) => if found == id {
            Ok(next)
        } else {
            Err(DecodeError::WrongPacketId)
        },
    }
}

/// The value read, where the read ended with the content; no bytes may be
/// left over.
pub open spec fn finish<T>(content: Seq<u8>, r: Result<(T, int), DecodeError>) -> Result<
    T,
    DecodeError,
> {
    match r {
        Err(e) => Err(e),
        Ok((value, next)) => if next == content.len() {
            Ok(value)
        } else {
            Err(DecodeError::TrailingBytes)
        },
    }
}

/// Reads the packet id at the start of a frame's content.
pub fn expect_packet_id(content: &[u8], id: i32) -> (r: Result<usize, DecodeError>)
    ensures
        match read_packet_id(content@, id) {
            Ok(next) => r matches Ok(n) && n == next && 0 < next <= content@.len(),
            Err(e) => r == Err::<usize, DecodeError>(e),
        },
{
    match get_var_int(content, 0) {
        Err(e) => Err(e),
        Ok((found, next)) => if found == id {
            Ok(next)
        } else {
            Err(DecodeError::WrongPacketId)
        },
    }
}

/// A packet that the proxy reads.
#[derive(Clone, Debug, PartialEq, Eq)]
pub enum Packet {
    Handshake(Handshake),
    QueryRequest(QueryRequest),
    QueryResponse(QueryResponse),
    QueryPing(QueryPing),
    QueryPong(QueryPong),
    LoginHello(LoginHello),
}

/// A packet as plain values.
pub enum PacketView {
    Handshake(HandshakeView),
    QueryRequest,
    QueryResponse(Seq<char>),
    QueryPing(u64),
    QueryPong(u64),
    LoginHello(LoginHelloView),
}

impl View for Packet {
    type V = PacketView;

    open spec fn view(&self) -> PacketView {
        match self {
            Packet::Handshake(p) => PacketView::Handshake(p@),
            Packet::QueryRequest(_) => PacketView::QueryRequest,
            Packet::QueryResponse(p) => PacketView::QueryResponse(p@),
            Packet::QueryPing(p) => PacketView::QueryPing(p.payload),
            Packet::QueryPong(p) => PacketView::QueryPong(p.payload),
            Packet::LoginHello(p) => PacketView::LoginHello(p@),
        }
    }
}

impl PacketView {
    /// The stage at which this packet is expected.
    pub open spec fn stage(self) -> PacketStage {
        match self {
            PacketView::Handshake(_) => PacketStage::C2sHandshake,
            PacketView::QueryRequest => PacketStage::C2sQueryRequest,
            PacketView::QueryResponse(_) => PacketStage::S2cQueryResponse,
            PacketView::QueryPing(_) => PacketStage::C2sPingRequest,
            PacketView::QueryPong(_) => PacketStage::S2cPingResponse,
            PacketView::LoginHello(_) => PacketStage::C2sLoginStart,
        }
    }

    /// The packet's content: its id and its fields.
    pub open spec fn content(self) -> Seq<u8> {
        match self {
            PacketView::Handshake(v) => Handshake::spec_content(v),
            PacketView::QueryRequest => QueryRequest::spec_content(),
            PacketView::QueryResponse(json) => QueryResponse::spec_content(json),
            PacketView::QueryPing(payload) => (QueryPing { payload }).spec_content(),
            PacketView::QueryPong(payload) => (QueryPong { payload }).spec_content(),
            PacketView::LoginHello(v) => LoginHello::spec_content(v),
        }
    }

    /// Whether every text of the packet can be written: its UTF-8 form is
    /// at most `i32::MAX` bytes long.
    pub open spec fn writable(self) -> bool {
        match self {
            PacketView::Handshake(v) => encode_utf8(v.server_address).len() <= i32::MAX,
            PacketView::QueryResponse(json) => encode_utf8(json).len() <= i32::MAX,
            PacketView::LoginHello(v) => encode_utf8(v.username).len() <= i32::MAX,
            _ => true,
        }
    }
}

/// What a frame's content holds, read as the packet that `stage` expects.
pub open spec fn parse_packet(stage: PacketStage, content: Seq<u8>) -> Result<
    PacketView,
    DecodeError,
> {
    match stage {
        PacketStage::C2sHandshake => match Handshake::spec_parse(content) {
            Ok(v) => Ok(PacketView::Handshake(v)),
            Err(e) => Err(e),
        },
        PacketStage::C2sQueryRequest => match QueryRequest::spec_parse(content) {
            Ok(_) => Ok(PacketView::QueryRequest),
            Err(e) => Err(e),
        },
        PacketStage::S2cQueryResponse => match QueryResponse::spec_parse(content) {
            Ok(json) => Ok(PacketView::QueryResponse(json)),
            Err(e) => Err(e),
        },
        PacketStage::C2sPingRequest => match QueryPing::spec_parse(content) {
            Ok(p) => Ok(PacketView::QueryPing(p.payload)),
            Err(e) => Err(e),
        },
        PacketStage::S2cPingResponse => match QueryPong::spec_parse(content) {
            Ok(p) => Ok(PacketView::QueryPong(p.payload)),
            Err(e) => Err(e),
        },
        PacketStage::C2sLoginStart => match LoginHello::spec_parse(content) {
            Ok(v) => Ok(PacketView::LoginHello(v)),
            Err(e) => Err(e),
        },
    }
}

impl Packet {
    /// The stage at which this packet is expected.
    pub fn stage(&self) -> (stage: PacketStage)
        ensures
            stage == self@.stage(),
    {
        match self {
            Packet::Handshake(_) => PacketStage::C2sHandshake,
            Packet::QueryRequest(_) => PacketStage::C2sQueryRequest,
            Packet::QueryResponse(_) => PacketStage::S2cQueryResponse,
            Packet::QueryPing(_) => PacketStage::C2sPingRequest,
            Packet::QueryPong(_) => PacketStage::S2cPingResponse,
            Packet::LoginHello(_) => PacketStage::C2sLoginStart,
        }
    }

    /// The packet's content, unless it is longer than a frame may be.
    pub fn encode(&self) -> (r: Result<Vec<u8>, EncodeError>)
        ensures
            match r {
                Ok(content) => content@ == self@.content() && content@.len() <= MAX_PACKET_SIZE,
                Err(_) => self@.content().len() > MAX_PACKET_SIZE,
            },
    {
        match self {
            Packet::Handshake(p) => p.encode(),
            Packet::QueryRequest(p) => p.encode(),
            Packet::QueryResponse(p) => p.encode(),
            Packet::QueryPing(p) => p.encode(),
            Packet::QueryPong(p) => p.encode(),
            Packet::LoginHello(p) => p.encode(),
        }
    }

    /// Reads a frame's content as the packet that `stage` expects.
    pub fn decode(stage: PacketStage, content: &[u8]) -> (r: Result<Packet, DecodeError>)
        ensures
            match parse_packet(stage, content@) {
                Ok(v) => r matches Ok(packet) && packet@ == v && v.stage() == stage,
                Err(e) => r matches Err(f) && f == e,
            },
    {
        match stage {
            PacketStage::C2sHandshake => match Handshake::decode(content) {
                Ok(p) => Ok(Packet::Handshake(p)),
                Err(e) => Err(e),
            },
            PacketStage::C2sQueryRequest => match QueryRequest::decode(content) {
                Ok(p) => Ok(Packet::QueryRequest(p)),
                Err(e) => Err(e),
            },
            PacketStage::S2cQueryResponse => match QueryResponse::decode(content) {
                Ok(p) => Ok(Packet::QueryResponse(p)),
                Err(e) => Err(e),
            },
            PacketStage::C2sPingRequest => match QueryPing::decode(content) {
                Ok(p) => Ok(Packet::QueryPing(p)),
                Err(e) => Err(e),
            },
            PacketStage::S2cPingResponse => match QueryPong::decode(content) {
                Ok(p) => Ok(Packet::QueryPong(p)),
                Err(e) => Err(e),
            },
            PacketStage::C2sLoginStart => match LoginHello::decode(content) {
                Ok(p) => Ok(Packet::LoginHello(p)),
                Err(e) => Err(e),
            },
        }
    }
}

/// Round trip: the content written for a packet reads back, at the stage
/// that expects it, as that packet.
pub proof fn lemma_packet_round_trip(v: PacketView)
    requires
        v.writable(),
    ensures
        parse_packet(v.stage(), v.content()) == Ok::<PacketView, DecodeError>(v),
{
    match v {
        PacketView::Handshake(h) => Handshake::lemma_round_trip(h),
        PacketView::QueryRequest => QueryRequest::lemma_round_trip(),
        PacketView::QueryResponse(json) => QueryResponse::lemma_round_trip(json),
        PacketView::QueryPing(payload) => QueryPing::lemma_round_trip(QueryPing { payload }),
        PacketView::QueryPong(payload) => QueryPong::lemma_round_trip(QueryPong { payload }),
        PacketView::LoginHello(l) => LoginHello::lemma_round_trip(l),
    }
}

} // verus!
