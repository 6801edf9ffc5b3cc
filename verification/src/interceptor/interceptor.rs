//! One direction of a connection.

use crate::codec::{DecodeError, EncodeError, MAX_PACKET_SIZE};
use crate::decoder::{frame_bytes, next_frame, FrameParse, PacketDecoder};
use crate::encoder::make_bytes;
use crate::interceptor::gate::{
    forwarded, login_answer, offline_answer, shown_status, GateEnv, C2S, S2C,
};
use crate::packet::{parse_packet, Packet, PacketDirection, PacketStage, PacketView};
use vstd::prelude::*;

verus! {

/// What a policy decides for a packet.
#[allow(non_camel_case_types)]
#[derive(Clone, Debug, PartialEq, Eq)]
pub enum InterceptResult {
    /// The packet goes on to where it was headed.
    PASSTHROUGH,
    /// The packet goes nowhere. The other side gets the bytes that are
    /// given, or the packet itself where none are.
    RETURN(Option<Vec<u8>>),
    /// Nothing is sent: the caller wants the packet for what it says.
    IGNORE,
}

/// Why a gate gives up. The connection ends with it.
#[derive(Clone, Copy, Debug, PartialEq, Eq)]
pub enum GateError {
    /// What arrived is not the packet that was expected.
    Decode(DecodeError),
    /// What is to be sent does not fit a frame.
    Encode(EncodeError),
    /// The packet that is expected travels in the other direction.
    WrongDirection,
    /// The stream ended while a packet was waited for.
    EndOfStream,
}

/// What is to be sent for a packet, and to whom.
#[derive(Clone, Debug, PartialEq, Eq)]
pub enum Delivery {
    /// The bytes go on to where the packet was headed.
    Forward(Vec<u8>),
    /// The bytes go back to where the packet came from.
    Return(Vec<u8>),
    /// Nothing is sent.
    Nothing,
}

/// What is to be sent for a packet, as plain values.
pub enum DeliveryView {
    Forward(Seq<u8>),
    Return(Seq<u8>),
    Nothing,
}

impl View for Delivery {
    type V = DeliveryView;

    open spec fn view(&self) -> DeliveryView {
        match self {
            Delivery::Forward(bytes) => DeliveryView::Forward(bytes@),
            Delivery::Return(bytes) => DeliveryView::Return(bytes@),
            Delivery::Nothing => DeliveryView::Nothing,
        }
    }
}

/// What a policy decides for a packet, as plain values.
pub enum Decision {
    Passthrough,
    Return(Option<Seq<u8>>),
    Ignore,
}

impl View for InterceptResult {
    type V = Decision;

    open spec fn view(&self) -> Decision {
        match self {
            InterceptResult::PASSTHROUGH => Decision::Passthrough,
            InterceptResult::RETURN(Some(bytes)) => Decision::Return(Some(bytes@)),
            InterceptResult::RETURN(None) => Decision::Return(None),
            InterceptResult::IGNORE => Decision::Ignore,
        }
    }
}

/// One step of a gate.
#[derive(Clone, Debug, PartialEq, Eq)]
pub enum Gate {
    /// The next frame has not arrived whole: more bytes are needed.
    Pending,
    /// A packet went through.
    Done { packet: Packet, delivery: Delivery },
}

/// A frame's bytes, or the refusal of a packet that is too long for one.
pub open spec fn framed(v: PacketView) -> Result<Seq<u8>, GateError> {
    if v.content().len() <= MAX_PACKET_SIZE {
        Ok(frame_bytes(v.content()))
    } else {
        Err(GateError::Encode(EncodeError::PacketTooLarge))
    }
}

/// What is sent for the packet `v` on the decision `decision`.
pub open spec fn delivery_of(decision: Decision, v: PacketView) -> Result<
    DeliveryView,
    GateError,
> {
    match decision {
        Decision::Passthrough => match framed(v) {
            Ok(frame) => Ok(DeliveryView::Forward(frame)),
            Err(e) => Err(e),
        },
        Decision::Return(Some(bytes)) => Ok(DeliveryView::Return(bytes)),
        Decision::Return(None) => match framed(v) {
            Ok(frame) => Ok(DeliveryView::Return(frame)),
            Err(e) => Err(e),
        },
        Decision::Ignore => Ok(DeliveryView::Nothing),
    }
}

/// Lifts the refusal of a frame to the refusal of a gate.
pub open spec fn answer(r: Result<Option<Seq<u8>>, EncodeError>, v: PacketView) -> Result<
    (Decision, PacketView),
    GateError,
> {
    match r {
        Ok(Some(frame)) => Ok((Decision::Return(Some(frame)), v)),
        Ok(None) => Ok((Decision::Passthrough, v)),
        Err(e) => Err(GateError::Encode(e)),
    }
}

/// The policy on each packet: what is decided for it, and the packet as it
/// goes on.
pub open spec fn policy(v: PacketView, env: &GateEnv) -> Result<(Decision, PacketView), GateError> {
    match v {
        PacketView::Handshake(h) => Ok(
            (
                Decision::Ignore,
                PacketView::Handshake(
                    forwarded(h, env.config.proxy.forwarder.ip_forward, env.ip@),
                ),
            ),
        ),
        PacketView::QueryRequest => if env.server_alive {
            Ok((Decision::Passthrough, v))
        } else {
            match offline_answer(env.lang) {
                Ok(frame) => Ok((Decision::Return(Some(frame)), v)),
                Err(e) => Err(GateError::Encode(e)),
            }
        },
        PacketView::QueryResponse(json) => match shown_status(json, env) {
            Some(shown) => Ok((Decision::Passthrough, PacketView::QueryResponse(shown))),
            None => Err(GateError::Decode(DecodeError::InvalidJson)),
        },
        PacketView::QueryPing(_) => Ok((Decision::Passthrough, v)),
        PacketView::QueryPong(_) => Ok((Decision::Passthrough, v)),
        PacketView::LoginHello(_) => answer(login_answer(env), v),
    }
}

/// What one step of a gate comes to, given the bytes that wait in it: the
/// bytes that wait after it, and what the step hands out.
pub enum Step {
    /// More bytes are needed; the bytes stay.
    Pending,
    /// The interceptor gives up.
    Failed { error: GateError, rest: Seq<u8> },
    /// A packet went through.
    Done { packet: PacketView, delivery: DeliveryView, rest: Seq<u8> },
}

/// One step of the interceptor that expects `stage` in the direction
/// `direction`.
pub open spec fn step(
    direction: PacketDirection,
    stage: PacketStage,
    waiting: Seq<u8>,
    env: &GateEnv,
) -> Step {
    if stage.spec_direction() != direction {
        Step::Failed { error: GateError::WrongDirection, rest: waiting }
    } else {
        match next_frame(waiting) {
            FrameParse::Incomplete => Step::Pending,
            FrameParse::Malformed(e) => Step::Failed {
                error: GateError::Decode(e),
                rest: waiting,
            },
            FrameParse::Frame { content, consumed } => {
                let rest = waiting.skip(consumed as int);
                match parse_packet(stage, content) {
                    Err(e) => Step::Failed { error: GateError::Decode(e), rest },
                    Ok(v) => match policy(v, env) {
                        Err(error) => Step::Failed { error, rest },
                        Ok((decision, packet)) => match delivery_of(decision, packet) {
                            Err(error) => Step::Failed { error, rest },
                            Ok(delivery) => Step::Done { packet, delivery, rest },
                        },
                    },
                }
            },
        }
    }
}

/// The packet that an interceptor hands out is of the kind that it
/// expected.
pub proof fn lemma_step_stage(
    direction: PacketDirection,
    stage: PacketStage,
    waiting: Seq<u8>,
    env: &GateEnv,
)
    ensures
        step(direction, stage, waiting, env) matches Step::Done { packet, delivery, rest }
            ==> packet.stage() == stage && stage.spec_direction() == direction && (
        packet is Handshake ==> delivery is Nothing) && (!(packet is Handshake) ==> !(
        delivery is Nothing)),
{
}

/// Fragmentation changes nothing at an interceptor: while the frame that
/// stands first in its stream has not arrived whole, the step waits, and
/// once it has arrived the step is the one that the whole stream gives.
pub proof fn lemma_step_fragmented(
    direction: PacketDirection,
    stage: PacketStage,
    content: Seq<u8>,
    rest: Seq<u8>,
    arrived: int,
    env: &GateEnv,
)
    requires
        stage.spec_direction() == direction,
        content.len() <= MAX_PACKET_SIZE,
        0 <= arrived <= frame_bytes(content).len() + rest.len(),
    ensures
        arrived < frame_bytes(content).len() ==> step(
            direction,
            stage,
            (frame_bytes(content) + rest).take(arrived),
            env,
        ) == Step::Pending,
        arrived >= frame_bytes(content).len() ==> match (
            step(direction, stage, (frame_bytes(content) + rest).take(arrived), env),
            step(direction, stage, frame_bytes(content) + rest, env),
        ) {
            (Step::Pending, Step::Pending) => true,
            (Step::Failed { error: early, .. }, Step::Failed { error: whole, .. }) => early
                == whole,
            (
                Step::Done { packet: early, delivery: sent_early, .. },
                Step::Done { packet: whole, delivery: sent_whole, .. },
            ) => early == whole && sent_early == sent_whole,
            _ => false,
        },
{
    crate::decoder::lemma_fragmentation(content, rest, arrived);
    crate::decoder::lemma_frame_complete(content, rest);
}

/// Asks the policy on `packet`.
pub fn dispatch(packet: Packet, env: &GateEnv) -> (r: Result<(InterceptResult, Packet), GateError>)
    ensures
        match policy(packet@, env) {
            Ok((decision, v)) => r matches Ok(pair) && pair.0@ == decision && pair.1@ == v,
            Err(e) => r matches Err(f) && f == e,
        },
{
    match packet {
        Packet::Handshake(p) => {
            let (result, p) = C2S::handshake(p, env);
            Ok((result, Packet::Handshake(p)))
        },
        Packet::QueryRequest(p) => match C2S::query_request(p, env) {
            Ok((result, p)) => Ok((result, Packet::QueryRequest(p))),
            Err(e) => Err(e),
        },
        Packet::QueryResponse(p) => match S2C::query_response(p, env) {
            Ok((result, p)) => Ok((result, Packet::QueryResponse(p))),
            Err(e) => Err(e),
        },
        Packet::QueryPing(p) => {
            let (result, p) = C2S::query_ping(p, env);
            Ok((result, Packet::QueryPing(p)))
        },
        Packet::QueryPong(p) => {
            let (result, p) = S2C::query_pong(p, env);
            Ok((result, Packet::QueryPong(p)))
        },
        Packet::LoginHello(p) => match C2S::login_hello(p, env) {
            Ok((result, p)) => Ok((result, Packet::LoginHello(p))),
            Err(e) => Err(e),
        },
    }
}

/// One direction of a connection: the bytes that arrived in it, and the
/// frames that are written for it.
pub struct Interceptor {
    pub direction: PacketDirection,
    pub decoder: PacketDecoder,
}

impl Interceptor {
    /// The interceptor of a direction in which nothing has arrived yet.
    pub fn new(direction: PacketDirection) -> (r: Interceptor)
        ensures
            r.direction == direction,
            r.decoder@ == Seq::<u8>::empty(),
    {
        Interceptor { direction, decoder: PacketDecoder::new() }
    }

    /// Takes in bytes that were read in this direction.
    pub fn queue_bytes(&mut self, bytes: &[u8])
        ensures
            final(self).decoder@ == old(self).decoder@ + bytes@,
            final(self).direction == old(self).direction,
    {
        self.decoder.queue_bytes(bytes);
    }

    /// What is sent for `packet` on the decision `result`.
    pub fn deliver(result: InterceptResult, packet: &Packet) -> (r: Result<Delivery, GateError>)
        ensures
            match delivery_of(result@, packet@) {
                Ok(delivery) => r matches Ok(d) && d@ == delivery,
                Err(e) => r matches Err(f) && f == e,
            },
    {
        match result {
            InterceptResult::PASSTHROUGH => match make_bytes(packet) {
                Ok(frame) => Ok(Delivery::Forward(frame)),
                Err(e) => Err(GateError::Encode(e)),
            },
            InterceptResult::RETURN(Some(bytes)) => Ok(Delivery::Return(bytes)),
            InterceptResult::RETURN(None) => match make_bytes(packet) {
                Ok(frame) => Ok(Delivery::Return(frame)),
                Err(e) => Err(GateError::Encode(e)),
            },
            InterceptResult::IGNORE => Ok(Delivery::Nothing),
        }
    }

    /// One step: takes the next frame out of the bytes that
    /// wait, reads it as the packet that `stage` expects, asks the policy,
    /// and hands out the packet with what is to be sent for it. While the
    /// frame has not arrived whole, nothing changes and more bytes are asked
    /// for. A frame that is not the expected packet ends the connection.
    pub fn gatekeeper(&mut self, stage: PacketStage, env: &GateEnv) -> (r: Result<Gate, GateError>)
        ensures
            final(self).direction == old(self).direction,
            match step(old(self).direction, stage, old(self).decoder@, env) {
                Step::Pending => r matches Ok(Gate::Pending) && final(self).decoder@ == old(self).decoder@,
                Step::Failed { error, rest } => r matches Err(e) && e == error && final(self).decoder@ == rest,
                Step::Done { packet, delivery, rest } => r matches Ok(
                    Gate::Done { packet: p, delivery: d },
                ) && p@ == packet && d@ == delivery && final(self).decoder@ == rest,
            },
    {
        if stage.direction() != self.direction {
            return Err(GateError::WrongDirection);
        }
        let frame: Vec<u8> = match self.decoder.try_next_packet() {
            Ok(Some(frame)) => frame,
            Ok(None) => {
                return Ok(Gate::Pending);
            },
            Err(e) => {
                return Err(GateError::Decode(e));
            },
        };
        let packet: Packet = match Packet::decode(stage, frame.as_slice()) {
            Ok(packet) => packet,
            Err(e) => {
                return Err(GateError::Decode(e));
            },
        };
        let (result, packet) = match dispatch(packet, env) {
            Ok(pair) => pair,
            Err(e) => {
                return Err(e);
            },
        };
        match Self::deliver(result, &packet) {
            Ok(delivery) => Ok(Gate::Done { packet, delivery }),
            Err(e) => Err(e),
        }
    }
}

} // verus!
