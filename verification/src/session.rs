//! One connection from its first byte to its end. The session is told what
//! arrived and answers with what is to be done: whoever owns the sockets
//! sends the bytes, asks the reputation service and closes.

use crate::codec::put_bytes;
use crate::file::ip_filter_file::SEPARATOR;
use crate::guardian::{
    listed, lookup_url, lookup_url_of, verdict_of, ReputationStore, Verdict, RISK_THRESHOLD,
};
use crate::interceptor::gate::{login_answer, GateEnv};
use crate::interceptor::interceptor::{
    framed, lemma_step_stage, step, Delivery, DeliveryView, Gate, GateError, Interceptor, Step,
};
use crate::decoder::lemma_frame_consumes;
use crate::encoder::make_bytes;
use crate::file::config_file::Config;
use crate::file::lang_file::Lang;
use crate::packet::{
    follows, moved, NextState, Packet, PacketDirection, PacketStage, PacketState, PacketView,
    Transition,
};
use crate::ping_cache::PingCache;
use crate::text::joined;
use vstd::prelude::*;

verus! {

/// What a session waits for.
#[derive(Clone, Copy, Debug, PartialEq, Eq, Structural)]
pub enum Waiting {
    /// The packet of this stage.
    Packet(PacketStage),
    /// The answer of the reputation service.
    Reputation,
    /// Nothing: bytes pass as they come.
    Relay,
    /// Nothing: the connection is over.
    Closed,
}

/// What the owner of the sockets is to do.
#[derive(Clone, Debug, PartialEq, Eq)]
pub enum Action {
    /// Send the bytes to the server.
    ToServer(Vec<u8>),
    /// Send the bytes to the client.
    ToClient(Vec<u8>),
    /// Note that the client's address asked for the status.
    CacheIp,
    /// Ask the reputation service at this address, and tell the session
    /// what it answered.
    AskReputation(String),
    /// Write the contents to the file of the blacklist, or of the
    /// whitelist.
    Persist { blacklist: bool, contents: String },
    /// Pass on all further bytes as they come, in both directions.
    Relay,
    /// Close both sockets; with the reason, where the connection failed.
    Close(Option<GateError>),
}

/// An action as plain values.
pub enum ActionView {
    ToServer(Seq<u8>),
    ToClient(Seq<u8>),
    CacheIp,
    AskReputation(Seq<char>),
    Persist { blacklist: bool, contents: Seq<char> },
    Relay,
    Close(Option<GateError>),
}

impl View for Action {
    type V = ActionView;

    open spec fn view(&self) -> ActionView {
        match self {
            Action::ToServer(bytes) => ActionView::ToServer(bytes@),
            Action::ToClient(bytes) => ActionView::ToClient(bytes@),
            Action::CacheIp => ActionView::CacheIp,
            Action::AskReputation(url) => ActionView::AskReputation(url@),
            Action::Persist { blacklist, contents } => ActionView::Persist {
                blacklist: *blacklist,
                contents: contents@,
            },
            Action::Relay => ActionView::Relay,
            Action::Close(reason) => ActionView::Close(*reason),
        }
    }
}

/// The actions of `actions` as plain values.
pub open spec fn views(actions: Seq<Action>) -> Seq<ActionView> {
    Seq::new(actions.len(), |i: int| actions[i]@)
}

/// A connection as plain values.
pub struct Conn {
    /// The phase of the connection.
    pub state: PacketState,
    pub waiting: Waiting,
    /// The bytes of the client that wait for the rest of their frame.
    pub c2s: Seq<u8>,
    /// The bytes of the server that wait for the rest of their frame.
    pub s2c: Seq<u8>,
    /// The handshake, held back until the server gets to see the
    /// connection.
    pub held: Seq<u8>,
    /// Whether the client's address is refused for its reputation.
    pub blacklisted: bool,
}

/// What a session is told of the proxy and of its connection with each
/// event.
pub struct World<'a> {
    pub config: &'a Config,
    pub lang: &'a Lang,
    /// The addresses that asked for the status a short while ago.
    pub ping_cache: &'a PingCache,
    /// The client's address.
    pub ip: &'a String,
    /// Whether the server can be reached.
    pub server_alive: bool,
    /// The connections that the client's address has open.
    pub connections: usize,
}

/// What a policy knows: what the session is told, with the session's own
/// finding on the reputation of the client's address.
pub open spec fn env_with<'a>(env: &World<'a>, blacklisted: bool) -> GateEnv<'a> {
    GateEnv {
        config: env.config,
        lang: env.lang,
        ping_cache: env.ping_cache,
        ip: env.ip,
        server_alive: env.server_alive,
        blacklisted,
        connections: env.connections,
    }
}

/// The phase after `event`, where the event can happen in the phase
/// `state`, and else the phase as it is.
pub open spec fn phase_after(state: PacketState, event: Transition) -> PacketState {
    match moved(state, event) {
        Some(after) => after,
        None => state,
    }
}

/// To whom the bytes of a delivery go. What goes on to the server carries
/// the handshake that was held back.
pub open spec fn sends(direction: PacketDirection, delivery: DeliveryView, held: Seq<u8>) -> Seq<
    ActionView,
> {
    match (direction, delivery) {
        (PacketDirection::C2S, DeliveryView::Forward(bytes)) => seq![
            ActionView::ToServer(held + bytes),
        ],
        (PacketDirection::C2S, DeliveryView::Return(bytes)) => seq![ActionView::ToClient(bytes)],
        (PacketDirection::S2C, DeliveryView::Forward(bytes)) => seq![ActionView::ToClient(bytes)],
        (PacketDirection::S2C, DeliveryView::Return(bytes)) => seq![ActionView::ToServer(bytes)],
        (_, DeliveryView::Nothing) => Seq::empty(),
    }
}

/// What the session waits for after a packet that went on to where it was
/// headed. A packet that did not go on ends the connection.
pub open spec fn next_waiting(packet: PacketView) -> Waiting {
    match packet {
        PacketView::Handshake(_) => Waiting::Closed,
        PacketView::QueryRequest => Waiting::Packet(PacketStage::S2cQueryResponse),
        PacketView::QueryResponse(_) => Waiting::Packet(PacketStage::C2sPingRequest),
        PacketView::QueryPing(_) => Waiting::Packet(PacketStage::S2cPingResponse),
        PacketView::QueryPong(_) => Waiting::Closed,
        PacketView::LoginHello(_) => Waiting::Relay,
    }
}

/// The connection after the handshake `packet`, which asks for the phase
/// `next`. The handshake is held back. Before a login, where the
/// reputation filter is on, the lists are asked about the client's
/// address, and the reputation service where they do not know it.
pub open spec fn greeted(
    c: Conn,
    packet: PacketView,
    next: NextState,
    env: &World,
    store: &ReputationStore,
) -> Result<(Conn, Seq<ActionView>), GateError> {
    match framed(packet) {
        Err(e) => Err(e),
        Ok(frame) => match next {
            NextState::Status => Ok(
                (
                    Conn {
                        state: phase_after(c.state, Transition::Requested(next)),
                        waiting: Waiting::Packet(PacketStage::C2sQueryRequest),
                        held: frame,
                        ..c
                    },
                    Seq::empty(),
                ),
            ),
            NextState::Login => {
                let verdict = if env.config.guardian.vpn_filter.active {
                    verdict_of(store.blacklist@, store.whitelist@, env.ip@)
                } else {
                    Verdict::Exempt
                };
                if verdict == Verdict::Unknown {
                    Ok(
                        (
                            Conn {
                                state: phase_after(c.state, Transition::Requested(next)),
                                waiting: Waiting::Reputation,
                                held: frame,
                                ..c
                            },
                            seq![ActionView::AskReputation(lookup_url_of(env.ip@))],
                        ),
                    )
                } else {
                    Ok(
                        (
                            Conn {
                                state: phase_after(c.state, Transition::Requested(next)),
                                waiting: Waiting::Packet(PacketStage::C2sLoginStart),
                                held: frame,
                                blacklisted: verdict == Verdict::Blacklisted,
                                ..c
                            },
                            Seq::empty(),
                        ),
                    )
                }
            },
        },
    }
}

/// The reputation service is asked only for a login, only while the filter
/// is on, and only about an address that is on neither list; and whenever
/// it is asked the session waits for its answer.
pub proof fn lemma_asks_when_unknown(
    c: Conn,
    packet: PacketView,
    next: NextState,
    env: &World,
    store: &ReputationStore,
)
    ensures
        greeted(c, packet, next, env, store) matches Ok((after, actions)) ==> (actions.len() <= 1
            && (actions.len() == 1 <==> after.waiting == Waiting::Reputation) && (after.waiting
            == Waiting::Reputation <==> next == NextState::Login
            && env.config.guardian.vpn_filter.active && verdict_of(
            store.blacklist@,
            store.whitelist@,
            env.ip@,
        ) == Verdict::Unknown) && (actions.len() == 1 ==> actions[0]
            == ActionView::AskReputation(lookup_url_of(env.ip@)))),
{
}

/// The bytes of the server that are handed to the client when the relay
/// starts, where there are any.
pub open spec fn flushed(s2c: Seq<u8>) -> Seq<ActionView> {
    if s2c.len() > 0 {
        seq![ActionView::ToClient(s2c)]
    } else {
        Seq::empty()
    }
}

/// The connection after a packet went through the interceptor of
/// `direction`, and
/// what is to be done for it.
pub open spec fn settled(
    c: Conn,
    direction: PacketDirection,
    packet: PacketView,
    delivery: DeliveryView,
    env: &World,
    store: &ReputationStore,
) -> Result<(Conn, Seq<ActionView>), GateError> {
    match packet {
        PacketView::Handshake(h) => greeted(c, packet, h.next_state, env, store),
        _ => if delivery is Forward {
            let held = if direction == PacketDirection::C2S {
                Seq::<u8>::empty()
            } else {
                c.held
            };
            match next_waiting(packet) {
                Waiting::Relay => Ok(
                    (
                        Conn {
                            state: phase_after(c.state, Transition::Admitted),
                            waiting: Waiting::Relay,
                            c2s: Seq::empty(),
                            s2c: Seq::empty(),
                            held,
                            ..c
                        },
                        seq![ActionView::ToServer(c.held + delivery->Forward_0 + c.c2s)] + flushed(
                            c.s2c,
                        ) + seq![ActionView::Relay],
                    ),
                ),
                Waiting::Closed => Ok(
                    (
                        Conn { waiting: Waiting::Closed, held, ..c },
                        sends(direction, delivery, c.held) + seq![ActionView::Close(None)],
                    ),
                ),
                waiting => Ok(
                    (
                        Conn { waiting, held, ..c },
                        (if packet is QueryRequest {
                            seq![ActionView::CacheIp]
                        } else {
                            Seq::empty()
                        }) + sends(direction, delivery, c.held),
                    ),
                ),
            }
        } else {
            Ok(
                (
                    Conn { waiting: Waiting::Closed, ..c },
                    sends(direction, delivery, c.held) + seq![ActionView::Close(None)],
                ),
            )
        },
    }
}

/// One step of the connection, where it waits for a packet and the packet
/// has arrived whole. A packet that is not the expected one, or an answer
/// that does not fit a frame, ends the connection.
#[verifier::opaque]
pub open spec fn advanced(c: Conn, env: &World, store: &ReputationStore) -> Option<
    (Conn, Seq<ActionView>),
> {
    match c.waiting {
        Waiting::Packet(stage) => {
            let direction = stage.spec_direction();
            let bytes = if direction == PacketDirection::C2S {
                c.c2s
            } else {
                c.s2c
            };
            match step(direction, stage, bytes, &env_with(env, c.blacklisted)) {
                Step::Pending => None,
                Step::Failed { error, rest } => Some(
                    (
                        Conn { waiting: Waiting::Closed, ..rested(c, direction, rest) },
                        seq![ActionView::Close(Some(error))],
                    ),
                ),
                Step::Done { packet, delivery, rest } => {
                    let after = rested(c, direction, rest);
                    match settled(after, direction, packet, delivery, env, store) {
                        Ok(pair) => Some(pair),
                        Err(error) => Some(
                            (
                                Conn { waiting: Waiting::Closed, ..after },
                                seq![ActionView::Close(Some(error))],
                            ),
                        ),
                    }
                },
            }
        },
        _ => None,
    }
}

/// The connection with `rest` for the bytes that wait in `direction`.
pub open spec fn rested(c: Conn, direction: PacketDirection, rest: Seq<u8>) -> Conn {
    if direction == PacketDirection::C2S {
        Conn { c2s: rest, ..c }
    } else {
        Conn { s2c: rest, ..c }
    }
}

/// The connection after every packet that has arrived whole went through
/// its gate, and all that is to be done for them, in order.
pub open spec fn run(c: Conn, env: &World, store: &ReputationStore) -> (Conn, Seq<ActionView>)
    decreases c.c2s.len() + c.s2c.len(),
{
    match advanced(c, env, store) {
        None => (c, Seq::empty()),
        Some((after, actions)) => if after.c2s.len() + after.s2c.len() < c.c2s.len()
            + c.s2c.len() {
            let (last, more) = run(after, env, store);
            (last, actions + more)
        } else {
            (after, actions)
        },
    }
}

/// Whether what a connection waits for goes with its phase.
pub open spec fn coherent(c: Conn) -> bool {
    match c.waiting {
        Waiting::Packet(PacketStage::C2sHandshake) => c.state == PacketState::Handshake,
        Waiting::Packet(PacketStage::C2sLoginStart) => c.state == PacketState::Login,
        Waiting::Packet(_) => c.state == PacketState::Status,
        Waiting::Reputation => c.state == PacketState::Login,
        Waiting::Relay => c.state == PacketState::Play,
        Waiting::Closed => true,
    }
}

/// Whether a connection in the phase `from` can come to the phase `to`.
pub open spec fn forward(from: PacketState, to: PacketState) -> bool {
    ||| from == to
    ||| follows(from, to)
    ||| from == PacketState::Handshake && to == PacketState::Play
}

/// The phases only go forward, one move at a time: a step leaves the phase
/// as it is or makes one of the moves that `follows` allows. Play is
/// entered from login only, and only by a login request that no filter
/// denied while the server could be reached.
pub proof fn lemma_step_forward(c: Conn, env: &World, store: &ReputationStore)
    requires
        coherent(c),
    ensures
        advanced(c, env, store) matches Some((after, actions)) ==> coherent(after) && (after.state
            == c.state || follows(c.state, after.state)) && (after.state == PacketState::Play
            ==> c.state == PacketState::Login && after.blacklisted == c.blacklisted
            && login_answer(&env_with(env, c.blacklisted)) == Ok::<
            Option<Seq<u8>>,
            crate::codec::EncodeError,
        >(None)),
{
    reveal(advanced);
    if let Waiting::Packet(stage) = c.waiting {
        let direction = stage.spec_direction();
        let bytes = if direction == PacketDirection::C2S {
            c.c2s
        } else {
            c.s2c
        };
        lemma_step_stage(direction, stage, bytes, &env_with(env, c.blacklisted));
    }
}

/// However many packets arrive at once, the phases only go forward, and a
/// connection that comes to play was admitted by the filters.
pub proof fn lemma_run_forward(c: Conn, env: &World, store: &ReputationStore)
    requires
        coherent(c),
    ensures
        coherent(run(c, env, store).0),
        forward(c.state, run(c, env, store).0.state),
        run(c, env, store).0.state == PacketState::Play && c.state != PacketState::Play
            ==> login_answer(
            &env_with(env, run(c, env, store).0.blacklisted),
        ) == Ok::<Option<Seq<u8>>, crate::codec::EncodeError>(None),
    decreases c.c2s.len() + c.s2c.len(),
{
    lemma_step_forward(c, env, store);
    match advanced(c, env, store) {
        None => {},
        Some((after, actions)) => {
            if after.c2s.len() + after.s2c.len() < c.c2s.len() + c.s2c.len() {
                lemma_run_forward(after, env, store);
                if after.state == PacketState::Play {
                    lemma_run_keeps(after, env, store);
                }
            }
        },
    }
}

/// Whether one of `actions` sends bytes to the server.
pub open spec fn reaches_server(actions: Seq<ActionView>) -> bool {
    exists|i: int| 0 <= i < actions.len() && #[trigger] actions[i] is ToServer
}

/// Before a login is admitted, one step sends the server nothing: the
/// handshake is held back, and a login that is refused is answered to the
/// client alone.
pub proof fn lemma_step_spares_server(c: Conn, env: &World, store: &ReputationStore)
    requires
        coherent(c),
        c.state == PacketState::Handshake || c.state == PacketState::Login,
    ensures
        advanced(c, env, store) matches Some((after, actions)) ==> (after.state
            == PacketState::Handshake || after.state == PacketState::Login ==> !reaches_server(
            actions,
        )),
{
    reveal(advanced);
    if let Waiting::Packet(stage) = c.waiting {
        let direction = stage.spec_direction();
        let bytes = if direction == PacketDirection::C2S {
            c.c2s
        } else {
            c.s2c
        };
        lemma_step_stage(direction, stage, bytes, &env_with(env, c.blacklisted));
    }
}

/// A connection whose login is not admitted never reaches the server:
/// however the bytes arrive, as long as the connection ends up in the
/// handshake or in login, the server was sent nothing.
pub proof fn lemma_run_spares_server(c: Conn, env: &World, store: &ReputationStore)
    requires
        coherent(c),
        c.state == PacketState::Handshake || c.state == PacketState::Login,
    ensures
        run(c, env, store).0.state == PacketState::Handshake || run(c, env, store).0.state
            == PacketState::Login ==> !reaches_server(run(c, env, store).1),
    decreases c.c2s.len() + c.s2c.len(),
{
    lemma_step_forward(c, env, store);
    lemma_step_spares_server(c, env, store);
    match advanced(c, env, store) {
        None => {},
        Some((after, actions)) => {
            if after.c2s.len() + after.s2c.len() < c.c2s.len() + c.s2c.len() {
                lemma_run_forward(after, env, store);
                let last = run(after, env, store).0;
                let more = run(after, env, store).1;
                if last.state == PacketState::Handshake || last.state == PacketState::Login {
                    assert(after.state == PacketState::Handshake || after.state
                        == PacketState::Login);
                    lemma_run_spares_server(after, env, store);
                    if reaches_server(actions + more) {
                        let i = choose|i: int|
                            0 <= i < (actions + more).len() && #[trigger] (actions + more)[i]
                                is ToServer;
                        if i < actions.len() {
                            assert(actions[i] is ToServer);
                        } else {
                            assert(more[i - actions.len()] is ToServer);
                        }
                    }
                }
            }
        },
    }
}

/// A connection that relays or is closed stays as it is.
proof fn lemma_run_keeps(c: Conn, env: &World, store: &ReputationStore)
    requires
        coherent(c),
        c.state == PacketState::Play,
    ensures
        run(c, env, store).0 == c,
{
    reveal(advanced);
}

/// A step that takes no byte ends the connection, so nothing is lost where
/// `run` stops for it.
proof fn lemma_run(c: Conn, env: &World, store: &ReputationStore)
    ensures
        match advanced(c, env, store) {
            None => run(c, env, store) == (c, Seq::<ActionView>::empty()),
            Some((after, actions)) => (after.c2s.len() + after.s2c.len() < c.c2s.len()
                + c.s2c.len() || !(after.waiting is Packet)) ==> run(c, env, store) == (
                run(after, env, store).0,
                actions + run(after, env, store).1,
            ),
        },
{
    match advanced(c, env, store) {
        None => {},
        Some((after, actions)) => {
            if !(after.c2s.len() + after.s2c.len() < c.c2s.len() + c.s2c.len()) && !(
            after.waiting is Packet) {
                assert(advanced(after, env, store) is None) by {
                    reveal(advanced);
                }
                assert(run(after, env, store) == (after, Seq::<ActionView>::empty()));
                assert(actions + Seq::<ActionView>::empty() =~= actions);
            }
        },
    }
}

/// The connection after bytes arrived in `direction`.
pub open spec fn received(
    c: Conn,
    direction: PacketDirection,
    bytes: Seq<u8>,
    env: &World,
    store: &ReputationStore,
) -> (Conn, Seq<ActionView>) {
    match c.waiting {
        Waiting::Closed => (c, Seq::empty()),
        Waiting::Relay => (
            c,
            if direction == PacketDirection::C2S {
                seq![ActionView::ToServer(bytes)]
            } else {
                seq![ActionView::ToClient(bytes)]
            },
        ),
        _ => run(
            if direction == PacketDirection::C2S {
                Conn { c2s: c.c2s + bytes, ..c }
            } else {
                Conn { s2c: c.s2c + bytes, ..c }
            },
            env,
            store,
        ),
    }
}

/// Whether the answer of the reputation service stands for a bad
/// reputation. No answer stands for a good one.
pub open spec fn bad(risk: Option<u8>) -> bool {
    risk matches Some(r) && r >= RISK_THRESHOLD
}

/// The connection as it goes on after the reputation service answered.
pub open spec fn resumed(c: Conn, risk: Option<u8>) -> Conn {
    Conn {
        waiting: Waiting::Packet(PacketStage::C2sLoginStart),
        blacklisted: bad(risk),
        ..c
    }
}

/// The blacklist after the reputation service answered for `ip`.
pub open spec fn blacklist_after(list: Seq<Seq<char>>, risk: Option<u8>, ip: Seq<char>) -> Seq<
    Seq<char>,
> {
    if bad(risk) {
        listed(list, ip)
    } else {
        list
    }
}

/// The whitelist after the reputation service answered for `ip`.
pub open spec fn whitelist_after(list: Seq<Seq<char>>, risk: Option<u8>, ip: Seq<char>) -> Seq<
    Seq<char>,
> {
    if risk is Some && !bad(risk) {
        listed(list, ip)
    } else {
        list
    }
}

/// What is to be written after the reputation service answered for `ip`:
/// the list that grew, where one did.
pub open spec fn persisted(
    blacklist: Seq<Seq<char>>,
    whitelist: Seq<Seq<char>>,
    risk: Option<u8>,
    ip: Seq<char>,
) -> Seq<ActionView> {
    if risk is None {
        Seq::empty()
    } else if bad(risk) {
        if blacklist.contains(ip) {
            Seq::empty()
        } else {
            seq![
                ActionView::Persist {
                    blacklist: true,
                    contents: joined(blacklist.push(ip), SEPARATOR),
                },
            ]
        }
    } else {
        if whitelist.contains(ip) {
            Seq::empty()
        } else {
            seq![
                ActionView::Persist {
                    blacklist: false,
                    contents: joined(whitelist.push(ip), SEPARATOR),
                },
            ]
        }
    }
}

/// Why a connection ends when a stream ends: for no reason where it
/// relays or is closed, and as a failure where a packet or an answer was
/// still waited for.
pub open spec fn ended(waiting: Waiting) -> Option<GateError> {
    match waiting {
        Waiting::Packet(_) | Waiting::Reputation => Some(GateError::EndOfStream),
        _ => None,
    }
}

/// One connection.
pub struct Session {
    state: PacketState,
    waiting: Waiting,
    c2s: Interceptor,
    s2c: Interceptor,
    held: Vec<u8>,
    blacklisted: bool,
}

impl View for Session {
    type V = Conn;

    closed spec fn view(&self) -> Conn {
        Conn {
            state: self.state,
            waiting: self.waiting,
            c2s: self.c2s.decoder@,
            s2c: self.s2c.decoder@,
            held: self.held@,
            blacklisted: self.blacklisted,
        }
    }
}

impl Session {
    /// Whether the session is as its own functions leave it.
    pub closed spec fn wf(&self) -> bool {
        &&& self.c2s.direction == PacketDirection::C2S
        &&& self.s2c.direction == PacketDirection::S2C
        &&& coherent(self@)
    }

    /// What a session waits for always goes with its phase.
    pub proof fn lemma_coherent(&self)
        requires
            self.wf(),
        ensures
            coherent(self@),
    {
    }

    /// A connection on which nothing has arrived: it waits for the
    /// handshake.
    pub fn new() -> (r: Session)
        ensures
            r.wf(),
            r@ == (Conn {
                state: PacketState::Handshake,
                waiting: Waiting::Packet(PacketStage::C2sHandshake),
                c2s: Seq::empty(),
                s2c: Seq::empty(),
                held: Seq::empty(),
                blacklisted: false,
            }),
    {
        Session {
            state: PacketState::Handshake,
            waiting: Waiting::Packet(PacketStage::C2sHandshake),
            c2s: Interceptor::new(PacketDirection::C2S),
            s2c: Interceptor::new(PacketDirection::S2C),
            held: Vec::new(),
            blacklisted: false,
        }
    }

    /// The phase of the connection.
    pub fn state(&self) -> (state: PacketState)
        ensures
            state == self@.state,
    {
        self.state
    }

    /// What the session waits for.
    pub fn waiting(&self) -> (waiting: Waiting)
        ensures
            waiting == self@.waiting,
    {
        self.waiting
    }

    fn close(&mut self, reason: Option<GateError>, actions: &mut Vec<Action>)
        requires
            old(self).wf(),
        ensures
            final(self).wf(),
            final(self)@ == (Conn { waiting: Waiting::Closed, ..old(self)@ }),
            views(final(actions)@) == views(old(actions)@).push(ActionView::Close(reason)),
    {
        self.waiting = Waiting::Closed;
        actions.push(Action::Close(reason));
        assert(views(actions@) =~= views(old(actions)@).push(ActionView::Close(reason)));
    }

    fn greet(
        &mut self,
        packet: &Packet,
        next: NextState,
        env: &World,
        store: &ReputationStore,
        actions: &mut Vec<Action>,
    ) -> (r: Result<(), GateError>)
        requires
            old(self).wf(),
            old(self)@.waiting == Waiting::Packet(PacketStage::C2sHandshake),
        ensures
            final(self).wf(),
            match greeted(old(self)@, packet@, next, env, store) {
                Ok((after, more)) => r is Ok && final(self)@ == after && views(final(actions)@)
                    == views(old(actions)@) + more,
                Err(e) => r matches Err(f) && f == e && final(self)@ == old(self)@ && final(actions)@ == old(actions)@,
            },
    {
        let frame: Vec<u8> = match make_bytes(packet) {
            Ok(frame) => frame,
            Err(e) => {
                return Err(GateError::Encode(e));
            },
        };
        self.held = frame;
        self.state = match self.state.requested(next) {
            Some(state) => state,
            None => self.state,
        };
        match next {
            NextState::Status => {
                self.waiting = Waiting::Packet(PacketStage::C2sQueryRequest);
                assert(views(actions@) =~= views(old(actions)@) + Seq::<ActionView>::empty());
            },
            NextState::Login => {
                let verdict: Verdict = if env.config.guardian.vpn_filter.active {
                    store.lookup(env.ip.as_str())
                } else {
                    Verdict::Exempt
                };
                match verdict {
                    Verdict::Unknown => {
                        self.waiting = Waiting::Reputation;
                        actions.push(Action::AskReputation(lookup_url(env.ip.as_str())));
                        assert(views(actions@) =~= views(old(actions)@) + seq![
                            ActionView::AskReputation(lookup_url_of(env.ip@)),
                        ]);
                    },
                    Verdict::Blacklisted => {
                        self.waiting = Waiting::Packet(PacketStage::C2sLoginStart);
                        self.blacklisted = true;
                        assert(views(actions@) =~= views(old(actions)@) + Seq::<
                            ActionView,
                        >::empty());
                    },
                    _ => {
                        self.waiting = Waiting::Packet(PacketStage::C2sLoginStart);
                        self.blacklisted = false;
                        assert(views(actions@) =~= views(old(actions)@) + Seq::<
                            ActionView,
                        >::empty());
                    },
                }
            },
        }
        Ok(())
    }

    fn send(
        direction: PacketDirection,
        delivery: Delivery,
        held: Vec<u8>,
        actions: &mut Vec<Action>,
    )
        ensures
            views(final(actions)@) == views(old(actions)@) + sends(direction, delivery@, held@),
    {
        match delivery {
            Delivery::Forward(bytes) => match direction {
                PacketDirection::C2S => {
                    let mut out: Vec<u8> = held;
                    put_bytes(&mut out, bytes.as_slice());
                    actions.push(Action::ToServer(out));
                },
                PacketDirection::S2C => {
                    actions.push(Action::ToClient(bytes));
                },
            },
            Delivery::Return(bytes) => match direction {
                PacketDirection::C2S => {
                    actions.push(Action::ToClient(bytes));
                },
                PacketDirection::S2C => {
                    actions.push(Action::ToServer(bytes));
                },
            },
            Delivery::Nothing => {},
        }
        assert(views(actions@) =~= views(old(actions)@) + sends(direction, delivery@, held@));
    }

    fn take_held(&mut self) -> (held: Vec<u8>)
        requires
            old(self).wf(),
        ensures
            final(self).wf(),
            held@ == old(self)@.held,
            final(self)@ == (Conn { held: Seq::empty(), ..old(self)@ }),
    {
        let mut held: Vec<u8> = Vec::new();
        std::mem::swap(&mut held, &mut self.held);
        held
    }

    fn held_copy(&self) -> (held: Vec<u8>)
        ensures
            held@ == self@.held,
    {
        let mut held: Vec<u8> = Vec::new();
        put_bytes(&mut held, self.held.as_slice());
        held
    }

    fn settle(
        &mut self,
        direction: PacketDirection,
        packet: Packet,
        delivery: Delivery,
        env: &World,
        store: &ReputationStore,
        actions: &mut Vec<Action>,
    ) -> (r: Result<(), GateError>)
        requires
            old(self).wf(),
            old(self)@.waiting == Waiting::Packet(packet@.stage()),
            packet@.stage().spec_direction() == direction,
        ensures
            final(self).wf(),
            match settled(old(self)@, direction, packet@, delivery@, env, store) {
                Ok((after, more)) => r is Ok && final(self)@ == after && views(final(actions)@)
                    == views(old(actions)@) + more,
                Err(e) => r matches Err(f) && f == e && final(self)@ == old(self)@ && final(actions)@ == old(actions)@,
            },
    {
        let ghost before = views(actions@);
        let ghost c = self@;
        if let Packet::Handshake(handshake) = &packet {
            let next: NextState = handshake.next_state;
            return self.greet(&packet, next, env, store, actions);
        }
        let forward: bool = match &delivery {
            Delivery::Forward(_) => true,
            _ => false,
        };
        if !forward {
            let held: Vec<u8> = self.held_copy();
            Self::send(direction, delivery, held, actions);
            self.close(None, actions);
            assert(views(actions@) =~= before + (sends(direction, delivery@, c.held) + seq![
                ActionView::Close(None),
            ]));
            return Ok(());
        }
        let held: Vec<u8> = match direction {
            PacketDirection::C2S => self.take_held(),
            PacketDirection::S2C => self.held_copy(),
        };
        match &packet {
            Packet::LoginHello(_) => {
                let mut out: Vec<u8> = held;
                if let Delivery::Forward(bytes) = &delivery {
                    put_bytes(&mut out, bytes.as_slice());
                }
                let rest: Vec<u8> = self.c2s.decoder.take_pending();
                put_bytes(&mut out, rest.as_slice());
                actions.push(Action::ToServer(out));
                let early: Vec<u8> = self.s2c.decoder.take_pending();
                if early.len() > 0 {
                    actions.push(Action::ToClient(early));
                }
                actions.push(Action::Relay);
                self.state = match self.state.admitted() {
                    Some(state) => state,
                    None => self.state,
                };
                self.waiting = Waiting::Relay;
                assert(views(actions@) =~= before + (seq![
                    ActionView::ToServer(c.held + delivery@->Forward_0 + c.c2s),
                ] + flushed(c.s2c) + seq![ActionView::Relay]));
            },
            Packet::QueryPong(_) => {
                Self::send(direction, delivery, held, actions);
                self.close(None, actions);
                assert(views(actions@) =~= before + (sends(direction, delivery@, c.held) + seq![
                    ActionView::Close(None),
                ]));
            },
            Packet::QueryRequest(_) => {
                actions.push(Action::CacheIp);
                Self::send(direction, delivery, held, actions);
                self.waiting = Waiting::Packet(PacketStage::S2cQueryResponse);
                assert(views(actions@) =~= before + (seq![ActionView::CacheIp] + sends(
                    direction,
                    delivery@,
                    c.held,
                )));
            },
            Packet::QueryResponse(_) => {
                Self::send(direction, delivery, held, actions);
                self.waiting = Waiting::Packet(PacketStage::C2sPingRequest);
                assert(views(actions@) =~= before + (Seq::<ActionView>::empty() + sends(
                    direction,
                    delivery@,
                    c.held,
                )));
            },
            Packet::QueryPing(_) => {
                Self::send(direction, delivery, held, actions);
                self.waiting = Waiting::Packet(PacketStage::S2cPingResponse);
                assert(views(actions@) =~= before + (Seq::<ActionView>::empty() + sends(
                    direction,
                    delivery@,
                    c.held,
                )));
            },
            Packet::Handshake(_) => {},
        }
        Ok(())
    }

    fn advance(&mut self, env: &World, store: &ReputationStore, actions: &mut Vec<Action>) -> (progressed:
        bool)
        requires
            old(self).wf(),
        ensures
            final(self).wf(),
            progressed ==> old(self)@.waiting is Packet,
            match advanced(old(self)@, env, store) {
                None => !progressed && final(self)@ == old(self)@ && final(actions)@ == old(actions)@,
                Some((after, more)) => progressed && final(self)@ == after && views(
                    final(actions)@,
                ) == views(old(actions)@) + more && (after.c2s.len() + after.s2c.len() < old(self)@.c2s.len() + old(self)@.s2c.len() || !(after.waiting is Packet)),
            },
    {
        let stage: PacketStage = match self.waiting {
            Waiting::Packet(stage) => stage,
            _ => {
                proof {
                    reveal(advanced);
                }
                return false;
            },
        };
        let ghost c = self@;
        let direction: PacketDirection = stage.direction();
        let local: GateEnv = GateEnv {
            config: env.config,
            lang: env.lang,
            ping_cache: env.ping_cache,
            ip: env.ip,
            server_alive: env.server_alive,
            blacklisted: self.blacklisted,
            connections: env.connections,
        };
        proof {
            reveal(advanced);
            let bytes = if direction == PacketDirection::C2S {
                c.c2s
            } else {
                c.s2c
            };
            lemma_frame_consumes(bytes);
            lemma_step_stage(direction, stage, bytes, &local);
        }
        let gate = match direction {
            PacketDirection::C2S => self.c2s.gatekeeper(stage, &local),
            PacketDirection::S2C => self.s2c.gatekeeper(stage, &local),
        };
        match gate {
            Ok(Gate::Pending) => false,
            Err(e) => {
                self.close(Some(e), actions);
                assert(views(actions@) =~= views(old(actions)@) + seq![
                    ActionView::Close(Some(e)),
                ]);
                true
            },
            Ok(Gate::Done { packet, delivery }) => {
                match self.settle(direction, packet, delivery, env, store, actions) {
                    Ok(_) => {},
                    Err(e) => {
                        self.close(Some(e), actions);
                        assert(views(actions@) =~= views(old(actions)@) + seq![
                            ActionView::Close(Some(e)),
                        ]);
                    },
                }
                true
            },
        }
    }

    fn pump(&mut self, env: &World, store: &ReputationStore, actions: &mut Vec<Action>)
        requires
            old(self).wf(),
        ensures
            final(self).wf(),
            final(self)@ == run(old(self)@, env, store).0,
            views(final(actions)@) == views(old(actions)@) + run(old(self)@, env, store).1,
    {
        let ghost start = self@;
        let ghost before = views(actions@);
        assert(views(actions@) + run(self@, env, store).1 =~= before + run(start, env, store).1);
        loop
            invariant
                self.wf(),
                run(self@, env, store).0 == run(start, env, store).0,
                views(actions@) + run(self@, env, store).1 == before + run(start, env, store).1,
            ensures
                self.wf(),
                self@ == run(start, env, store).0,
                views(actions@) == before + run(start, env, store).1,
            decreases
                    (if self@.waiting is Packet {
                        1int
                    } else {
                        0int
                    }),
                    self@.c2s.len() + self@.s2c.len(),
        {
            let ghost c = self@;
            let ghost so_far = views(actions@);
            let progressed: bool = self.advance(env, store, actions);
            proof {
                lemma_run(c, env, store);
                if progressed {
                    let pair = advanced(c, env, store)->0;
                    let more = pair.1;
                    assert(so_far + (more + run(self@, env, store).1) =~= (so_far + more) + run(
                        self@,
                        env,
                        store,
                    ).1);
                } else {
                    assert(so_far + Seq::<ActionView>::empty() =~= so_far);
                }
            }
            if !progressed {
                break ;
            }
        }
    }

    fn receive(
        &mut self,
        direction: PacketDirection,
        bytes: &[u8],
        env: &World,
        store: &ReputationStore,
    ) -> (actions: Vec<Action>)
        requires
            old(self).wf(),
        ensures
            final(self).wf(),
            final(self)@ == received(old(self)@, direction, bytes@, env, store).0,
            views(actions@) == received(old(self)@, direction, bytes@, env, store).1,
    {
        let mut actions: Vec<Action> = Vec::new();
        assert(views(actions@) =~= Seq::<ActionView>::empty());
        match self.waiting {
            Waiting::Closed => {},
            Waiting::Relay => {
                let mut copy: Vec<u8> = Vec::new();
                put_bytes(&mut copy, bytes);
                match direction {
                    PacketDirection::C2S => {
                        actions.push(Action::ToServer(copy));
                        assert(views(actions@) =~= seq![ActionView::ToServer(bytes@)]);
                    },
                    PacketDirection::S2C => {
                        actions.push(Action::ToClient(copy));
                        assert(views(actions@) =~= seq![ActionView::ToClient(bytes@)]);
                    },
                }
            },
            _ => {
                match direction {
                    PacketDirection::C2S => {
                        self.c2s.queue_bytes(bytes);
                    },
                    PacketDirection::S2C => {
                        self.s2c.queue_bytes(bytes);
                    },
                }
                let ghost queued = self@;
                self.pump(env, store, &mut actions);
                assert(views(actions@) =~= run(queued, env, store).1);
            },
        }
        actions
    }

    /// Takes in bytes that the client sent, and says what is to be done.
    /// Every packet that has arrived whole goes through its gate; while the
    /// connection relays, the bytes go on to the server as they are.
    pub fn on_client_bytes(&mut self, bytes: &[u8], env: &World, store: &ReputationStore) -> (actions:
        Vec<Action>)
        requires
            old(self).wf(),
        ensures
            final(self).wf(),
            final(self)@ == received(old(self)@, PacketDirection::C2S, bytes@, env, store).0,
            views(actions@) == received(old(self)@, PacketDirection::C2S, bytes@, env, store).1,
    {
        self.receive(PacketDirection::C2S, bytes, env, store)
    }

    /// Takes in bytes that the server sent, and says what is to be done.
    pub fn on_server_bytes(&mut self, bytes: &[u8], env: &World, store: &ReputationStore) -> (actions:
        Vec<Action>)
        requires
            old(self).wf(),
        ensures
            final(self).wf(),
            final(self)@ == received(old(self)@, PacketDirection::S2C, bytes@, env, store).0,
            views(actions@) == received(old(self)@, PacketDirection::S2C, bytes@, env, store).1,
    {
        self.receive(PacketDirection::S2C, bytes, env, store)
    }

    /// Takes in what the reputation service answered for the client's
    /// address: the risk, or nothing where it gave none. A risk is recorded
    /// on the lists; no answer counts as a good reputation and is not
    /// recorded. The login goes on from there. A session that did not ask
    /// leaves everything as it is.
    pub fn on_reputation(&mut self, risk: Option<u8>, env: &World, store: &mut ReputationStore) -> (actions:
        Vec<Action>)
        requires
            old(self).wf(),
        ensures
            final(self).wf(),
            old(self)@.waiting != Waiting::Reputation ==> final(self)@ == old(self)@
                && actions@.len() == 0 && final(store).blacklist@ == old(store).blacklist@
                && final(store).whitelist@ == old(store).whitelist@,
            old(self)@.waiting == Waiting::Reputation ==> final(store).blacklist@
                == blacklist_after(old(store).blacklist@, risk, env.ip@) && final(store).whitelist@ == whitelist_after(old(store).whitelist@, risk, env.ip@) && final(self)@
                == run(resumed(old(self)@, risk), env, final(store)).0 && views(actions@)
                == persisted(old(store).blacklist@, old(store).whitelist@, risk, env.ip@) + run(
                resumed(old(self)@, risk),
                env,
                final(store),
            ).1,
    {
        let mut actions: Vec<Action> = Vec::new();
        match self.waiting {
            Waiting::Reputation => {},
            _ => {
                return actions;
            },
        }
        assert(views(actions@) =~= Seq::<ActionView>::empty());
        let mut blacklisted: bool = false;
        match risk {
            Some(r) => {
                let recorded = store.record(env.ip.as_str(), r);
                blacklisted = recorded.blacklisted;
                match recorded.written {
                    Some(contents) => {
                        actions.push(Action::Persist { blacklist: blacklisted, contents });
                    },
                    None => {},
                }
                assert(views(actions@) =~= persisted(
                    old(store).blacklist@,
                    old(store).whitelist@,
                    risk,
                    env.ip@,
                ));
            },
            None => {},
        }
        self.blacklisted = blacklisted;
        self.waiting = Waiting::Packet(PacketStage::C2sLoginStart);
        self.pump(env, store, &mut actions);
        actions
    }

    /// Takes in that one side ended its stream. Where the session still
    /// waits for a packet or for the reputation service, the connection
    /// failed; where it relays or is closed already, it just ends.
    pub fn on_end(&mut self) -> (actions: Vec<Action>)
        requires
            old(self).wf(),
        ensures
            final(self).wf(),
            final(self)@ == (Conn { waiting: Waiting::Closed, ..old(self)@ }),
            views(actions@) == seq![ActionView::Close(ended(old(self)@.waiting))],
    {
        let reason: Option<GateError> = match self.waiting {
            Waiting::Packet(_) => Some(GateError::EndOfStream),
            Waiting::Reputation => Some(GateError::EndOfStream),
            _ => None,
        };
        let mut actions: Vec<Action> = Vec::new();
        assert(views(actions@) =~= Seq::<ActionView>::empty());
        self.close(reason, &mut actions);
        assert(views(actions@) =~= seq![ActionView::Close(reason)]);
        actions
    }
}

} // verus!
