use vigilant_guard::codec::DecodeError;
use vigilant_guard::interceptor::gate::ip_cache;
use vigilant_guard::encoder::make_bytes;
use vigilant_guard::file::config_file::Config;
use vigilant_guard::file::ip_filter_file::IpFilter;
use vigilant_guard::file::lang_file::Lang;
use vigilant_guard::guardian::{ReputationStore, Verdict};
use vigilant_guard::interceptor::gate::reject;
use vigilant_guard::interceptor::interceptor::GateError;
use vigilant_guard::packet::c2s::{Handshake, LoginHello, QueryPing, QueryRequest};
use vigilant_guard::packet::s2c::{QueryPong, QueryResponse};
use vigilant_guard::packet::{NextState, Packet, PacketStage, PacketState};
use vigilant_guard::ping_cache::PingCache;
use vigilant_guard::session::{Action, Session, Waiting, World};

const UPSTREAM_STATUS: &str = "{\"description\":{\"text\":\"A Minecraft Server\"},\"players\":{\"max\":20,\"online\":1},\"version\":{\"name\":\"Paper 1.20.1\",\"protocol\":763}}";

const SHOWN_STATUS: &str = "{\"description\":{\"text\":\"Intercepted with VigilantGuard\"},\"players\":{\"max\":20,\"online\":1},\"version\":{\"name\":\"VigilantGuard\",\"protocol\":763}}";

fn handshake(next_state: NextState) -> Handshake {
    Handshake {
        protocol_version: 763,
        server_address: "play.example.org".to_string(),
        server_port: 25565,
        next_state,
    }
}

fn frame_of(packet: Packet) -> Vec<u8> {
    make_bytes(&packet).unwrap()
}

fn forwarded_handshake(next_state: NextState, ip: &str) -> Vec<u8> {
    let mut packet = handshake(next_state);
    packet.server_address = format!("play.example.org|{}", ip);
    frame_of(Packet::Handshake(packet))
}

fn hello() -> Vec<u8> {
    frame_of(Packet::LoginHello(LoginHello { username: "Steve".to_string(), profile_id: None }))
}

fn empty_store() -> ReputationStore {
    ReputationStore { blacklist: IpFilter::load(""), whitelist: IpFilter::load("") }
}

fn joined(parts: &[&[u8]]) -> Vec<u8> {
    parts.iter().flat_map(|part| part.iter().copied()).collect()
}

#[test]
fn status_exchange_end_to_end() {
    let config = Config::default();
    let lang = Lang::default();
    let cache = PingCache::new();
    let store = empty_store();
    let ip = "10.0.0.1".to_string();
    let env = World {
        config: &config,
        lang: &lang,
        ping_cache: &cache,
        ip: &ip,
        server_alive: true,
        connections: 1,
    };
    let mut session = Session::new();
    assert_eq!(session.state(), PacketState::Handshake);
    assert_eq!(session.waiting(), Waiting::Packet(PacketStage::C2sHandshake));

    let actions = session.on_client_bytes(&frame_of(Packet::Handshake(handshake(NextState::Status))), &env, &store);
    assert_eq!(actions, vec![]);
    assert_eq!(session.state(), PacketState::Status);

    let request = frame_of(Packet::QueryRequest(QueryRequest));
    let actions = session.on_client_bytes(&request, &env, &store);
    assert_eq!(
        actions,
        vec![
            Action::CacheIp,
            Action::ToServer(joined(&[&forwarded_handshake(NextState::Status, "10.0.0.1"), &request])),
        ]
    );

    let ping = frame_of(Packet::QueryPing(QueryPing { payload: 42 }));
    assert_eq!(session.on_client_bytes(&ping, &env, &store), vec![]);

    let response = frame_of(Packet::QueryResponse(QueryResponse { json: UPSTREAM_STATUS.to_string() }));
    let actions = session.on_server_bytes(&response, &env, &store);
    let shown = frame_of(Packet::QueryResponse(QueryResponse { json: SHOWN_STATUS.to_string() }));
    assert_eq!(actions, vec![Action::ToClient(shown), Action::ToServer(ping.clone())]);

    let pong = frame_of(Packet::QueryPong(QueryPong { payload: 42 }));
    assert_eq!(pong, ping);
    let actions = session.on_server_bytes(&pong, &env, &store);
    assert_eq!(actions, vec![Action::ToClient(pong), Action::Close(None)]);
    assert_eq!(session.waiting(), Waiting::Closed);
    assert_eq!(session.state(), PacketState::Status);
    assert_eq!(session.on_client_bytes(&[1, 2, 3], &env, &store), vec![]);
    assert_eq!(session.on_server_bytes(&[1, 2, 3], &env, &store), vec![]);
}

#[test]
fn status_exchange_in_one_read() {
    let config = Config::default();
    let lang = Lang::default();
    let cache = PingCache::new();
    let store = empty_store();
    let ip = "10.0.0.1".to_string();
    let env = World {
        config: &config,
        lang: &lang,
        ping_cache: &cache,
        ip: &ip,
        server_alive: true,
        connections: 1,
    };
    let request = frame_of(Packet::QueryRequest(QueryRequest));
    let ping = frame_of(Packet::QueryPing(QueryPing { payload: 42 }));
    let stream = joined(&[&frame_of(Packet::Handshake(handshake(NextState::Status))), &request, &ping]);
    let mut session = Session::new();
    let actions = session.on_client_bytes(&stream, &env, &store);
    assert_eq!(
        actions,
        vec![
            Action::CacheIp,
            Action::ToServer(joined(&[&forwarded_handshake(NextState::Status, "10.0.0.1"), &request])),
        ]
    );
    assert_eq!(session.waiting(), Waiting::Packet(PacketStage::S2cQueryResponse));
}

#[test]
fn status_exchange_byte_by_byte_gives_the_same_actions() {
    let config = Config::default();
    let lang = Lang::default();
    let cache = PingCache::new();
    let store = empty_store();
    let ip = "10.0.0.1".to_string();
    let env = World {
        config: &config,
        lang: &lang,
        ping_cache: &cache,
        ip: &ip,
        server_alive: true,
        connections: 1,
    };
    let request = frame_of(Packet::QueryRequest(QueryRequest));
    let stream = joined(&[&frame_of(Packet::Handshake(handshake(NextState::Status))), &request]);
    let mut session = Session::new();
    let mut actions = vec![];
    for byte in &stream {
        actions.extend(session.on_client_bytes(&[*byte], &env, &store));
    }
    assert_eq!(
        actions,
        vec![
            Action::CacheIp,
            Action::ToServer(joined(&[&forwarded_handshake(NextState::Status, "10.0.0.1"), &request])),
        ]
    );
    let response = frame_of(Packet::QueryResponse(QueryResponse { json: UPSTREAM_STATUS.to_string() }));
    let mut actions = vec![];
    for chunk in response.chunks(7) {
        actions.extend(session.on_server_bytes(chunk, &env, &store));
    }
    let shown = frame_of(Packet::QueryResponse(QueryResponse { json: SHOWN_STATUS.to_string() }));
    assert_eq!(actions, vec![Action::ToClient(shown)]);
}

#[test]
fn blacklisted_login_end_to_end() {
    let mut config = Config::default();
    config.guardian.vpn_filter.active = true;
    let lang = Lang::default();
    let cache = PingCache::new();
    let store = ReputationStore {
        blacklist: IpFilter::load("6.6.6.6|10.0.0.66"),
        whitelist: IpFilter::load(""),
    };
    let ip = "10.0.0.66".to_string();
    let env = World {
        config: &config,
        lang: &lang,
        ping_cache: &cache,
        ip: &ip,
        server_alive: true,
        connections: 1,
    };
    let mut session = Session::new();
    let mut actions = session.on_client_bytes(&frame_of(Packet::Handshake(handshake(NextState::Login))), &env, &store);
    assert_eq!(session.state(), PacketState::Login);
    actions.extend(session.on_client_bytes(&hello(), &env, &store));
    assert_eq!(
        actions,
        vec![
            Action::ToClient(reject(&lang.player_ip_blacklisted_kick).unwrap()),
            Action::Close(None),
        ]
    );
    assert!(actions.iter().all(|action| !matches!(action, Action::ToServer(_) | Action::AskReputation(_))));
    assert_eq!(session.state(), PacketState::Login);
    assert_eq!(session.waiting(), Waiting::Closed);
}

#[test]
fn whitelisted_login_passes_without_asking() {
    let mut config = Config::default();
    config.guardian.vpn_filter.active = true;
    let lang = Lang::default();
    let cache = PingCache::new();
    let store = ReputationStore {
        blacklist: IpFilter::load(""),
        whitelist: IpFilter::load("10.0.0.7"),
    };
    let ip = "10.0.0.7".to_string();
    let env = World {
        config: &config,
        lang: &lang,
        ping_cache: &cache,
        ip: &ip,
        server_alive: true,
        connections: 1,
    };
    let mut session = Session::new();
    let stream = joined(&[&frame_of(Packet::Handshake(handshake(NextState::Login))), &hello(), &[1, 2, 3]]);
    let actions = session.on_client_bytes(&stream, &env, &store);
    assert_eq!(
        actions,
        vec![
            Action::ToServer(joined(&[&forwarded_handshake(NextState::Login, "10.0.0.7"), &hello(), &[1, 2, 3]])),
            Action::Relay,
        ]
    );
    assert_eq!(session.state(), PacketState::Play);
    assert_eq!(session.waiting(), Waiting::Relay);
    assert_eq!(session.on_client_bytes(&[9, 9], &env, &store), vec![Action::ToServer(vec![9, 9])]);
    assert_eq!(session.on_server_bytes(&[8], &env, &store), vec![Action::ToClient(vec![8])]);
    assert_eq!(session.state(), PacketState::Play);
}

#[test]
fn an_unknown_address_is_asked_for_once() {
    let mut config = Config::default();
    config.guardian.vpn_filter.active = true;
    let lang = Lang::default();
    let cache = PingCache::new();
    let mut store = empty_store();
    let ip = "10.0.0.9".to_string();

    let mut first = Session::new();
    {
        let env = World {
            config: &config,
            lang: &lang,
            ping_cache: &cache,
            ip: &ip,
            server_alive: true,
            connections: 1,
        };
        let stream = joined(&[&frame_of(Packet::Handshake(handshake(NextState::Login))), &hello()]);
        let actions = first.on_client_bytes(&stream, &env, &store);
        assert_eq!(
            actions,
            vec![Action::AskReputation("https://proxycheck.io/v2/10.0.0.9?vpn=2&asn=0&risk=1".to_string())]
        );
        assert_eq!(first.waiting(), Waiting::Reputation);
        assert_eq!(first.on_client_bytes(&[], &env, &store), vec![]);
        let actions = first.on_reputation(Some(80), &env, &mut store);
        assert_eq!(
            actions,
            vec![
                Action::Persist { blacklist: true, contents: "10.0.0.9".to_string() },
                Action::ToClient(reject(&lang.player_ip_blacklisted_kick).unwrap()),
                Action::Close(None),
            ]
        );
        assert_eq!(first.on_reputation(Some(0), &env, &mut store), vec![]);
    }
    assert_eq!(store.lookup("10.0.0.9"), Verdict::Blacklisted);

    let env = World {
        config: &config,
        lang: &lang,
        ping_cache: &cache,
        ip: &ip,
        server_alive: true,
        connections: 1,
    };
    let mut second = Session::new();
    let stream = joined(&[&frame_of(Packet::Handshake(handshake(NextState::Login))), &hello()]);
    let actions = second.on_client_bytes(&stream, &env, &store);
    assert_eq!(
        actions,
        vec![Action::ToClient(reject(&lang.player_ip_blacklisted_kick).unwrap()), Action::Close(None)]
    );
}

#[test]
fn a_low_risk_is_whitelisted_and_a_missing_answer_lets_pass() {
    let mut config = Config::default();
    config.guardian.vpn_filter.active = true;
    let lang = Lang::default();
    let cache = PingCache::new();
    let mut store = empty_store();
    let ip = "10.0.0.10".to_string();
    let env = World {
        config: &config,
        lang: &lang,
        ping_cache: &cache,
        ip: &ip,
        server_alive: true,
        connections: 1,
    };
    let greeting = frame_of(Packet::Handshake(handshake(NextState::Login)));
    let sent = joined(&[&forwarded_handshake(NextState::Login, "10.0.0.10"), &hello()]);

    let mut session = Session::new();
    session.on_client_bytes(&greeting, &env, &store);
    assert_eq!(session.on_reputation(None, &env, &mut store), vec![]);
    assert_eq!(session.waiting(), Waiting::Packet(PacketStage::C2sLoginStart));
    assert_eq!(store.lookup("10.0.0.10"), Verdict::Unknown);
    assert_eq!(
        session.on_client_bytes(&hello(), &env, &store),
        vec![Action::ToServer(sent.clone()), Action::Relay]
    );

    let mut session = Session::new();
    session.on_client_bytes(&joined(&[&greeting, &hello()]), &env, &store);
    assert_eq!(
        session.on_reputation(Some(12), &env, &mut store),
        vec![
            Action::Persist { blacklist: false, contents: "10.0.0.10".to_string() },
            Action::ToServer(sent),
            Action::Relay,
        ]
    );
    assert_eq!(store.lookup("10.0.0.10"), Verdict::Whitelisted);
    assert_eq!(session.state(), PacketState::Play);
}

#[test]
fn login_needs_a_status_request_within_the_window() {
    let mut config = Config::default();
    config.guardian.ping_protection.active = true;
    let lang = Lang::default();
    let store = empty_store();
    let ip = "10.0.0.1".to_string();
    let stream = joined(&[&frame_of(Packet::Handshake(handshake(NextState::Login))), &hello()]);
    let denied = vec![
        Action::ToClient(reject(&lang.player_ping_not_cached_kick).unwrap()),
        Action::Close(None),
    ];
    let mut cache = PingCache::new();
    {
        let env = World { config: &config, lang: &lang, ping_cache: &cache, ip: &ip, server_alive: true, connections: 1 };
        assert_eq!(Session::new().on_client_bytes(&stream, &env, &store), denied);
    }
    let eviction = vigilant_guard::interceptor::gate::ip_cache(&config, &mut cache, "10.0.0.1", 7000).unwrap();
    {
        let env = World { config: &config, lang: &lang, ping_cache: &cache, ip: &ip, server_alive: true, connections: 1 };
        let actions = Session::new().on_client_bytes(&stream, &env, &store);
        assert_eq!(actions.last(), Some(&Action::Relay));
    }
    cache.remove(&eviction.ip);
    {
        let env = World { config: &config, lang: &lang, ping_cache: &cache, ip: &ip, server_alive: true, connections: 1 };
        assert_eq!(Session::new().on_client_bytes(&stream, &env, &store), denied);
    }
}

#[test]
fn an_offline_server_is_answered_for() {
    let config = Config::default();
    let lang = Lang::default();
    let cache = PingCache::new();
    let store = empty_store();
    let ip = "10.0.0.1".to_string();
    let env = World {
        config: &config,
        lang: &lang,
        ping_cache: &cache,
        ip: &ip,
        server_alive: false,
        connections: 1,
    };
    let mut session = Session::new();
    let stream = joined(&[
        &frame_of(Packet::Handshake(handshake(NextState::Status))),
        &frame_of(Packet::QueryRequest(QueryRequest)),
    ]);
    let offline = frame_of(Packet::QueryResponse(QueryResponse {
        json: vigilant_guard::interceptor::gate::offline_motd(&lang),
    }));
    assert_eq!(
        session.on_client_bytes(&stream, &env, &store),
        vec![Action::ToClient(offline), Action::Close(None)]
    );

    let mut session = Session::new();
    let stream = joined(&[&frame_of(Packet::Handshake(handshake(NextState::Login))), &hello()]);
    assert_eq!(
        session.on_client_bytes(&stream, &env, &store),
        vec![Action::ToClient(reject(&lang.server_offline_kick).unwrap()), Action::Close(None)]
    );
    assert_eq!(session.state(), PacketState::Login);
}

#[test]
fn a_malformed_packet_ends_the_connection() {
    let config = Config::default();
    let lang = Lang::default();
    let cache = PingCache::new();
    let store = empty_store();
    let ip = "10.0.0.1".to_string();
    let env = World {
        config: &config,
        lang: &lang,
        ping_cache: &cache,
        ip: &ip,
        server_alive: true,
        connections: 1,
    };
    let mut bad_next = frame_of(Packet::Handshake(handshake(NextState::Status)));
    let last = bad_next.len() - 1;
    bad_next[last] = 9;
    let mut session = Session::new();
    assert_eq!(
        session.on_client_bytes(&bad_next, &env, &store),
        vec![Action::Close(Some(GateError::Decode(DecodeError::InvalidNextState)))]
    );
    assert_eq!(session.state(), PacketState::Handshake);
    assert_eq!(session.waiting(), Waiting::Closed);

    let mut session = Session::new();
    assert_eq!(
        session.on_client_bytes(&[0xfe, 0x01, 0xfa], &env, &store),
        vec![]
    );
    let mut session = Session::new();
    assert_eq!(
        session.on_client_bytes(&[0xff, 0xff, 0xff, 0xff, 0x7f], &env, &store),
        vec![Action::Close(Some(GateError::Decode(DecodeError::VarIntTooLarge)))]
    );

    let mut session = Session::new();
    session.on_client_bytes(&frame_of(Packet::Handshake(handshake(NextState::Status))), &env, &store);
    session.on_client_bytes(&frame_of(Packet::QueryRequest(QueryRequest)), &env, &store);
    let garbage = frame_of(Packet::QueryResponse(QueryResponse { json: "oops".to_string() }));
    assert_eq!(
        session.on_server_bytes(&garbage, &env, &store),
        vec![Action::Close(Some(GateError::Decode(DecodeError::InvalidJson)))]
    );
}

#[test]
fn early_server_bytes_are_flushed_when_the_relay_starts() {
    let config = Config::default();
    let lang = Lang::default();
    let cache = PingCache::new();
    let store = empty_store();
    let ip = "10.0.0.1".to_string();
    let env = World {
        config: &config,
        lang: &lang,
        ping_cache: &cache,
        ip: &ip,
        server_alive: true,
        connections: 1,
    };
    let mut session = Session::new();
    session.on_client_bytes(&frame_of(Packet::Handshake(handshake(NextState::Login))), &env, &store);
    assert_eq!(session.on_server_bytes(&[5, 6], &env, &store), vec![]);
    assert_eq!(
        session.on_client_bytes(&hello(), &env, &store),
        vec![
            Action::ToServer(joined(&[&forwarded_handshake(NextState::Login, "10.0.0.1"), &hello()])),
            Action::ToClient(vec![5, 6]),
            Action::Relay,
        ]
    );
}

#[test]
fn two_addresses_that_ask_in_one_second_may_both_log_in() {
    let mut config = Config::default();
    config.guardian.ping_protection.active = true;
    let lang = Lang::default();
    let store = empty_store();
    let mut cache = PingCache::new();
    assert!(ip_cache(&config, &mut cache, "10.0.0.1", 500).is_some());
    assert!(ip_cache(&config, &mut cache, "10.0.0.2", 500).is_some());
    let stream = joined(&[&frame_of(Packet::Handshake(handshake(NextState::Login))), &hello()]);
    for address in ["10.0.0.1", "10.0.0.2"] {
        let ip = address.to_string();
        let env = World { config: &config, lang: &lang, ping_cache: &cache, ip: &ip, server_alive: true, connections: 1 };
        let actions = Session::new().on_client_bytes(&stream, &env, &store);
        assert_eq!(actions.last(), Some(&Action::Relay), "{}", address);
    }
}

#[test]
fn the_end_of_a_stream_ends_the_connection() {
    let mut session = Session::new();
    assert_eq!(session.on_end(), vec![Action::Close(Some(GateError::EndOfStream))]);
    assert_eq!(session.waiting(), Waiting::Closed);
    assert_eq!(session.on_end(), vec![Action::Close(None)]);

    let config = Config::default();
    let lang = Lang::default();
    let cache = PingCache::new();
    let store = empty_store();
    let ip = "10.0.0.1".to_string();
    let env = World { config: &config, lang: &lang, ping_cache: &cache, ip: &ip, server_alive: true, connections: 1 };
    let mut session = Session::new();
    let half = frame_of(Packet::Handshake(handshake(NextState::Status)));
    assert_eq!(session.on_client_bytes(&half[..5], &env, &store), vec![]);
    assert_eq!(session.on_end(), vec![Action::Close(Some(GateError::EndOfStream))]);

    let mut session = Session::new();
    let stream = joined(&[&frame_of(Packet::Handshake(handshake(NextState::Login))), &hello()]);
    session.on_client_bytes(&stream, &env, &store);
    assert_eq!(session.waiting(), Waiting::Relay);
    assert_eq!(session.on_end(), vec![Action::Close(None)]);
    assert_eq!(session.state(), PacketState::Play);
}

#[test]
fn a_status_with_spaces_and_a_player_of_the_same_name_is_masked_in_two_places_only() {
    let config = Config::default();
    let lang = Lang::default();
    let cache = PingCache::new();
    let store = empty_store();
    let ip = "10.0.0.1".to_string();
    let env = World { config: &config, lang: &lang, ping_cache: &cache, ip: &ip, server_alive: true, connections: 1 };
    let mut session = Session::new();
    session.on_client_bytes(&frame_of(Packet::Handshake(handshake(NextState::Status))), &env, &store);
    session.on_client_bytes(&frame_of(Packet::QueryRequest(QueryRequest)), &env, &store);
    let upstream = "{\"version\": {\"name\": \"A\", \"protocol\": 1}, \"players\": {\"max\": 1, \"online\": 1, \"sample\": [{\"name\": \"A\", \"id\": \"x\"}]}, \"description\": {\"text\": \"Hi\", \"bold\": true}}";
    let shown = "{\"version\": {\"name\": \"VigilantGuard\", \"protocol\": 1}, \"players\": {\"max\": 1, \"online\": 1, \"sample\": [{\"name\": \"A\", \"id\": \"x\"}]}, \"description\": {\"text\":\"Intercepted with VigilantGuard\"}}";
    let actions = session.on_server_bytes(
        &frame_of(Packet::QueryResponse(QueryResponse { json: upstream.to_string() })),
        &env,
        &store,
    );
    assert_eq!(
        actions,
        vec![Action::ToClient(frame_of(Packet::QueryResponse(QueryResponse { json: shown.to_string() })))]
    );
}
