use vigilant_guard::codec::DecodeError;
use vigilant_guard::file::config_file::Config;
use vigilant_guard::file::lang_file::Lang;
use vigilant_guard::interceptor::gate::{
    concurrency_filter, ip_cache, ip_forward, offline_motd, ping_filter, reject,
    vpn_filter, Eviction, GateEnv, C2S, S2C,
};
use vigilant_guard::interceptor::interceptor::{
    dispatch, Delivery, Gate, GateError, InterceptResult, Interceptor,
};
use vigilant_guard::json::{chat_text, find_member, mask_motd, status_spans};
use vigilant_guard::packet::c2s::{Handshake, LoginHello, QueryPing, QueryRequest};
use vigilant_guard::packet::s2c::{Disconnect, QueryPong, QueryResponse};
use vigilant_guard::packet::{NextState, Packet, PacketDirection, PacketStage};
use vigilant_guard::ping_cache::PingCache;
use vigilant_guard::registry::Registry;

const SERVER_STATUS: &str = "{\"description\":{\"text\":\"A Minecraft Server\"},\"players\":{\"max\":20,\"online\":1},\"version\":{\"name\":\"Paper 1.20.1\",\"protocol\":763}}";

const MASKED_STATUS: &str = "{\"description\":{\"text\":\"Intercepted with VigilantGuard\"},\"players\":{\"max\":20,\"online\":1},\"version\":{\"name\":\"VigilantGuard\",\"protocol\":763}}";

fn kick_frame(message: &str) -> Vec<u8> {
    let json = format!("{{\"text\":\"{}\"}}", message);
    let mut frame = vec![(json.len() + 2) as u8, 0x00, json.len() as u8];
    frame.extend_from_slice(json.as_bytes());
    frame
}

fn guarded_config() -> Config {
    let mut config = Config::default();
    config.guardian.ping_protection.active = true;
    config.guardian.ip_connection_limit.active = true;
    config.guardian.vpn_filter.active = true;
    config
}

#[test]
fn chat_components_are_json_objects() {
    assert_eq!(chat_text("Hello"), "{\"text\":\"Hello\"}");
    assert_eq!(chat_text(""), "{\"text\":\"\"}");
    assert_eq!(chat_text("say \"hi\"\n\\"), "{\"text\":\"say \\\"hi\\\"\\n\\\\\"}");
    assert_eq!(chat_text("\u{a7}cNo"), "{\"text\":\"\u{a7}cNo\"}");
}

#[test]
fn a_refusal_is_a_framed_chat_component() {
    assert_eq!(reject("Go away"), Ok(kick_frame("Go away")));
    let frame = reject("Go away").unwrap();
    let refusal = Disconnect::decode(&frame[1..]).unwrap();
    assert_eq!(refusal.reason, "{\"text\":\"Go away\"}");
}

#[test]
fn vpn_filter_denies_a_bad_reputation() {
    let lang = Lang::default();
    let on = guarded_config();
    let off = Config::default();
    assert_eq!(vpn_filter(&on, &lang, true), Ok(Some(kick_frame(&lang.player_ip_blacklisted_kick))));
    assert_eq!(vpn_filter(&on, &lang, false), Ok(None));
    assert_eq!(vpn_filter(&off, &lang, true), Ok(None));
    assert_eq!(vpn_filter(&off, &lang, false), Ok(None));
}

#[test]
fn concurrency_filter_denies_at_the_limit() {
    let lang = Lang::default();
    let on = guarded_config();
    let kick = kick_frame(&lang.player_connection_more_kick);
    assert_eq!(concurrency_filter(&on, &lang, 2), Ok(None));
    assert_eq!(concurrency_filter(&on, &lang, 3), Ok(Some(kick.clone())));
    assert_eq!(concurrency_filter(&on, &lang, 4), Ok(Some(kick)));
    assert_eq!(concurrency_filter(&Config::default(), &lang, 100), Ok(None));
}

#[test]
fn the_fourth_login_of_an_address_is_denied_and_others_are_not() {
    let lang = Lang::default();
    let config = guarded_config();
    let mut registry = Registry::new();
    for _ in 0..3 {
        registry.on_accept("10.0.0.1");
    }
    registry.on_accept("10.0.0.2");
    let crowded = registry.count("10.0.0.1").unwrap();
    let calm = registry.count("10.0.0.2").unwrap();
    assert_eq!(
        concurrency_filter(&config, &lang, crowded),
        Ok(Some(kick_frame(&lang.player_connection_more_kick)))
    );
    assert_eq!(concurrency_filter(&config, &lang, calm), Ok(None));
    registry.on_close("10.0.0.1");
    assert_eq!(concurrency_filter(&config, &lang, registry.count("10.0.0.1").unwrap()), Ok(None));
}

#[test]
fn ping_filter_wants_a_status_request_first() {
    let lang = Lang::default();
    let config = guarded_config();
    let mut cache = PingCache::new();
    let kick = kick_frame(&lang.player_ping_not_cached_kick);
    assert_eq!(ping_filter(&config, &lang, &cache, "10.0.0.1"), Ok(Some(kick.clone())));
    let eviction = ip_cache(&config, &mut cache, "10.0.0.1", 1000);
    assert_eq!(eviction, Some(Eviction { ip: "10.0.0.1".to_string(), since: 1000, after: 300 }));
    assert_eq!(ping_filter(&config, &lang, &cache, "10.0.0.1"), Ok(None));
    assert_eq!(ping_filter(&config, &lang, &cache, "10.0.0.2"), Ok(Some(kick.clone())));
    assert_eq!(ip_cache(&config, &mut cache, "10.0.0.1", 1001), None);
    assert_eq!(cache.since("10.0.0.1"), Some(1000));
    cache.remove("10.0.0.1");
    assert_eq!(ping_filter(&config, &lang, &cache, "10.0.0.1"), Ok(Some(kick)));
    assert_eq!(ping_filter(&Config::default(), &lang, &cache, "10.0.0.1"), Ok(None));
}

#[test]
fn nothing_is_cached_while_the_filter_is_off() {
    let mut cache = PingCache::new();
    assert_eq!(ip_cache(&Config::default(), &mut cache, "10.0.0.1", 5), None);
    assert!(!cache.contains_ip("10.0.0.1"));
    assert_eq!(cache.len(), 0);
}

#[test]
fn caching_adds_one_entry_and_keeps_the_others() {
    let config = guarded_config();
    let mut cache = PingCache::new();
    ip_cache(&config, &mut cache, "10.0.0.1", 10);
    ip_cache(&config, &mut cache, "10.0.0.2", 10);
    let eviction = ip_cache(&config, &mut cache, "10.0.0.3", 11).unwrap();
    assert_eq!(eviction, Eviction { ip: "10.0.0.3".to_string(), since: 11, after: 300 });
    assert_eq!(cache.len(), 3);
    assert_eq!(cache.since("10.0.0.1"), Some(10));
    assert_eq!(cache.since("10.0.0.2"), Some(10));
    cache.remove(&eviction.ip);
    assert_eq!(cache.len(), 2);
    assert!(cache.contains_ip("10.0.0.1") && cache.contains_ip("10.0.0.2"));
}

#[test]
fn the_client_address_is_forwarded_after_a_bar() {
    let mut packet = Handshake {
        protocol_version: 763,
        server_address: "mc.example.org".to_string(),
        server_port: 25565,
        next_state: NextState::Login,
    };
    let mut off = Config::default();
    off.proxy.forwarder.ip_forward = false;
    ip_forward(&mut packet, &off, "10.0.0.1");
    assert_eq!(packet.server_address, "mc.example.org");
    ip_forward(&mut packet, &Config::default(), "10.0.0.1");
    assert_eq!(packet.server_address, "mc.example.org|10.0.0.1");
    assert_eq!(packet.protocol_version, 763);
    assert_eq!(packet.server_port, 25565);
    assert_eq!(packet.next_state, NextState::Login);
}

#[test]
fn the_offline_status_names_version_and_motd() {
    let lang = Lang {
        server_version_name: "Guard".to_string(),
        server_offline_motd: "Back soon".to_string(),
        ..Lang::default()
    };
    assert_eq!(
        offline_motd(&lang),
        "{\n\"version\":{\n\"name\":\"Guard\",\n\"protocol\":999\n},\n\"players\":{\n\"max\":0,\n\"online\":0,\n\"sample\":[]\n},\n\"description\":{\n\"text\":\"Back soon\"\n},\n\"favicon\":\"data:image/png;base64,\",\n\"enforcesSecureChat\":true\n}"
    );
}

#[test]
fn masking_replaces_description_and_version_name_only() {
    assert_eq!(
        mask_motd(SERVER_STATUS, "Intercepted with VigilantGuard", "VigilantGuard"),
        Some(MASKED_STATUS.to_string())
    );
    assert_eq!(mask_motd("not json", "a", "b"), None);
    assert_eq!(mask_motd("", "a", "b"), None);
    assert_eq!(mask_motd("[]", "a", "b"), None);
}

#[test]
fn masking_leaves_other_text_byte_for_byte() {
    let spaced = "{ \"description\" : \"Hi\",  \"favicon\":\"data:image/png;base64,AAAA\", \"version\": { \"name\": \"1.20\", \"protocol\": 763 } }";
    assert_eq!(
        mask_motd(spaced, "M", "V"),
        Some("{ \"description\" : {\"text\":\"M\"},  \"favicon\":\"data:image/png;base64,AAAA\", \"version\": { \"name\": \"V\", \"protocol\": 763 } }".to_string())
    );
    let without = "{\"players\":{\"max\":1,\"online\":0}}";
    assert_eq!(mask_motd(without, "M", "V"), Some(without.to_string()));
    let only_name = " {\"version\":{\"protocol\":5,\"name\":\"x\"}}";
    assert_eq!(mask_motd(only_name, "M", "V"), Some(" {\"version\":{\"protocol\":5,\"name\":\"V\"}}".to_string()));
}

#[test]
fn masking_touches_the_two_fields_and_no_text_that_looks_like_them() {
    let same_name = "{\"version\":{\"name\":\"A\",\"protocol\":1},\"players\":{\"max\":1,\"online\":1,\"sample\":[{\"name\":\"A\",\"id\":\"x\"}]},\"description\":\"d\"}";
    assert_eq!(
        mask_motd(same_name, "Intercepted with VigilantGuard", "VigilantGuard"),
        Some("{\"version\":{\"name\":\"VigilantGuard\",\"protocol\":1},\"players\":{\"max\":1,\"online\":1,\"sample\":[{\"name\":\"A\",\"id\":\"x\"}]},\"description\":{\"text\":\"Intercepted with VigilantGuard\"}}".to_string())
    );
    let spaced = "{\"version\": {\"name\": \"A\", \"protocol\": 1}, \"players\": {\"max\": 1, \"online\": 0}, \"description\": {\"text\": \"Hi\", \"bold\": true}}";
    let masked = mask_motd(spaced, "M", "V").unwrap();
    assert_eq!(
        masked,
        "{\"version\": {\"name\": \"V\", \"protocol\": 1}, \"players\": {\"max\": 1, \"online\": 0}, \"description\": {\"text\":\"M\"}}"
    );
    assert!(!masked.contains("Hi"));
    let tricky = "{\"motd\":\"\\\"description\\\":1, }{\",\"description\":[1,{\"a\":\"]\"}],\"version\":{\"x\":{\"name\":\"no\"},\"name\":null}}";
    assert_eq!(
        mask_motd(tricky, "M", "V"),
        Some("{\"motd\":\"\\\"description\\\":1, }{\",\"description\":{\"text\":\"M\"},\"version\":{\"x\":{\"name\":\"no\"},\"name\":\"V\"}}".to_string())
    );
}

#[test]
fn the_places_of_the_two_fields_are_found() {
    assert_eq!(status_spans("{\"description\":\"d\",\"version\":{\"name\":\"A\"}}"), Some((Some((15, 18)), Some((37, 40)))));
    assert_eq!(status_spans("{}"), Some((None, None)));
    assert_eq!(status_spans("  { \"version\" : 5 }"), Some((None, None)));
    assert_eq!(status_spans("{\"version\":{\"name\":12.5e3}}"), Some((None, Some((19, 25)))));
    assert_eq!(status_spans("{\"description\":tru"), Some((Some((15, 18)), None)));
    assert_eq!(status_spans("{\"description\":\"open"), Some((None, None)));
    assert_eq!(status_spans("{\"description\":{\"a\":[}"), Some((None, None)));
    assert_eq!(status_spans("[1]"), None);
    assert_eq!(status_spans(""), None);
    assert_eq!(status_spans("null"), None);
    let text: Vec<char> = "x{\"a\" : [1, 2] , \"b\":\"\u{e9}\"}".chars().collect();
    assert_eq!(find_member(&text, 1, "a"), Some((8, 14)));
    assert_eq!(find_member(&text, 1, "b"), Some((21, 24)));
    assert_eq!(find_member(&text, 1, "c"), None);
    assert_eq!(find_member(&text, 0, "a"), None);
    assert_eq!(find_member(&text, 99, "a"), None);
}

#[test]
fn the_status_passes_unchanged_when_it_is_forwarded() {
    let mut config = Config::default();
    config.proxy.forwarder.motd_forward = true;
    let lang = Lang::default();
    let cache = PingCache::new();
    let ip = "10.0.0.1".to_string();
    let env = GateEnv {
        config: &config,
        lang: &lang,
        ping_cache: &cache,
        ip: &ip,
        server_alive: true,
        blacklisted: false,
        connections: 1,
    };
    for json in [SERVER_STATUS, "not even json", "", "{ \"description\" : 1 }"] {
        let packet = QueryResponse { json: json.to_string() };
        assert_eq!(
            S2C::query_response(packet.clone(), &env),
            Ok((InterceptResult::PASSTHROUGH, packet))
        );
    }
}

#[test]
fn the_status_is_masked_when_it_is_not_forwarded() {
    let config = Config::default();
    let lang = Lang::default();
    let cache = PingCache::new();
    let ip = "10.0.0.1".to_string();
    let env = GateEnv {
        config: &config,
        lang: &lang,
        ping_cache: &cache,
        ip: &ip,
        server_alive: true,
        blacklisted: false,
        connections: 1,
    };
    assert_eq!(
        S2C::query_response(QueryResponse { json: SERVER_STATUS.to_string() }, &env),
        Ok((InterceptResult::PASSTHROUGH, QueryResponse { json: MASKED_STATUS.to_string() }))
    );
    assert_eq!(
        S2C::query_response(QueryResponse { json: "[".to_string() }, &env),
        Err(GateError::Decode(DecodeError::InvalidJson))
    );
    assert_eq!(
        S2C::query_pong(QueryPong { payload: 9 }, &env),
        (InterceptResult::PASSTHROUGH, QueryPong { payload: 9 })
    );
}

#[test]
fn client_policies() {
    let config = guarded_config();
    let lang = Lang::default();
    let mut cache = PingCache::new();
    cache.remember(1, "10.0.0.1");
    let ip = "10.0.0.1".to_string();
    let env = GateEnv {
        config: &config,
        lang: &lang,
        ping_cache: &cache,
        ip: &ip,
        server_alive: true,
        blacklisted: false,
        connections: 1,
    };
    let handshake = Handshake {
        protocol_version: 763,
        server_address: "host".to_string(),
        server_port: 1,
        next_state: NextState::Status,
    };
    let (result, forwarded) = C2S::handshake(handshake.clone(), &env);
    assert_eq!(result, InterceptResult::IGNORE);
    assert_eq!(forwarded, Handshake { server_address: "host|10.0.0.1".to_string(), ..handshake });
    assert_eq!(C2S::query_request(QueryRequest, &env), Ok((InterceptResult::PASSTHROUGH, QueryRequest)));
    assert_eq!(
        C2S::query_ping(QueryPing { payload: 3 }, &env),
        (InterceptResult::PASSTHROUGH, QueryPing { payload: 3 })
    );
    let hello = LoginHello { username: "Steve".to_string(), profile_id: None };
    assert_eq!(C2S::login_hello(hello.clone(), &env), Ok((InterceptResult::PASSTHROUGH, hello.clone())));

    let offline = GateEnv { server_alive: false, ..env };
    let status = QueryResponse { json: offline_motd(&lang) }.encode().unwrap();
    let mut frame = vec![];
    vigilant_guard::codec::put_var_int(&mut frame, status.len() as i32);
    frame.extend_from_slice(&status);
    assert_eq!(
        C2S::query_request(QueryRequest, &offline),
        Ok((InterceptResult::RETURN(Some(frame)), QueryRequest))
    );
    assert_eq!(
        C2S::login_hello(hello.clone(), &offline),
        Ok((InterceptResult::RETURN(Some(kick_frame(&lang.server_offline_kick))), hello))
    );
}

#[test]
fn login_filters_are_asked_in_order() {
    let config = guarded_config();
    let lang = Lang::default();
    let cache = PingCache::new();
    let ip = "10.0.0.1".to_string();
    let hello = LoginHello { username: "Steve".to_string(), profile_id: None };
    let all_deny = GateEnv {
        config: &config,
        lang: &lang,
        ping_cache: &cache,
        ip: &ip,
        server_alive: true,
        blacklisted: true,
        connections: 3,
    };
    let kicked = |env: &GateEnv, message: &str| {
        assert_eq!(
            C2S::login_hello(hello.clone(), env),
            Ok((InterceptResult::RETURN(Some(kick_frame(message))), hello.clone()))
        );
    };
    kicked(&all_deny, &lang.player_ip_blacklisted_kick);
    kicked(&GateEnv { blacklisted: false, ..all_deny }, &lang.player_connection_more_kick);
    kicked(&GateEnv { blacklisted: false, connections: 2, ..all_deny }, &lang.player_ping_not_cached_kick);
    kicked(&GateEnv { server_alive: false, ..all_deny }, &lang.server_offline_kick);
    let open = Config::default();
    assert_eq!(
        C2S::login_hello(hello.clone(), &GateEnv { config: &open, ..all_deny }),
        Ok((InterceptResult::PASSTHROUGH, hello.clone()))
    );
}

#[test]
fn gatekeeper_pulls_decodes_and_delivers() {
    let config = Config::default();
    let lang = Lang::default();
    let cache = PingCache::new();
    let ip = "10.0.0.1".to_string();
    let env = GateEnv {
        config: &config,
        lang: &lang,
        ping_cache: &cache,
        ip: &ip,
        server_alive: true,
        blacklisted: false,
        connections: 1,
    };
    let mut c2s = Interceptor::new(PacketDirection::C2S);
    assert_eq!(c2s.gatekeeper(PacketStage::C2sPingRequest, &env), Ok(Gate::Pending));
    let frame = vec![9, 1, 0, 0, 0, 0, 0, 0, 0, 42];
    c2s.queue_bytes(&frame[..5]);
    assert_eq!(c2s.gatekeeper(PacketStage::C2sPingRequest, &env), Ok(Gate::Pending));
    c2s.queue_bytes(&frame[5..]);
    assert_eq!(
        c2s.gatekeeper(PacketStage::C2sPingRequest, &env),
        Ok(Gate::Done {
            packet: Packet::QueryPing(QueryPing { payload: 42 }),
            delivery: Delivery::Forward(frame.clone()),
        })
    );
    assert_eq!(c2s.gatekeeper(PacketStage::C2sPingRequest, &env), Ok(Gate::Pending));
    assert_eq!(c2s.gatekeeper(PacketStage::S2cPingResponse, &env), Err(GateError::WrongDirection));

    c2s.queue_bytes(&frame);
    assert_eq!(
        c2s.gatekeeper(PacketStage::C2sQueryRequest, &env),
        Err(GateError::Decode(DecodeError::WrongPacketId))
    );
    c2s.queue_bytes(&[0xff, 0xff, 0xff, 0xff, 0xff]);
    assert_eq!(
        c2s.gatekeeper(PacketStage::C2sQueryRequest, &env),
        Err(GateError::Decode(DecodeError::VarIntTooLarge))
    );
}

#[test]
fn deliveries_follow_the_decision() {
    let pong = Packet::QueryPong(QueryPong { payload: 1 });
    let frame = vec![9, 1, 0, 0, 0, 0, 0, 0, 0, 1];
    assert_eq!(Interceptor::deliver(InterceptResult::PASSTHROUGH, &pong), Ok(Delivery::Forward(frame.clone())));
    assert_eq!(Interceptor::deliver(InterceptResult::RETURN(None), &pong), Ok(Delivery::Return(frame)));
    assert_eq!(Interceptor::deliver(InterceptResult::RETURN(Some(vec![7])), &pong), Ok(Delivery::Return(vec![7])));
    assert_eq!(Interceptor::deliver(InterceptResult::IGNORE, &pong), Ok(Delivery::Nothing));
    let huge = Packet::QueryResponse(QueryResponse { json: "x".repeat(3_000_000) });
    assert_eq!(
        Interceptor::deliver(InterceptResult::PASSTHROUGH, &huge),
        Err(GateError::Encode(vigilant_guard::codec::EncodeError::PacketTooLarge))
    );
}

#[test]
fn dispatch_asks_the_policy_of_the_packet() {
    let config = Config::default();
    let lang = Lang::default();
    let cache = PingCache::new();
    let ip = "10.0.0.1".to_string();
    let env = GateEnv {
        config: &config,
        lang: &lang,
        ping_cache: &cache,
        ip: &ip,
        server_alive: true,
        blacklisted: false,
        connections: 1,
    };
    assert_eq!(
        dispatch(Packet::QueryRequest(QueryRequest), &env),
        Ok((InterceptResult::PASSTHROUGH, Packet::QueryRequest(QueryRequest)))
    );
    assert_eq!(
        dispatch(Packet::QueryResponse(QueryResponse { json: SERVER_STATUS.to_string() }), &env),
        Ok((
            InterceptResult::PASSTHROUGH,
            Packet::QueryResponse(QueryResponse { json: MASKED_STATUS.to_string() })
        ))
    );
}
