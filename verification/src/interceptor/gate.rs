//! The policies: what the proxy does with each packet that it reads, and
//! the filters that guard the login.

use crate::codec::{DecodeError, EncodeError, MAX_PACKET_SIZE};
use crate::decoder::frame_bytes;
use crate::encoder::encode_frame;
use crate::file::config_file::Config;
use crate::file::lang_file::Lang;
use crate::interceptor::interceptor::{GateError, InterceptResult};
use crate::json::{chat_component, chat_text, mask_motd, masked_status};
use crate::packet::c2s::{Handshake, HandshakeView, LoginHello, QueryPing, QueryRequest};
use crate::packet::s2c::{Disconnect, QueryPong, QueryResponse};
use crate::ping_cache::{has_ip, remembered, PingCache};
use crate::text::push_char;
use vstd::prelude::*;
use vstd::string::StringExecFns;

verus! {

/// What a policy knows of the connection and of the proxy.
pub struct GateEnv<'a> {
    pub config: &'a Config,
    pub lang: &'a Lang,
    /// The addresses that asked for the status a short while ago.
    pub ping_cache: &'a PingCache,
    /// The client's address.
    pub ip: &'a String,
    /// Whether the server can be reached.
    pub server_alive: bool,
    /// Whether the client's address has a bad reputation.
    pub blacklisted: bool,
    /// The connections that the client's address has open.
    pub connections: usize,
}

/// The frame that refuses a login for `reason`, unless it is too long for a
/// frame.
pub open spec fn kick(reason: Seq<char>) -> Result<Seq<u8>, EncodeError> {
    let content = Disconnect::spec_content(chat_component(reason));
    if content.len() <= MAX_PACKET_SIZE {
        Ok(frame_bytes(content))
    } else {
        Err(EncodeError::PacketTooLarge)
    }
}

/// What a filter gives: nothing where it lets the login pass, and the frame
/// that refuses it for `reason` where it denies.
pub open spec fn filtered(deny: bool, reason: Seq<char>) -> Result<Option<Seq<u8>>, EncodeError> {
    if deny {
        match kick(reason) {
            Ok(frame) => Ok(Some(frame)),
            Err(e) => Err(e),
        }
    } else {
        Ok(None)
    }
}

/// Whether what a filter returned is what it should give.
pub open spec fn gives(
    r: Result<Option<Vec<u8>>, EncodeError>,
    want: Result<Option<Seq<u8>>, EncodeError>,
) -> bool {
    match want {
        Ok(Some(frame)) => r matches Ok(Some(bytes)) && bytes@ == frame,
        Ok(None) => r matches Ok(None),
        Err(e) => r matches Err(f) && f == e,
    }
}

/// The frame that refuses a login for `reason`.
pub fn reject(reason: &str) -> (r: Result<Vec<u8>, EncodeError>)
    ensures
        match kick(reason@) {
            Ok(frame) => r matches Ok(bytes) && bytes@ == frame,
            Err(e) => r matches Err(f) && f == e,
        },
{
    let packet: Disconnect = Disconnect { reason: chat_text(reason) };
    match packet.encode() {
        Ok(content) => encode_frame(content.as_slice()),
        Err(e) => Err(e),
    }
}

fn filter(deny: bool, reason: &str) -> (r: Result<Option<Vec<u8>>, EncodeError>)
    ensures
        gives(r, filtered(deny, reason@)),
{
    if deny {
        match reject(reason) {
            Ok(frame) => Ok(Some(frame)),
            Err(e) => Err(e),
        }
    } else {
        Ok(None)
    }
}

/// Denies an address with a bad reputation, where the filter is on.
pub fn vpn_filter(config: &Config, lang: &Lang, blacklisted: bool) -> (r: Result<
    Option<Vec<u8>>,
    EncodeError,
>)
    ensures
        gives(
            r,
            filtered(
                config.guardian.vpn_filter.active && blacklisted,
                lang.player_ip_blacklisted_kick@,
            ),
        ),
{
    filter(config.guardian.vpn_filter.active && blacklisted, lang.player_ip_blacklisted_kick.as_str())
}

/// Denies an address that has as many connections open as the limit
/// allows, or more, where the filter is on.
pub fn concurrency_filter(config: &Config, lang: &Lang, connections: usize) -> (r: Result<
    Option<Vec<u8>>,
    EncodeError,
>)
    ensures
        gives(
            r,
            filtered(
                config.guardian.ip_connection_limit.active && connections
                    >= config.guardian.ip_connection_limit.limit,
                lang.player_connection_more_kick@,
            ),
        ),
{
    filter(
        config.guardian.ip_connection_limit.active && connections
            >= config.guardian.ip_connection_limit.limit,
        lang.player_connection_more_kick.as_str(),
    )
}

/// Denies an address that did not ask for the status a short while ago,
/// where the filter is on.
pub fn ping_filter(config: &Config, lang: &Lang, cache: &PingCache, ip: &str) -> (r: Result<
    Option<Vec<u8>>,
    EncodeError,
>)
    ensures
        gives(
            r,
            filtered(
                config.guardian.ping_protection.active && !has_ip(cache@, ip@),
                lang.player_ping_not_cached_kick@,
            ),
        ),
{
    let deny: bool = config.guardian.ping_protection.active && !cache.contains_ip(ip);
    filter(deny, lang.player_ping_not_cached_kick.as_str())
}

/// When an address that was cached is to be forgotten.
#[derive(Clone, Debug, PartialEq, Eq)]
pub struct Eviction {
    /// The address to evict.
    pub ip: String,
    /// The time at which it was cached.
    pub since: i64,
    /// The seconds to wait before it is evicted.
    pub after: u64,
}

/// The cache after an address asked for the status at `timestamp`: while
/// the ping filter is on the address is cached, unless it is cached
/// already; while it is off the cache stays as it is.
pub open spec fn cached_at(
    config: &Config,
    cache: Map<Seq<char>, i64>,
    ip: Seq<char>,
    timestamp: i64,
) -> Map<Seq<char>, i64> {
    if config.guardian.ping_protection.active {
        remembered(cache, timestamp, ip)
    } else {
        cache
    }
}

/// Notes that `ip` asked for the status at `timestamp`, where the ping
/// filter is on, and says when to forget it again: after the interval of
/// the settings. An address that is cached already is left as it is, and
/// nothing is to be scheduled for it.
pub fn ip_cache(config: &Config, cache: &mut PingCache, ip: &str, timestamp: i64) -> (r: Option<
    Eviction,
>)
    ensures
        final(cache)@ == cached_at(config, old(cache)@, ip@, timestamp),
        r is Some <==> config.guardian.ping_protection.active && !has_ip(old(cache)@, ip@),
        r matches Some(eviction) ==> eviction.ip@ == ip@ && eviction.since == timestamp
            && eviction.after == config.guardian.ping_protection.reset_interval,
{
    if config.guardian.ping_protection.active {
        if cache.remember(timestamp, ip) {
            return Some(
                Eviction {
                    ip: ip.to_owned(),
                    since: timestamp,
                    after: config.guardian.ping_protection.reset_interval,
                },
            );
        }
    }
    None
}

/// The handshake as the server gets it: where the settings ask for it, the
/// client's address stands after the address that the client asked for,
/// with `|` between the two.
pub open spec fn forwarded(v: HandshakeView, ip_forward: bool, ip: Seq<char>) -> HandshakeView {
    if ip_forward {
        HandshakeView {
            protocol_version: v.protocol_version,
            server_address: v.server_address.push('|') + ip,
            server_port: v.server_port,
            next_state: v.next_state,
        }
    } else {
        v
    }
}

/// Tells the server the client's address, where the settings ask for it.
pub fn ip_forward(packet: &mut Handshake, config: &Config, ip: &str)
    ensures
        final(packet)@ == forwarded(old(packet)@, config.proxy.forwarder.ip_forward, ip@),
{
    if config.proxy.forwarder.ip_forward {
        push_char(&mut packet.server_address, '|');
        packet.server_address.append(ip);
    }
}

/// The status that the proxy shows while the server cannot be reached.
pub open spec fn offline_status(version_name: Seq<char>, motd: Seq<char>) -> Seq<char> {
    "{\n\"version\":{\n\"name\":\""@ + version_name
        + "\",\n\"protocol\":999\n},\n\"players\":{\n\"max\":0,\n\"online\":0,\n\"sample\":[]\n},\n\"description\":{\n\"text\":\""@
        + motd
        + "\"\n},\n\"favicon\":\"data:image/png;base64,\",\n\"enforcesSecureChat\":true\n}"@
}

/// The status that the proxy shows while the server cannot be reached.
pub fn offline_motd(lang: &Lang) -> (json: String)
    ensures
        json@ == offline_status(lang.server_version_name@, lang.server_offline_motd@),
{
    let mut json: String = String::from_str("{\n\"version\":{\n\"name\":\"");
    json.append(lang.server_version_name.as_str());
    json.append(
        "\",\n\"protocol\":999\n},\n\"players\":{\n\"max\":0,\n\"online\":0,\n\"sample\":[]\n},\n\"description\":{\n\"text\":\"",
    );
    json.append(lang.server_offline_motd.as_str());
    json.append(
        "\"\n},\n\"favicon\":\"data:image/png;base64,\",\n\"enforcesSecureChat\":true\n}",
    );
    json
}

/// The frame that answers a status request while the server cannot be
/// reached, unless it is too long for a frame.
pub open spec fn offline_answer(lang: &Lang) -> Result<Seq<u8>, EncodeError> {
    let content = QueryResponse::spec_content(
        offline_status(lang.server_version_name@, lang.server_offline_motd@),
    );
    if content.len() <= MAX_PACKET_SIZE {
        Ok(frame_bytes(content))
    } else {
        Err(EncodeError::PacketTooLarge)
    }
}

/// Why a login is refused, where it is: the server cannot be reached, or
/// one of the filters denies. The filters are asked in a fixed order:
/// reputation, open connections, status request.
pub open spec fn login_kick(env: &GateEnv) -> Option<Seq<char>> {
    if !env.server_alive {
        Some(env.lang.server_offline_kick@)
    } else if env.config.guardian.vpn_filter.active && env.blacklisted {
        Some(env.lang.player_ip_blacklisted_kick@)
    } else if env.config.guardian.ip_connection_limit.active && env.connections
        >= env.config.guardian.ip_connection_limit.limit {
        Some(env.lang.player_connection_more_kick@)
    } else if env.config.guardian.ping_protection.active && !has_ip(env.ping_cache@, env.ip@) {
        Some(env.lang.player_ping_not_cached_kick@)
    } else {
        None
    }
}

/// What becomes of a login request: it passes, or the client gets the
/// frame that refuses it.
pub open spec fn login_answer(env: &GateEnv) -> Result<Option<Seq<u8>>, EncodeError> {
    match login_kick(env) {
        Some(reason) => filtered(true, reason),
        None => Ok(None),
    }
}

/// The policies on what the client sends.
pub struct C2S;

impl C2S {
    /// The handshake is held back: it has no effect on the wire until the
    /// next packet shows whether the server is to see the connection. The
    /// packet that comes back is the one to forward then.
    pub fn handshake(packet: Handshake, env: &GateEnv) -> (r: (InterceptResult, Handshake))
        ensures
            r.0 is IGNORE,
            r.1@ == forwarded(packet@, env.config.proxy.forwarder.ip_forward, env.ip@),
    {
        let mut packet = packet;
        ip_forward(&mut packet, env.config, env.ip.as_str());
        (InterceptResult::IGNORE, packet)
    }

    /// A status request passes to the server. While the server cannot be
    /// reached, the proxy answers in its place.
    pub fn query_request(packet: QueryRequest, env: &GateEnv) -> (r: Result<
        (InterceptResult, QueryRequest),
        GateError,
    >)
        ensures
            env.server_alive ==> (r matches Ok(pair) && pair.0 is PASSTHROUGH),
            !env.server_alive ==> (match offline_answer(env.lang) {
                Ok(frame) => r matches Ok(pair) && (pair.0 matches InterceptResult::RETURN(
                    Some(bytes),
                ) && bytes@ == frame),
                Err(e) => r matches Err(GateError::Encode(f)) && f == e,
            }),
    {
        if !env.server_alive {
            let motd: QueryResponse = QueryResponse { json: offline_motd(env.lang) };
            let content: Vec<u8> = match motd.encode() {
                Ok(content) => content,
                Err(e) => {
                    return Err(GateError::Encode(e));
                },
            };
            return match encode_frame(content.as_slice()) {
                Ok(frame) => Ok((InterceptResult::RETURN(Some(frame)), packet)),
                Err(e) => Err(GateError::Encode(e)),
            };
        }
        Ok((InterceptResult::PASSTHROUGH, packet))
    }

    /// A ping passes to the server as it is.
    pub fn query_ping(packet: QueryPing, env: &GateEnv) -> (r: (InterceptResult, QueryPing))
        ensures
            r.0 is PASSTHROUGH,
            r.1 == packet,
    {
        (InterceptResult::PASSTHROUGH, packet)
    }

    /// A login request passes to the server unless the server cannot be
    /// reached or a filter denies: then the client gets the frame that
    /// refuses it, and the server sees nothing.
    pub fn login_hello(packet: LoginHello, env: &GateEnv) -> (r: Result<
        (InterceptResult, LoginHello),
        GateError,
    >)
        ensures
            match login_answer(env) {
                Ok(None) => r matches Ok(pair) && pair.0 is PASSTHROUGH && pair.1@ == packet@,
                Ok(Some(frame)) => r matches Ok(pair) && (pair.0 matches InterceptResult::RETURN(
                    Some(bytes),
                ) && bytes@ == frame) && pair.1@ == packet@,
                Err(e) => r matches Err(GateError::Encode(f)) && f == e,
            },
    {
        if !env.server_alive {
            return match reject(env.lang.server_offline_kick.as_str()) {
                Ok(frame) => Ok((InterceptResult::RETURN(Some(frame)), packet)),
                Err(e) => Err(GateError::Encode(e)),
            };
        }
        match vpn_filter(env.config, env.lang, env.blacklisted) {
            Ok(Some(frame)) => {
                return Ok((InterceptResult::RETURN(Some(frame)), packet));
            },
            Ok(None) => {},
            Err(e) => {
                return Err(GateError::Encode(e));
            },
        }
        match concurrency_filter(env.config, env.lang, env.connections) {
            Ok(Some(frame)) => {
                return Ok((InterceptResult::RETURN(Some(frame)), packet));
            },
            Ok(None) => {},
            Err(e) => {
                return Err(GateError::Encode(e));
            },
        }
        match ping_filter(env.config, env.lang, env.ping_cache, env.ip.as_str()) {
            Ok(Some(frame)) => {
                return Ok((InterceptResult::RETURN(Some(frame)), packet));
            },
            Ok(None) => {},
            Err(e) => {
                return Err(GateError::Encode(e));
            },
        }
        Ok((InterceptResult::PASSTHROUGH, packet))
    }
}

/// The status as the client gets it: the server's own where the settings
/// pass it on, and else the server's with the proxy's texts in the place of
/// the description and of the version name.
pub open spec fn shown_status(json: Seq<char>, env: &GateEnv) -> Option<Seq<char>> {
    if env.config.proxy.forwarder.motd_forward {
        Some(json)
    } else {
        masked_status(json, env.lang.server_motd@, env.lang.server_version_name@)
    }
}

/// The policies on what the server sends.
pub struct S2C;

impl S2C {
    /// The status passes to the client, masked unless the settings pass the
    /// server's own on. A status that is no JSON document cannot be masked,
    /// and is refused.
    pub fn query_response(packet: QueryResponse, env: &GateEnv) -> (r: Result<
        (InterceptResult, QueryResponse),
        GateError,
    >)
        ensures
            match shown_status(packet@, env) {
                Some(json) => r matches Ok(pair) && pair.0 is PASSTHROUGH && pair.1@ == json,
                None => r matches Err(GateError::Decode(DecodeError::InvalidJson)),
            },
    {
        if env.config.proxy.forwarder.motd_forward {
            return Ok((InterceptResult::PASSTHROUGH, packet));
        }
        match mask_motd(
            packet.json.as_str(),
            env.lang.server_motd.as_str(),
            env.lang.server_version_name.as_str(),
        ) {
            Some(json) => Ok((InterceptResult::PASSTHROUGH, QueryResponse { json })),
            None => Err(GateError::Decode(DecodeError::InvalidJson)),
        }
    }

    /// The answer to a ping passes to the client as it is.
    pub fn query_pong(packet: QueryPong, env: &GateEnv) -> (r: (InterceptResult, QueryPong))
        ensures
            r.0 is PASSTHROUGH,
            r.1 == packet,
    {
        (InterceptResult::PASSTHROUGH, packet)
    }
}

} // verus!
