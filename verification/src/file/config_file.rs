//! The settings of the proxy.

use vstd::prelude::*;
use vstd::string::StringExecFns;

verus! {

/// All the settings.
pub struct Config {
    /// Whether what is logged carries colours.
    pub colorize: bool,
    pub proxy: ProxyConfig,
    pub server: ServerConfig,
    pub guardian: GuardianConfig,
}

/// Where the proxy listens, and what it passes on.
pub struct ProxyConfig {
    pub ip: String,
    pub port: u16,
    pub forwarder: ProxyForwarder,
}

/// What the proxy passes on as it is.
pub struct ProxyForwarder {
    /// Whether the server is told the client's address.
    pub ip_forward: bool,
    pub ping_forward: bool,
    /// Whether the server's own status text reaches the client.
    pub motd_forward: bool,
}

/// Where the server listens.
pub struct ServerConfig {
    pub ip: String,
    pub port: u16,
}

/// The filters that guard the login.
pub struct GuardianConfig {
    pub ping_protection: PingProtection,
    pub ip_connection_limit: IPLimiter,
    pub vpn_filter: VPNFilter,
}

/// Refuses a login from an address that did not ask for the status first.
pub struct PingProtection {
    pub active: bool,
    /// The seconds after which an address that asked is forgotten.
    pub reset_interval: u64,
}

/// Refuses a login from an address that has too many connections open.
pub struct IPLimiter {
    pub active: bool,
    pub limit: usize,
}

/// Refuses a login from an address with a bad reputation.
pub struct VPNFilter {
    pub active: bool,
}

impl Default for Config {
    /// The settings of a proxy that was never configured.
    fn default() -> (config: Config)
        ensures
            config.colorize,
            config.proxy.ip@ == "0.0.0.0"@,
            config.proxy.port == 25565,
            config.proxy.forwarder.ip_forward,
            !config.proxy.forwarder.ping_forward,
            !config.proxy.forwarder.motd_forward,
            config.server.ip@ == "127.0.0.1"@,
            config.server.port == 25567,
            !config.guardian.ping_protection.active,
            config.guardian.ping_protection.reset_interval == 300,
            !config.guardian.ip_connection_limit.active,
            config.guardian.ip_connection_limit.limit == 3,
            !config.guardian.vpn_filter.active,
    {
        Config {
            colorize: true,
            proxy: ProxyConfig {
                ip: String::from_str("0.0.0.0"),
                port: 25565,
                forwarder: ProxyForwarder {
                    ip_forward: true,
                    ping_forward: false,
                    motd_forward: false,
                },
            },
            server: ServerConfig { ip: String::from_str("127.0.0.1"), port: 25567 },
            guardian: GuardianConfig {
                ping_protection: PingProtection { active: false, reset_interval: 300 },
                ip_connection_limit: IPLimiter { active: false, limit: 3 },
                vpn_filter: VPNFilter { active: false },
            },
        }
    }
}

/// What an operator is warned of at the start: a proxy that does not tell
/// the server the client's address.
pub fn config_warn(config: &Config) -> (warnings: Vec<&'static str>)
    ensures
        config.proxy.forwarder.ip_forward ==> warnings@.len() == 0,
        !config.proxy.forwarder.ip_forward ==> warnings@.len() == 2 && warnings@[0]@
            == "PLEASE TURN ON IP FORWARD!!!"@ && warnings@[1]@
            == "UNLESS YOU KNOW WHAT YOU'RE DOING!"@,
{
    let mut warnings: Vec<&'static str> = Vec::new();
    if !config.proxy.forwarder.ip_forward {
        warnings.push("PLEASE TURN ON IP FORWARD!!!");
        warnings.push("UNLESS YOU KNOW WHAT YOU'RE DOING!");
    }
    warnings
}

} // verus!
