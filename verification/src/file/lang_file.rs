//! The messages that the proxy shows to players.

use crate::text::{map_char, replace_char};
use vstd::prelude::*;
use vstd::string::StringExecFns;

verus! {

/// The messages, each as the text of a chat component.
pub struct Lang {
    /// Why a login is refused that no status request came before.
    pub player_ping_not_cached_kick: String,
    /// Why a login is refused from an address with too many connections.
    pub player_connection_more_kick: String,
    /// Why a login is refused from an address with a bad reputation.
    pub player_ip_blacklisted_kick: String,
    /// The status text while the server cannot be reached.
    pub server_offline_motd: String,
    /// The version name that the status shows.
    pub server_version_name: String,
    /// Why a login is refused while the server cannot be reached.
    pub server_offline_kick: String,
    /// The status text that stands in for the server's own.
    pub server_motd: String,
}

impl Default for Lang {
    /// The messages of a proxy that was never configured.
    fn default() -> (lang: Lang)
        ensures
            lang.player_ping_not_cached_kick@ == "Please refresh the server list before you join"@,
            lang.player_connection_more_kick@ == "Too many connections from your address"@,
            lang.player_ip_blacklisted_kick@ == "Your address is blacklisted"@,
            lang.server_offline_motd@ == "The server is offline"@,
            lang.server_version_name@ == "VigilantGuard"@,
            lang.server_offline_kick@ == "The server is offline"@,
            lang.server_motd@ == "Intercepted with VigilantGuard"@,
    {
        Lang {
            player_ping_not_cached_kick: String::from_str(
                "Please refresh the server list before you join",
            ),
            player_connection_more_kick: String::from_str(
                "Too many connections from your address",
            ),
            player_ip_blacklisted_kick: String::from_str("Your address is blacklisted"),
            server_offline_motd: String::from_str("The server is offline"),
            server_version_name: String::from_str("VigilantGuard"),
            server_offline_kick: String::from_str("The server is offline"),
            server_motd: String::from_str("Intercepted with VigilantGuard"),
        }
    }
}

/// The character that marks a colour in a message as it is typed.
pub const TYPED_MARK: char = '&';

/// The character that marks a colour in a message as the game reads it.
pub const COLOR_MARK: char = '\u{a7}';

/// Text in which colours can be marked.
pub trait MinecraftText {
    /// The characters of the text.
    spec fn text(&self) -> Seq<char>;

    /// The text with each typed colour mark turned into the one that the
    /// game reads.
    fn colorize(&self) -> (r: String)
        ensures
            r@ == map_char(self.text(), TYPED_MARK, COLOR_MARK),
    ;
}

impl MinecraftText for String {
    open spec fn text(&self) -> Seq<char> {
        self@
    }

    fn colorize(&self) -> (r: String) {
        replace_char(self.as_str(), TYPED_MARK, COLOR_MARK)
    }
}

impl MinecraftText for &str {
    open spec fn text(&self) -> Seq<char> {
        self@
    }

    fn colorize(&self) -> (r: String) {
        replace_char(*self, TYPED_MARK, COLOR_MARK)
    }
}

} // verus!
