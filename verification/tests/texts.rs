use vigilant_guard::console::{parse_command, Command};
use vigilant_guard::file::config_file::{config_warn, Config};
use vigilant_guard::file::lang_file::{Lang, MinecraftText};
use vigilant_guard::macros::{colorizer, paint, palette};
use vigilant_guard::text::{
    from_chars, join, replace, replace_char, same_text, split, starts_at, to_chars,
};

fn chars_of(s: &str) -> Vec<char> {
    s.chars().collect()
}

#[test]
fn text_and_characters_convert_both_ways() {
    assert_eq!(to_chars("a\u{e9}\u{2603}"), vec!['a', '\u{e9}', '\u{2603}']);
    assert_eq!(from_chars(&vec!['a', '\u{e9}', '\u{2603}']), "a\u{e9}\u{2603}");
    assert_eq!(to_chars(""), Vec::<char>::new());
    assert!(same_text(&"x".to_string(), &"x".to_string()));
    assert!(!same_text(&"x".to_string(), &"y".to_string()));
}

#[test]
fn replace_goes_from_left_to_right() {
    assert_eq!(replace("a-b-c", "-", "+"), "a+b+c");
    assert_eq!(replace("aaa", "aa", "b"), "ba");
    assert_eq!(replace("abc", "abc", ""), "");
    assert_eq!(replace("abc", "x", "y"), "abc");
    assert_eq!(replace("abc", "", "y"), "abc");
    assert_eq!(replace("", "a", "b"), "");
    assert_eq!(replace("ab", "abc", "x"), "ab");
    assert_eq!(replace("xaby", "ab", "abab"), "xababy");
    assert_eq!(replace("\u{e9}t\u{e9}", "\u{e9}", "e"), "ete");
}

#[test]
fn patterns_are_found_where_they_stand() {
    let hay = chars_of("hello world");
    assert!(starts_at(&hay, 6, &chars_of("world")));
    assert!(!starts_at(&hay, 5, &chars_of("world")));
    assert!(!starts_at(&hay, 7, &chars_of("world")));
    assert!(!starts_at(&hay, 0, &chars_of("")));
    assert!(!starts_at(&hay, 50, &chars_of("h")));
}

#[test]
fn split_and_join_are_inverse() {
    assert_eq!(split("a|b|c", '|'), vec!["a", "b", "c"]);
    assert_eq!(split("", '|'), vec![""]);
    assert_eq!(split("|", '|'), vec!["", ""]);
    assert_eq!(split("a||b|", '|'), vec!["a", "", "b", ""]);
    assert_eq!(split("abc", '|'), vec!["abc"]);
    for text in ["", "a", "a|b", "|a|", "||", "1.1.1.1|2.2.2.2"] {
        assert_eq!(join(&split(text, '|'), '|'), text);
    }
    assert_eq!(join(&Vec::new(), '|'), "");
    assert_eq!(join(&vec!["x".to_string()], '|'), "x");
    assert_eq!(join(&vec!["x".to_string(), "".to_string(), "y".to_string()], ','), "x,,y");
}

#[test]
fn typed_colour_marks_become_the_games() {
    assert_eq!(replace_char("&aHello &lWorld", '&', '\u{a7}'), "\u{a7}aHello \u{a7}lWorld");
    assert_eq!("&cStop".to_string().colorize(), "\u{a7}cStop");
    assert_eq!("a && b".colorize(), "a \u{a7}\u{a7} b");
    assert_eq!("plain".colorize(), "plain");
    assert_eq!("".colorize(), "");
}

#[test]
fn console_commands() {
    assert_eq!(parse_command("stop"), Command::Stop);
    assert_eq!(parse_command("exit now please"), Command::Stop);
    assert_eq!(parse_command("list connection"), Command::ListConnections);
    assert_eq!(parse_command("list conn"), Command::ListConnections);
    assert_eq!(parse_command("list player"), Command::ListPlayers);
    assert_eq!(parse_command("list"), Command::ListHelp);
    assert_eq!(parse_command("list "), Command::ListHelp);
    assert_eq!(parse_command("list  conn"), Command::ListHelp);
    assert_eq!(parse_command("list things"), Command::ListUnknown("things".to_string()));
    assert_eq!(parse_command("usage network"), Command::UsageNetwork);
    assert_eq!(parse_command("usage net extra"), Command::UsageNetwork);
    assert_eq!(parse_command("usage"), Command::UsageHelp);
    assert_eq!(parse_command("usage cpu"), Command::UsageUnknown("cpu".to_string()));
    assert_eq!(parse_command("help"), Command::Unknown("help".to_string()));
    assert_eq!(parse_command("Stop"), Command::Unknown("Stop".to_string()));
    assert_eq!(parse_command(""), Command::Empty);
    assert_eq!(parse_command(" stop"), Command::Empty);
}

#[test]
fn default_settings() {
    let config = Config::default();
    assert!(config.colorize);
    assert_eq!(config.proxy.ip, "0.0.0.0");
    assert_eq!(config.proxy.port, 25565);
    assert!(config.proxy.forwarder.ip_forward);
    assert!(!config.proxy.forwarder.ping_forward);
    assert!(!config.proxy.forwarder.motd_forward);
    assert_eq!(config.server.ip, "127.0.0.1");
    assert_eq!(config.server.port, 25567);
    assert!(!config.guardian.ping_protection.active);
    assert_eq!(config.guardian.ping_protection.reset_interval, 300);
    assert!(!config.guardian.ip_connection_limit.active);
    assert_eq!(config.guardian.ip_connection_limit.limit, 3);
    assert!(!config.guardian.vpn_filter.active);
    let lang = Lang::default();
    assert_eq!(lang.server_version_name, "VigilantGuard");
    assert_eq!(lang.server_motd, "Intercepted with VigilantGuard");
    assert!(!lang.player_ip_blacklisted_kick.is_empty());
    assert!(!lang.player_connection_more_kick.is_empty());
    assert!(!lang.player_ping_not_cached_kick.is_empty());
    assert!(!lang.server_offline_kick.is_empty());
    assert!(!lang.server_offline_motd.is_empty());
}

#[test]
fn the_operator_is_warned_when_addresses_are_not_forwarded() {
    let mut config = Config::default();
    assert_eq!(config_warn(&config), Vec::<&str>::new());
    config.proxy.forwarder.ip_forward = false;
    assert_eq!(
        config_warn(&config),
        vec!["PLEASE TURN ON IP FORWARD!!!", "UNLESS YOU KNOW WHAT YOU'RE DOING!"]
    );
}

#[test]
fn colours_are_painted_or_taken_out() {
    assert_eq!(
        colorizer("c(on_red) Guard c(reset) up", true),
        "\x1b[1;31;41m Guard \x1b[0m up"
    );
    assert_eq!(colorizer("c(on_red) Guard c(reset) up", false), " Guard  up");
    assert_eq!(colorizer("[/c(dark_blue)1.2.3.4c(reset)] Open", true), "[/\x1b[0;34m1.2.3.4\x1b[0m] Open");
    assert_eq!(colorizer("c(nothing) c()", true), "c(nothing) c()");
    assert_eq!(colorizer("", true), "");
    assert_eq!(palette().len(), 25);
    assert_eq!(palette()[0], ("reset", "\x1b[0m"));
    assert_eq!(palette()[24], ("on_white", "\x1b[1;37;47m"));
    assert_eq!(paint("c(a)c(b)", &vec![("a", "c(b)"), ("b", "!")], true), "!!");
    assert_eq!(paint("c(a)c(b)", &vec![("a", "c(b)"), ("b", "!")], false), "");
}
