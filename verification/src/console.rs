//! The commands of the operator's console.

use crate::text::{pieces, same_text, split, texts};
use vstd::prelude::*;
use vstd::string::StringExecFns;

verus! {

/// What the operator asks for.
#[derive(Clone, Debug, PartialEq, Eq)]
pub enum Command {
    /// Stop the proxy.
    Stop,
    /// Show the addresses that are connected, and how often.
    ListConnections,
    /// Show the players.
    ListPlayers,
    /// `list` with a word that names no list.
    ListUnknown(String),
    /// `list` alone: say how it is used.
    ListHelp,
    /// Show how many bytes went through.
    UsageNetwork,
    /// `usage` with a word that names no usage.
    UsageUnknown(String),
    /// `usage` alone: say how it is used.
    UsageHelp,
    /// A word that names no command.
    Unknown(String),
    /// Nothing was typed.
    Empty,
}

/// A command as plain values.
pub enum CommandView {
    Stop,
    ListConnections,
    ListPlayers,
    ListUnknown(Seq<char>),
    ListHelp,
    UsageNetwork,
    UsageUnknown(Seq<char>),
    UsageHelp,
    Unknown(Seq<char>),
    Empty,
}

impl View for Command {
    type V = CommandView;

    open spec fn view(&self) -> CommandView {
        match self {
            Command::Stop => CommandView::Stop,
            Command::ListConnections => CommandView::ListConnections,
            Command::ListPlayers => CommandView::ListPlayers,
            Command::ListUnknown(word) => CommandView::ListUnknown(word@),
            Command::ListHelp => CommandView::ListHelp,
            Command::UsageNetwork => CommandView::UsageNetwork,
            Command::UsageUnknown(word) => CommandView::UsageUnknown(word@),
            Command::UsageHelp => CommandView::UsageHelp,
            Command::Unknown(word) => CommandView::Unknown(word@),
            Command::Empty => CommandView::Empty,
        }
    }
}

/// The command that the words say: the first word names it, the second
/// says what to list or what usage to show. Further words count for
/// nothing.
pub open spec fn command_of(words: Seq<Seq<char>>) -> CommandView {
    let name = if words.len() > 0 {
        words[0]
    } else {
        Seq::empty()
    };
    let what = if words.len() > 1 {
        words[1]
    } else {
        Seq::empty()
    };
    if name == "stop"@ || name == "exit"@ {
        CommandView::Stop
    } else if name == "list"@ {
        if what == "connection"@ || what == "conn"@ {
            CommandView::ListConnections
        } else if what == "player"@ {
            CommandView::ListPlayers
        } else if what.len() > 0 {
            CommandView::ListUnknown(what)
        } else {
            CommandView::ListHelp
        }
    } else if name == "usage"@ {
        if what == "network"@ || what == "net"@ {
            CommandView::UsageNetwork
        } else if what.len() > 0 {
            CommandView::UsageUnknown(what)
        } else {
            CommandView::UsageHelp
        }
    } else if name.len() > 0 {
        CommandView::Unknown(name)
    } else {
        CommandView::Empty
    }
}

fn is(word: &String, name: &str) -> (r: bool)
    ensures
        r == (word@ == name@),
{
    let wanted: String = String::from_str(name);
    same_text(word, &wanted)
}

/// The command that a line of the console says. The words of a line stand
/// between single spaces.
pub fn parse_command(line: &str) -> (command: Command)
    ensures
        command@ == command_of(pieces(line@, ' ')),
{
    let words: Vec<String> = split(line, ' ');
    let ghost all = pieces(line@, ' ');
    assert(words@.len() == all.len());
    let name: String = if words.len() > 0 {
        assert(texts(words@)[0] == words@[0]@);
        words[0].clone()
    } else {
        String::new()
    };
    let what: String = if words.len() > 1 {
        assert(texts(words@)[1] == words@[1]@);
        words[1].clone()
    } else {
        String::new()
    };
    if is(&name, "stop") || is(&name, "exit") {
        Command::Stop
    } else if is(&name, "list") {
        if is(&what, "connection") || is(&what, "conn") {
            Command::ListConnections
        } else if is(&what, "player") {
            Command::ListPlayers
        } else if what.as_str().unicode_len() > 0 {
            Command::ListUnknown(what)
        } else {
            Command::ListHelp
        }
    } else if is(&name, "usage") {
        if is(&what, "network") || is(&what, "net") {
            Command::UsageNetwork
        } else if what.as_str().unicode_len() > 0 {
            Command::UsageUnknown(what)
        } else {
            Command::UsageHelp
        }
    } else if name.as_str().unicode_len() > 0 {
        Command::Unknown(name)
    } else {
        Command::Empty
    }
}

} // verus!
