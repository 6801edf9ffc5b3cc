//! Colours in what the proxy logs: `c(name)` in a line stands for the
//! colour of that name.

use crate::text::{replace, replace_all};
use vstd::prelude::*;
use vstd::string::StringExecFns;

verus! {

/// The names of the colours, each with the escape sequence that a terminal
/// takes for it.
pub open spec fn colors() -> Seq<(&'static str, &'static str)> {
    seq![
        ("reset", "\x1b[0m"),
        ("gray", "\x1b[1;30m"),
        ("black", "\x1b[0;30m"),
        ("on_black", "\x1b[1;30;40m"),
        ("bright_red", "\x1b[1;31m"),
        ("dark_red", "\x1b[0;31m"),
        ("on_red", "\x1b[1;31;41m"),
        ("bright_green", "\x1b[1;32m"),
        ("dark_green", "\x1b[0;32m"),
        ("on_green", "\x1b[1;32;42m"),
        ("bright_yellow", "\x1b[1;33m"),
        ("dark_yellow", "\x1b[0;33m"),
        ("on_yellow", "\x1b[1;33;43m"),
        ("bright_blue", "\x1b[1;34m"),
        ("dark_blue", "\x1b[0;34m"),
        ("on_blue", "\x1b[1;34;44m"),
        ("bright_purple", "\x1b[1;35m"),
        ("dark_purple", "\x1b[0;35m"),
        ("on_purple", "\x1b[1;35;45m"),
        ("bright_cyan", "\x1b[1;36m"),
        ("dark_cyan", "\x1b[0;36m"),
        ("on_cyan", "\x1b[1;36;46m"),
        ("bright_white", "\x1b[1;37m"),
        ("dark_white", "\x1b[0;37m"),
        ("on_white", "\x1b[1;37;47m"),
    ]
}

/// The names of the colours, each with the escape sequence that a terminal
/// takes for it.
pub fn palette() -> (palette: Vec<(&'static str, &'static str)>)
    ensures
        palette@ == colors(),
{
    let mut colors: Vec<(&'static str, &'static str)> = Vec::new();
    colors.push(("reset", "\x1b[0m"));
    colors.push(("gray", "\x1b[1;30m"));
    colors.push(("black", "\x1b[0;30m"));
    colors.push(("on_black", "\x1b[1;30;40m"));
    colors.push(("bright_red", "\x1b[1;31m"));
    colors.push(("dark_red", "\x1b[0;31m"));
    colors.push(("on_red", "\x1b[1;31;41m"));
    colors.push(("bright_green", "\x1b[1;32m"));
    colors.push(("dark_green", "\x1b[0;32m"));
    colors.push(("on_green", "\x1b[1;32;42m"));
    colors.push(("bright_yellow", "\x1b[1;33m"));
    colors.push(("dark_yellow", "\x1b[0;33m"));
    colors.push(("on_yellow", "\x1b[1;33;43m"));
    colors.push(("bright_blue", "\x1b[1;34m"));
    colors.push(("dark_blue", "\x1b[0;34m"));
    colors.push(("on_blue", "\x1b[1;34;44m"));
    colors.push(("bright_purple", "\x1b[1;35m"));
    colors.push(("dark_purple", "\x1b[0;35m"));
    colors.push(("on_purple", "\x1b[1;35;45m"));
    colors.push(("bright_cyan", "\x1b[1;36m"));
    colors.push(("dark_cyan", "\x1b[0;36m"));
    colors.push(("on_cyan", "\x1b[1;36;46m"));
    colors.push(("bright_white", "\x1b[1;37m"));
    colors.push(("dark_white", "\x1b[0;37m"));
    colors.push(("on_white", "\x1b[1;37;47m"));
    assert(colors@ =~= self::colors());
    colors
}

/// How a colour is written in a line: `c(`, its name, `)`.
pub open spec fn marker(name: Seq<char>) -> Seq<char> {
    seq!['c', '('] + name + seq![')']
}

/// `line` with the first `n` colours of `colors` painted: each marker
/// gives way to its escape sequence, or to nothing where colours are off.
pub open spec fn painted(
    line: Seq<char>,
    colors: Seq<(&'static str, &'static str)>,
    n: int,
    colorize: bool,
) -> Seq<char>
    decreases n,
{
    if n <= 0 {
        line
    } else {
        replace_all(
            painted(line, colors, n - 1, colorize),
            marker(colors[n - 1].0@),
            if colorize {
                colors[n - 1].1@
            } else {
                Seq::empty()
            },
        )
    }
}

/// `line` with the colours of `colors` painted, or taken out where
/// colours are off.
pub fn paint(line: &str, colors: &Vec<(&'static str, &'static str)>, colorize: bool) -> (r: String)
    ensures
        r@ == painted(line@, colors@, colors@.len() as int, colorize),
{
    let mut out: String = String::from_str(line);
    let mut i: usize = 0;
    while i < colors.len()
        invariant
            i <= colors@.len(),
            out@ == painted(line@, colors@, i as int, colorize),
        decreases colors@.len() - i,
    {
        let (name, code) = colors[i];
        let mut mark: String = String::from_str("c(");
        mark.append(name);
        mark.append(")");
        proof {
            reveal_strlit("c(");
            reveal_strlit(")");
            assert(mark@ =~= marker(name@));
        }
        out = replace(out.as_str(), mark.as_str(), if colorize {
            code
        } else {
            ""
        });
        proof {
            reveal_strlit("");
            assert(""@ =~= Seq::<char>::empty());
        }
        i = i + 1;
    }
    out
}

/// `line` as it is logged: with its colours painted, or without them
/// where colours are off.
pub fn colorizer(line: &str, colorize: bool) -> (r: String)
    ensures
        r@ == painted(line@, colors(), colors().len() as int, colorize),
{
    let palette = palette();
    paint(line, &palette, colorize)
}

} // verus!
