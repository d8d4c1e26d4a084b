//! The two textual interfaces of the program: the token that a client sends
//! to toggle the menu, and the command-line argument that picks the mode.

use crate::text::{split_whitespace, str_eq, strings_view, words_spec};
use vstd::prelude::*;

verus! {

/// Exit status of a toggle client that could not reach the daemon.
pub const EXIT_TOGGLE_FAILED: i32 = 1;

/// Exit status after a usage error.
pub const EXIT_USAGE: i32 = 2;

/// Whether `line` is a toggle request: it holds the token `TOGGLE` and, apart
/// from white space around it, nothing else.
pub open spec fn is_toggle_request_spec(line: Seq<char>) -> bool {
    words_spec(line) == seq!["TOGGLE"@]
}

/// Whether a line read from the toggle channel asks to toggle the menu.
pub fn is_toggle_request(line: &str) -> (r: bool)
    ensures
        r == is_toggle_request_spec(line@),
{
    let words = split_whitespace(line);
    assert(strings_view(words@).len() == words@.len());
    if words.len() != 1 {
        return false;
    }
    assert(strings_view(words@)[0] == words@[0]@);
    let r = str_eq(words[0].as_str(), "TOGGLE");
    assert(r ==> words_spec(line@) =~= seq!["TOGGLE"@]);
    r
}

/// What the program was started to do.
#[derive(Clone, Copy, Debug, PartialEq, Eq, Structural)]
pub enum Mode {
    /// Bind the toggle channel and run the overlay.
    Daemon,
    /// Send one toggle request to a running daemon.
    Toggle,
}

/// The mode that the first command-line argument selects. No argument means
/// `Toggle`; an argument that names no mode selects none.
pub open spec fn mode_spec(argument: Option<Seq<char>>) -> Option<Mode> {
    match argument {
        None => Some(Mode::Toggle),
        Some(name) => if name == "daemon"@ {
            Some(Mode::Daemon)
        } else if name == "toggle"@ {
            Some(Mode::Toggle)
        } else {
            None
        },
    }
}

/// The model of an optional string.
pub open spec fn str_option_view(s: Option<&str>) -> Option<Seq<char>> {
    match s {
        Some(s) => Some(s@),
        None => None,
    }
}

/// Reads the mode off the first command-line argument. `None` is a usage
/// error.
pub fn parse_mode(argument: Option<&str>) -> (mode: Option<Mode>)
    ensures
        mode == mode_spec(str_option_view(argument)),
{
    match argument {
        None => Some(Mode::Toggle),
        Some(name) => {
            if str_eq(name, "daemon") {
                Some(Mode::Daemon)
            } else if str_eq(name, "toggle") {
                Some(Mode::Toggle)
            } else {
                None
            }
        },
    }
}

} // verus!
