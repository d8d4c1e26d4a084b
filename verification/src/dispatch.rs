//! Dispatch: what the executors have to do for an action's command.
//!
//! A command that begins with `key-` is a sequence of key chords for the
//! synthetic-keyboard executor: chords are separated by white space, and the
//! key names within a chord by `-`, modifiers first and the main key last. Any
//! other command is a list of words for the compositor-control executor. A
//! command that begins with `screenshot` is fired after a short delay, so that
//! the overlay is gone before the screen is captured.
//!
//! Nothing here runs a command. The functions of this module turn a command
//! into a [`Dispatch`] that says what to run; running it, and swallowing any
//! failure, is the host's part.

use crate::text::{
    lemma_split_rejoins,
    split,
    split_spec,
    split_whitespace,
    starts_with,
    str_eq,
    strings_view,
    words_spec,
};
use vstd::prelude::*;

verus! {

/// Delay before a screenshot command is fired, in milliseconds.
pub const SCREENSHOT_DELAY_MS: u64 = 80;

/// Pause after each chord of a key sequence, in milliseconds.
pub const CHORD_SPACING_MS: u64 = 20;

/// The evdev key code of the key named `token`, if the name is known.
pub open spec fn key_code(token: Seq<char>) -> Option<u16> {
    if token == "ctrl"@ {
        Some(29u16)
    } else if token == "shift"@ {
        Some(42u16)
    } else if token == "alt"@ {
        Some(56u16)
    } else if token == "meta"@ {
        Some(125u16)
    } else if token == "super"@ {
        Some(125u16)
    } else if token == "1"@ {
        Some(2u16)
    } else if token == "2"@ {
        Some(3u16)
    } else if token == "3"@ {
        Some(4u16)
    } else if token == "4"@ {
        Some(5u16)
    } else if token == "5"@ {
        Some(6u16)
    } else if token == "6"@ {
        Some(7u16)
    } else if token == "7"@ {
        Some(8u16)
    } else if token == "8"@ {
        Some(9u16)
    } else if token == "9"@ {
        Some(10u16)
    } else if token == "0"@ {
        Some(11u16)
    } else if token == "f1"@ {
        Some(59u16)
    } else if token == "f2"@ {
        Some(60u16)
    } else if token == "f3"@ {
        Some(61u16)
    } else if token == "f4"@ {
        Some(62u16)
    } else if token == "f5"@ {
        Some(63u16)
    } else if token == "f6"@ {
        Some(64u16)
    } else if token == "f7"@ {
        Some(65u16)
    } else if token == "f8"@ {
        Some(66u16)
    } else if token == "f9"@ {
        Some(67u16)
    } else if token == "f10"@ {
        Some(68u16)
    } else if token == "f11"@ {
        Some(87u16)
    } else if token == "f12"@ {
        Some(88u16)
    } else if token == "a"@ {
        Some(30u16)
    } else if token == "b"@ {
        Some(48u16)
    } else if token == "c"@ {
        Some(46u16)
    } else if token == "d"@ {
        Some(32u16)
    } else if token == "e"@ {
        Some(18u16)
    } else if token == "f"@ {
        Some(33u16)
    } else if token == "g"@ {
        Some(34u16)
    } else if token == "h"@ {
        Some(35u16)
    } else if token == "i"@ {
        Some(23u16)
    } else if token == "j"@ {
        Some(36u16)
    } else if token == "k"@ {
        Some(37u16)
    } else if token == "l"@ {
        Some(38u16)
    } else if token == "m"@ {
        Some(50u16)
    } else if token == "n"@ {
        Some(49u16)
    } else if token == "o"@ {
        Some(24u16)
    } else if token == "p"@ {
        Some(25u16)
    } else if token == "q"@ {
        Some(16u16)
    } else if token == "r"@ {
        Some(19u16)
    } else if token == "s"@ {
        Some(31u16)
    } else if token == "t"@ {
        Some(20u16)
    } else if token == "u"@ {
        Some(22u16)
    } else if token == "v"@ {
        Some(47u16)
    } else if token == "w"@ {
        Some(17u16)
    } else if token == "x"@ {
        Some(45u16)
    } else if token == "y"@ {
        Some(21u16)
    } else if token == "z"@ {
        Some(44u16)
    } else if token == "minus"@ {
        Some(12u16)
    } else if token == "equal"@ {
        Some(13u16)
    } else if token == "plus"@ {
        Some(13u16)
    } else if token == "delete"@ {
        Some(14u16)
    } else if token == "backspace"@ {
        Some(14u16)
    } else if token == "pageup"@ {
        Some(104u16)
    } else if token == "pagedown"@ {
        Some(109u16)
    } else {
        None
    }
}

/// Looks up the evdev key code of the key named `token`.
pub fn key_token_to_evdev(token: &str) -> (code: Option<u16>)
    ensures
        code == key_code(token@),
{
    if str_eq(token, "ctrl") {
        Some(29)
    } else if str_eq(token, "shift") {
        Some(42)
    } else if str_eq(token, "alt") {
        Some(56)
    } else if str_eq(token, "meta") {
        Some(125)
    } else if str_eq(token, "super") {
        Some(125)
    } else if str_eq(token, "1") {
        Some(2)
    } else if str_eq(token, "2") {
        Some(3)
    } else if str_eq(token, "3") {
        Some(4)
    } else if str_eq(token, "4") {
        Some(5)
    } else if str_eq(token, "5") {
        Some(6)
    } else if str_eq(token, "6") {
        Some(7)
    } else if str_eq(token, "7") {
        Some(8)
    } else if str_eq(token, "8") {
        Some(9)
    } else if str_eq(token, "9") {
        Some(10)
    } else if str_eq(token, "0") {
        Some(11)
    } else if str_eq(token, "f1") {
        Some(59)
    } else if str_eq(token, "f2") {
        Some(60)
    } else if str_eq(token, "f3") {
        Some(61)
    } else if str_eq(token, "f4") {
        Some(62)
    } else if str_eq(token, "f5") {
        Some(63)
    } else if str_eq(token, "f6") {
        Some(64)
    } else if str_eq(token, "f7") {
        Some(65)
    } else if str_eq(token, "f8") {
        Some(66)
    } else if str_eq(token, "f9") {
        Some(67)
    } else if str_eq(token, "f10") {
        Some(68)
    } else if str_eq(token, "f11") {
        Some(87)
    } else if str_eq(token, "f12") {
        Some(88)
    } else if str_eq(token, "a") {
        Some(30)
    } else if str_eq(token, "b") {
        Some(48)
    } else if str_eq(token, "c") {
        Some(46)
    } else if str_eq(token, "d") {
        Some(32)
    } else if str_eq(token, "e") {
        Some(18)
    } else if str_eq(token, "f") {
        Some(33)
    } else if str_eq(token, "g") {
        Some(34)
    } else if str_eq(token, "h") {
        Some(35)
    } else if str_eq(token, "i") {
        Some(23)
    } else if str_eq(token, "j") {
        Some(36)
    } else if str_eq(token, "k") {
        Some(37)
    } else if str_eq(token, "l") {
        Some(38)
    } else if str_eq(token, "m") {
        Some(50)
    } else if str_eq(token, "n") {
        Some(49)
    } else if str_eq(token, "o") {
        Some(24)
    } else if str_eq(token, "p") {
        Some(25)
    } else if str_eq(token, "q") {
        Some(16)
    } else if str_eq(token, "r") {
        Some(19)
    } else if str_eq(token, "s") {
        Some(31)
    } else if str_eq(token, "t") {
        Some(20)
    } else if str_eq(token, "u") {
        Some(22)
    } else if str_eq(token, "v") {
        Some(47)
    } else if str_eq(token, "w") {
        Some(17)
    } else if str_eq(token, "x") {
        Some(45)
    } else if str_eq(token, "y") {
        Some(21)
    } else if str_eq(token, "z") {
        Some(44)
    } else if str_eq(token, "minus") {
        Some(12)
    } else if str_eq(token, "equal") {
        Some(13)
    } else if str_eq(token, "plus") {
        Some(13)
    } else if str_eq(token, "delete") {
        Some(14)
    } else if str_eq(token, "backspace") {
        Some(14)
    } else if str_eq(token, "pageup") {
        Some(104)
    } else if str_eq(token, "pagedown") {
        Some(109)
    } else {
        None
    }
}

/// A key chord: modifier keys and one main key, as evdev key codes.
#[derive(Clone, Debug, PartialEq, Eq)]
pub struct Chord {
    /// The modifiers, in the order in which they are pressed.
    pub modifiers: Vec<u16>,
    pub main: u16,
}

/// Mathematical model of a [`Chord`].
pub struct ChordView {
    pub modifiers: Seq<u16>,
    pub main: u16,
}

impl View for Chord {
    type V = ChordView;

    open spec fn view(&self) -> ChordView {
        ChordView { modifiers: self.modifiers@, main: self.main }
    }
}

/// The model of an optional chord.
pub open spec fn chord_option_view(chord: Option<Chord>) -> Option<ChordView> {
    match chord {
        Some(c) => Some(c@),
        None => None,
    }
}

/// The models of a sequence of optional chords.
pub open spec fn chords_view(chords: Seq<Option<Chord>>) -> Seq<Option<ChordView>> {
    chords.map_values(|c: Option<Chord>| chord_option_view(c))
}

/// One key going down or up.
#[derive(Clone, Copy, Debug, PartialEq, Eq, Structural)]
pub struct KeyEvent {
    pub code: u16,
    pub pressed: bool,
}

/// The key events that press a chord: every modifier down in order, the main
/// key down and up, every modifier up in reverse order.
pub open spec fn key_events_spec(chord: ChordView) -> Seq<KeyEvent> {
    chord.modifiers.map_values(|code: u16| KeyEvent { code, pressed: true }) + seq![
        KeyEvent { code: chord.main, pressed: true },
        KeyEvent { code: chord.main, pressed: false },
    ] + chord.modifiers.reverse().map_values(|code: u16| KeyEvent { code, pressed: false })
}

impl Chord {
    /// The key events that press this chord, in order.
    pub fn key_events(&self) -> (events: Vec<KeyEvent>)
        ensures
            events@ == key_events_spec(self@),
    {
        let n: usize = self.modifiers.len();
        let ghost mods = self.modifiers@;
        let mut events: Vec<KeyEvent> = Vec::new();
        let mut i: usize = 0;
        while i < n
            invariant
                n == mods.len(),
                mods == self.modifiers@,
                i <= n,
                events@ == mods.take(i as int).map_values(
                    |code: u16| KeyEvent { code, pressed: true },
                ),
            decreases n - i,
        {
            events.push(KeyEvent { code: self.modifiers[i], pressed: true });
            i = i + 1;
        }
        events.push(KeyEvent { code: self.main, pressed: true });
        events.push(KeyEvent { code: self.main, pressed: false });
        let ghost head = events@;
        let ghost back = mods.reverse();
        let mut k: usize = 0;
        while k < n
            invariant
                n == mods.len(),
                mods == self.modifiers@,
                back == mods.reverse(),
                k <= n,
                events@ == head + back.take(k as int).map_values(
                    |code: u16| KeyEvent { code, pressed: false },
                ),
            decreases n - k,
        {
            events.push(KeyEvent { code: self.modifiers[n - 1 - k], pressed: false });
            k = k + 1;
        }
        events
    }
}

/// Whether every name in `tokens` is the name of a known key.
pub open spec fn all_known(tokens: Seq<Seq<char>>) -> bool {
    forall|i: int| 0 <= i < tokens.len() ==> key_code(#[trigger] tokens[i]) is Some
}

/// The key codes of the names in `tokens`.
pub open spec fn key_codes(tokens: Seq<Seq<char>>) -> Seq<u16> {
    tokens.map_values(|token: Seq<char>| key_code(token)->0)
}

/// The chord that `text` names: its pieces between `-` are key names, the
/// last the main key and the others the modifiers. Where a name is unknown
/// there is no chord.
pub open spec fn chord_spec(text: Seq<char>) -> Option<ChordView> {
    let tokens = split_spec(text, '-');
    if all_known(tokens) {
        Some(
            ChordView { modifiers: key_codes(tokens.drop_last()), main: key_code(tokens.last())->0 },
        )
    } else {
        None
    }
}

/// Parses one chord, such as `ctrl-shift-z`. Returns `None` where any of its
/// key names is unknown: such a chord is skipped whole.
pub fn parse_chord(text: &str) -> (chord: Option<Chord>)
    ensures
        chord_option_view(chord) == chord_spec(text@),
{
    let tokens = split(text, '-');
    let ghost names = strings_view(tokens@);
    proof {
        lemma_split_rejoins(text@, '-');
    }
    let n: usize = tokens.len();
    let mut codes: Vec<u16> = Vec::new();
    let mut i: usize = 0;
    while i < n
        invariant
            n == tokens@.len(),
            names == strings_view(tokens@),
            names == split_spec(text@, '-'),
            i <= n,
            all_known(names.take(i as int)),
            codes@ == key_codes(names.take(i as int)),
        decreases n - i,
    {
        assert(names[i as int] == tokens@[i as int]@);
        match key_token_to_evdev(tokens[i].as_str()) {
            Some(code) => {
                codes.push(code);
            },
            None => {
                return None;
            },
        }
        i = i + 1;
    }
    assert(names.take(n as int) == names);
    assert(key_codes(names).drop_last() == key_codes(names.drop_last()));
    match codes.pop() {
        Some(main) => Some(Chord { modifiers: codes, main }),
        None => None,
    }
}

/// The chords of a key sequence: one for each word of `text`, none where the
/// word names an unknown key.
pub open spec fn key_sequence_spec(text: Seq<char>) -> Seq<Option<ChordView>> {
    words_spec(text).map_values(|word: Seq<char>| chord_spec(word))
}

/// Parses a sequence of chords separated by white space, such as
/// `ctrl-5 f2`. A chord with an unknown key name yields `None` in its place,
/// so that the executor skips it and still pauses after it.
pub fn parse_key_sequence(text: &str) -> (chords: Vec<Option<Chord>>)
    ensures
        chords_view(chords@) == key_sequence_spec(text@),
{
    let words = split_whitespace(text);
    let ghost names = strings_view(words@);
    let n: usize = words.len();
    let mut chords: Vec<Option<Chord>> = Vec::new();
    let mut i: usize = 0;
    while i < n
        invariant
            n == words@.len(),
            names == strings_view(words@),
            i <= n,
            chords_view(chords@) == names.take(i as int).map_values(
                |word: Seq<char>| chord_spec(word),
            ),
        decreases n - i,
    {
        let ghost before = chords_view(chords@);
        let chord = parse_chord(words[i].as_str());
        chords.push(chord);
        i = i + 1;
        assert(chords_view(chords@) == before.push(chord_spec(names[i - 1])));
    }
    chords
}

/// What an executor is asked to do.
#[derive(Clone, Debug, PartialEq, Eq)]
pub enum Invocation {
    /// Press these chords in order on the synthetic keyboard, pausing
    /// [`CHORD_SPACING_MS`] after each; `None` stands for a chord that is
    /// skipped.
    Keys(Vec<Option<Chord>>),
    /// Hand these words to the compositor-control executor.
    Compositor(Vec<String>),
}

/// Mathematical model of an [`Invocation`].
pub enum InvocationView {
    Keys(Seq<Option<ChordView>>),
    Compositor(Seq<Seq<char>>),
}

impl View for Invocation {
    type V = InvocationView;

    open spec fn view(&self) -> InvocationView {
        match *self {
            Invocation::Keys(chords) => InvocationView::Keys(chords_view(chords@)),
            Invocation::Compositor(words) => InvocationView::Compositor(strings_view(words@)),
        }
    }
}

/// What to do for a command, and how long to wait before doing it.
#[derive(Clone, Debug, PartialEq, Eq)]
pub struct Dispatch {
    pub delay_ms: u64,
    pub invocation: Invocation,
}

/// Mathematical model of a [`Dispatch`].
pub struct DispatchView {
    pub delay_ms: u64,
    pub invocation: InvocationView,
}

impl View for Dispatch {
    type V = DispatchView;

    open spec fn view(&self) -> DispatchView {
        DispatchView { delay_ms: self.delay_ms, invocation: self.invocation@ }
    }
}

/// Whether `command` is a key sequence for the synthetic keyboard.
pub open spec fn is_key_command(command: Seq<char>) -> bool {
    "key-"@.is_prefix_of(command)
}

/// Whether `command` is fired only after [`SCREENSHOT_DELAY_MS`].
pub open spec fn is_deferred(command: Seq<char>) -> bool {
    "screenshot"@.is_prefix_of(command)
}

/// What the executors are asked to do for `command`.
pub open spec fn invocation_spec(command: Seq<char>) -> InvocationView {
    if is_key_command(command) {
        InvocationView::Keys(key_sequence_spec(command.skip("key-"@.len() as int)))
    } else {
        InvocationView::Compositor(words_spec(command))
    }
}

/// The dispatch of `command`.
pub open spec fn dispatch_spec(command: Seq<char>) -> DispatchView {
    DispatchView {
        delay_ms: if is_deferred(command) {
            SCREENSHOT_DELAY_MS
        } else {
            0
        },
        invocation: invocation_spec(command),
    }
}

/// Decides which executor a command is for, and with what arguments.
///
/// A command that begins with `key-` is parsed as a key sequence; any other
/// command is split into words and forwarded as they are.
pub fn parse_invocation(command: &str) -> (invocation: Invocation)
    ensures
        invocation@ == invocation_spec(command@),
{
    let prefix = "key-";
    if starts_with(command, prefix) {
        let rest = command.substring_char(prefix.unicode_len(), command.unicode_len());
        Invocation::Keys(parse_key_sequence(rest))
    } else {
        Invocation::Compositor(split_whitespace(command))
    }
}

/// Plans the dispatch of `command`: what to run, and after what delay.
pub fn plan(command: &str) -> (dispatch: Dispatch)
    ensures
        dispatch@ == dispatch_spec(command@),
{
    let delay_ms: u64 = if starts_with(command, "screenshot") {
        SCREENSHOT_DELAY_MS
    } else {
        0
    };
    Dispatch { delay_ms, invocation: parse_invocation(command) }
}

} // verus!
