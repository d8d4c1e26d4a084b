use waydo::dispatch::{
    key_token_to_evdev, parse_chord, parse_invocation, parse_key_sequence, plan, Chord, Dispatch,
    Invocation, KeyEvent, CHORD_SPACING_MS, SCREENSHOT_DELAY_MS,
};

fn chord(modifiers: &[u16], main: u16) -> Chord {
    Chord { modifiers: modifiers.to_vec(), main }
}

fn words(list: &[&str]) -> Vec<String> {
    list.iter().map(|s| s.to_string()).collect()
}

fn down(code: u16) -> KeyEvent {
    KeyEvent { code, pressed: true }
}

fn up(code: u16) -> KeyEvent {
    KeyEvent { code, pressed: false }
}

#[test]
fn modifier_names_have_their_codes() {
    assert_eq!(key_token_to_evdev("ctrl"), Some(29));
    assert_eq!(key_token_to_evdev("shift"), Some(42));
    assert_eq!(key_token_to_evdev("alt"), Some(56));
    assert_eq!(key_token_to_evdev("meta"), Some(125));
    assert_eq!(key_token_to_evdev("super"), Some(125));
}

#[test]
fn digit_names_have_their_codes() {
    let expected = [11u16, 2, 3, 4, 5, 6, 7, 8, 9, 10];
    for (digit, code) in expected.iter().enumerate() {
        assert_eq!(key_token_to_evdev(&digit.to_string()), Some(*code), "{}", digit);
    }
}

#[test]
fn function_key_names_have_their_codes() {
    let expected = [59u16, 60, 61, 62, 63, 64, 65, 66, 67, 68, 87, 88];
    for (i, code) in expected.iter().enumerate() {
        assert_eq!(key_token_to_evdev(&format!("f{}", i + 1)), Some(*code), "f{}", i + 1);
    }
    assert_eq!(key_token_to_evdev("f0"), None);
    assert_eq!(key_token_to_evdev("f13"), None);
}

#[test]
fn letter_names_have_their_codes() {
    let expected = [
        30u16, 48, 46, 32, 18, 33, 34, 35, 23, 36, 37, 38, 50, 49, 24, 25, 16, 19, 31, 20, 22, 47,
        17, 45, 21, 44,
    ];
    for (letter, code) in ('a'..='z').zip(expected.iter()) {
        assert_eq!(key_token_to_evdev(&letter.to_string()), Some(*code), "{}", letter);
    }
}

#[test]
fn other_key_names_have_their_codes() {
    assert_eq!(key_token_to_evdev("minus"), Some(12));
    assert_eq!(key_token_to_evdev("equal"), Some(13));
    assert_eq!(key_token_to_evdev("plus"), Some(13));
    assert_eq!(key_token_to_evdev("delete"), Some(14));
    assert_eq!(key_token_to_evdev("backspace"), Some(14));
    assert_eq!(key_token_to_evdev("pageup"), Some(104));
    assert_eq!(key_token_to_evdev("pagedown"), Some(109));
}

#[test]
fn unknown_key_names_have_no_code() {
    for name in ["", " ", "Ctrl", "CTRL", "control", "ctrl ", " ctrl", "10", "aa", "A", "-", "é", "tab"] {
        assert_eq!(key_token_to_evdev(name), None, "{:?}", name);
    }
}

#[test]
fn chord_has_modifiers_in_order_and_the_main_key_last() {
    assert_eq!(parse_chord("ctrl-shift-z"), Some(chord(&[29, 42], 44)));
    assert_eq!(parse_chord("shift-ctrl-z"), Some(chord(&[42, 29], 44)));
    assert_eq!(parse_chord("ctrl-f5"), Some(chord(&[29], 63)));
    assert_eq!(parse_chord("ctrl-alt-shift-super-delete"), Some(chord(&[29, 56, 42, 125], 14)));
}

#[test]
fn single_key_is_a_chord_without_modifiers() {
    assert_eq!(parse_chord("pageup"), Some(chord(&[], 104)));
    assert_eq!(parse_chord("f1"), Some(chord(&[], 59)));
    assert_eq!(parse_chord("ctrl"), Some(chord(&[], 29)));
    assert_eq!(parse_chord("z-ctrl"), Some(chord(&[44], 29)));
}

#[test]
fn chord_with_an_unknown_name_is_skipped_whole() {
    assert_eq!(parse_chord("ctrl-bogus"), None);
    assert_eq!(parse_chord("bogus-z"), None);
    assert_eq!(parse_chord("ctrl-bogus-z"), None);
    assert_eq!(parse_chord("bogus"), None);
    assert_eq!(parse_chord("Ctrl-z"), None);
}

#[test]
fn chord_with_an_empty_name_is_skipped_whole() {
    assert_eq!(parse_chord(""), None);
    assert_eq!(parse_chord("-"), None);
    assert_eq!(parse_chord("ctrl-"), None);
    assert_eq!(parse_chord("-z"), None);
    assert_eq!(parse_chord("ctrl--z"), None);
}

#[test]
fn key_events_press_modifiers_in_order_and_release_them_in_reverse() {
    assert_eq!(
        chord(&[29, 42], 44).key_events(),
        vec![down(29), down(42), down(44), up(44), up(42), up(29)]
    );
    assert_eq!(chord(&[], 104).key_events(), vec![down(104), up(104)]);
    assert_eq!(chord(&[125], 2).key_events(), vec![down(125), down(2), up(2), up(125)]);
    assert_eq!(
        chord(&[29, 29, 56], 29).key_events(),
        vec![down(29), down(29), down(56), down(29), up(29), up(56), up(29), up(29)]
    );
}

#[test]
fn key_sequence_has_one_chord_for_each_word() {
    assert_eq!(
        parse_key_sequence("ctrl-6 f6"),
        vec![Some(chord(&[29], 7)), Some(chord(&[], 64))]
    );
    assert_eq!(
        parse_key_sequence("ctrl-1 ctrl-f1"),
        vec![Some(chord(&[29], 2)), Some(chord(&[29], 59))]
    );
    assert_eq!(parse_key_sequence("ctrl-shift-z"), vec![Some(chord(&[29, 42], 44))]);
    assert_eq!(parse_key_sequence("  pageup \t pagedown\n"), vec![
        Some(chord(&[], 104)),
        Some(chord(&[], 109))
    ]);
}

#[test]
fn key_sequence_keeps_the_place_of_a_skipped_chord() {
    assert_eq!(
        parse_key_sequence("ctrl-5 nope f2"),
        vec![Some(chord(&[29], 6)), None, Some(chord(&[], 60))]
    );
    assert_eq!(parse_key_sequence("ctrl-"), vec![None]);
}

#[test]
fn empty_key_sequence_has_no_chords() {
    assert!(parse_key_sequence("").is_empty());
    assert!(parse_key_sequence("   ").is_empty());
}

#[test]
fn key_commands_go_to_the_synthetic_keyboard() {
    assert_eq!(parse_invocation("key-pageup"), Invocation::Keys(vec![Some(chord(&[], 104))]));
    assert_eq!(
        parse_invocation("key-ctrl-shift-z"),
        Invocation::Keys(vec![Some(chord(&[29, 42], 44))])
    );
    assert_eq!(
        parse_invocation("key-ctrl-5 f2"),
        Invocation::Keys(vec![Some(chord(&[29], 6)), Some(chord(&[], 60))])
    );
    assert_eq!(parse_invocation("key-"), Invocation::Keys(Vec::new()));
    assert_eq!(parse_invocation("key-what"), Invocation::Keys(vec![None]));
}

#[test]
fn other_commands_go_to_the_compositor_word_by_word() {
    assert_eq!(
        parse_invocation("fullscreen-window"),
        Invocation::Compositor(words(&["fullscreen-window"]))
    );
    assert_eq!(
        parse_invocation("spawn -- flatpak run app.zen_browser.zen"),
        Invocation::Compositor(words(&["spawn", "--", "flatpak", "run", "app.zen_browser.zen"]))
    );
    assert_eq!(
        parse_invocation("spawn -- alacritty --title 'Btop' -e btop"),
        Invocation::Compositor(words(&[
            "spawn",
            "--",
            "alacritty",
            "--title",
            "'Btop'",
            "-e",
            "btop"
        ]))
    );
    assert_eq!(parse_invocation(""), Invocation::Compositor(Vec::new()));
}

#[test]
fn key_prefix_must_open_the_command() {
    assert_eq!(parse_invocation("key"), Invocation::Compositor(words(&["key"])));
    assert_eq!(parse_invocation("keys-ctrl-z"), Invocation::Compositor(words(&["keys-ctrl-z"])));
    assert_eq!(parse_invocation(" key-ctrl-z"), Invocation::Compositor(words(&["key-ctrl-z"])));
    assert_eq!(parse_invocation("Key-ctrl-z"), Invocation::Compositor(words(&["Key-ctrl-z"])));
}

#[test]
fn plan_fires_ordinary_commands_at_once() {
    assert_eq!(
        plan("close-window"),
        Dispatch { delay_ms: 0, invocation: Invocation::Compositor(words(&["close-window"])) }
    );
    assert_eq!(
        plan("key-ctrl-z"),
        Dispatch { delay_ms: 0, invocation: Invocation::Keys(vec![Some(chord(&[29], 44))]) }
    );
}

#[test]
fn plan_defers_screenshots() {
    assert_eq!(
        plan("screenshot -p false"),
        Dispatch {
            delay_ms: 80,
            invocation: Invocation::Compositor(words(&["screenshot", "-p", "false"])),
        }
    );
    assert_eq!(plan("screenshot").delay_ms, SCREENSHOT_DELAY_MS);
    assert_eq!(plan("screenshot-window").delay_ms, 80);
    assert_eq!(plan("screenshots").delay_ms, 80);
}

#[test]
fn plan_defers_only_commands_that_open_with_screenshot() {
    assert_eq!(plan(" screenshot").delay_ms, 0);
    assert_eq!(plan("Screenshot").delay_ms, 0);
    assert_eq!(plan("spawn -- screenshot").delay_ms, 0);
    assert_eq!(plan("key-screenshot").delay_ms, 0);
    assert_eq!(plan("screensho").delay_ms, 0);
    assert_eq!(plan("").delay_ms, 0);
}

#[test]
fn delays() {
    assert_eq!(SCREENSHOT_DELAY_MS, 80);
    assert_eq!(CHORD_SPACING_MS, 20);
}
