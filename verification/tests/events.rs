use keymap::events::{ctrl_c_quit, grab_key, is_quit_chord, should_consume};
use keymap::{EventFlags, KeyCode, KeyModifier, KeySpec};

fn flags(control: bool, shift: bool, alternate: bool, command: bool, secondary_fn: bool) -> EventFlags {
    EventFlags { control, shift, alternate, command, secondary_fn }
}

#[test]
fn an_event_is_read_as_a_chord() {
    assert_eq!(
        grab_key(0x08, flags(true, false, false, false, false)),
        KeySpec(vec![KeyModifier::Ctrl], KeyCode::kVK_ANSI_C)
    );
    assert_eq!(grab_key(0x31, EventFlags::none()), KeySpec(vec![], KeyCode::kVK_Space));
    assert_eq!(
        grab_key(0x61, flags(false, false, false, false, true)),
        KeySpec(vec![KeyModifier::Fn], KeyCode::kVK_F6)
    );
    assert_eq!(
        grab_key(0x0C, flags(true, false, false, true, false)).0,
        vec![KeyModifier::Ctrl, KeyModifier::Cmd]
    );
}

#[test]
fn a_modifier_key_is_read_as_no_key() {
    for code in [0x3Au16, 0x3D, 0x38, 0x3C, 0x37, 0x36, 0x3B, 0x3E, 0x3F] {
        let key = grab_key(code, flags(false, true, false, false, false));
        assert_eq!(key, KeySpec(vec![KeyModifier::Shift], KeyCode::Null));
        assert!(!key.is_sentinel());
    }
    // Letting go of the last modifier gives the sentinel.
    assert!(grab_key(0x38, EventFlags::none()).is_sentinel());
    // Caps lock is a key of its own.
    assert_eq!(grab_key(0x39, EventFlags::none()), KeySpec(vec![], KeyCode::kVK_CapsLock));
}

#[test]
fn an_unknown_code_is_read_as_no_key() {
    assert!(grab_key(0x34, EventFlags::none()).is_sentinel());
    assert_eq!(
        grab_key(0x200, flags(false, false, true, false, false)),
        KeySpec(vec![KeyModifier::Alt], KeyCode::Null)
    );
}

#[test]
fn the_quit_chord_is_all_four_modifiers_and_f5() {
    let quit = KeySpec(
        vec![KeyModifier::Fn, KeyModifier::Alt, KeyModifier::Cmd, KeyModifier::Ctrl],
        KeyCode::kVK_F5,
    );
    assert!(is_quit_chord(&quit));
    assert!(is_quit_chord(&grab_key(0x60, flags(true, false, true, true, true))));
    assert!(!is_quit_chord(&grab_key(0x60, flags(true, true, true, true, true))));
    assert!(!is_quit_chord(&grab_key(0x60, flags(true, false, true, true, false))));
    assert!(!is_quit_chord(&grab_key(0x60, flags(false, false, true, true, true))));
    assert!(!is_quit_chord(&grab_key(0x61, flags(true, false, true, true, true))));
    assert!(!is_quit_chord(&KeySpec(vec![], KeyCode::kVK_F5)));
}

#[test]
fn ctrl_c_ends_the_watching() {
    assert!(ctrl_c_quit(&KeySpec(vec![KeyModifier::Ctrl], KeyCode::kVK_ANSI_C)));
    assert!(!ctrl_c_quit(&KeySpec(vec![], KeyCode::kVK_ANSI_C)));
    assert!(!ctrl_c_quit(&KeySpec(vec![KeyModifier::Ctrl], KeyCode::kVK_ANSI_V)));
    assert!(!ctrl_c_quit(&KeySpec(
        vec![KeyModifier::Ctrl, KeyModifier::Shift],
        KeyCode::kVK_ANSI_C
    )));
    assert!(!ctrl_c_quit(&KeySpec(vec![KeyModifier::Cmd], KeyCode::kVK_ANSI_C)));
}

#[test]
fn every_key_press_but_the_quit_chord_is_kept_once_something_is_bound() {
    let quit = KeySpec(
        vec![KeyModifier::Ctrl, KeyModifier::Alt, KeyModifier::Cmd, KeyModifier::Fn],
        KeyCode::kVK_F5,
    );
    let other = KeySpec(vec![], KeyCode::kVK_ANSI_A);
    assert!(should_consume(&other, true, true));
    assert!(!should_consume(&quit, true, true));
    // Nothing is bound yet.
    assert!(!should_consume(&other, true, false));
    assert!(!should_consume(&quit, true, false));
    // Not the press of a key.
    assert!(!should_consume(&other, false, true));
    assert!(!should_consume(&KeySpec(vec![KeyModifier::Shift], KeyCode::Null), false, true));
}
