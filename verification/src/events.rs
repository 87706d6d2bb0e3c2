use crate::keycode::KeyCode;
use crate::keys::{increasing, Chord, EventFlags, KeyModifier, KeySpec};
use vstd::prelude::*;

verus! {

/// The chord that always ends the daemon, whatever is bound: all of Fn, Alt,
/// Cmd and Ctrl held, and F5 pressed.
pub open spec fn quit_chord() -> Chord {
    Chord {
        modifiers: Set::<KeyModifier>::empty().insert(KeyModifier::Fn).insert(
            KeyModifier::Alt,
        ).insert(KeyModifier::Cmd).insert(KeyModifier::Ctrl),
        code: KeyCode::kVK_F5,
    }
}

/// The chord that ends the watching of keys: Ctrl held, and C pressed.
pub open spec fn interrupt_chord() -> Chord {
    Chord {
        modifiers: Set::<KeyModifier>::empty().insert(KeyModifier::Ctrl),
        code: KeyCode::kVK_ANSI_C,
    }
}

/// The chord that an event of the keyboard stands for. A key that only holds a
/// modifier down counts as no key: the modifier shows in the flags.
pub open spec fn chord_of(keycode: u16, flags: EventFlags) -> Chord {
    let code = KeyCode::spec_from_code(keycode);
    Chord {
        modifiers: flags.modifiers(),
        code: if code.spec_is_modifier() {
            KeyCode::Null
        } else {
            code
        },
    }
}

/// Reads the key code and the modifier flags of a keyboard event as a chord.
pub fn grab_key(keycode: u16, flags: EventFlags) -> (key: KeySpec)
    ensures
        key@ == chord_of(keycode, flags),
        increasing(key.0@),
{
    let mut code = KeyCode::from_code(keycode);
    if code.is_modifier() {
        code = KeyCode::Null;
    }
    let modifiers = KeyModifier::from(flags);
    KeySpec(modifiers, code)
}

/// Whether the chord is the one that always ends the daemon.
pub fn is_quit_chord(key: &KeySpec) -> (b: bool)
    ensures
        b == (key@ == quit_chord()),
{
    let b = key.1 == KeyCode::kVK_F5 && key.has_modifier(KeyModifier::Fn) && key.has_modifier(
        KeyModifier::Alt,
    ) && key.has_modifier(KeyModifier::Cmd) && key.has_modifier(KeyModifier::Ctrl)
        && !key.has_modifier(KeyModifier::Shift);
    proof {
        if b {
            assert(key@.modifiers =~= quit_chord().modifiers);
        }
    }
    b
}

/// Whether the chord asks the watching of keys to end: it is Ctrl with C.
pub fn ctrl_c_quit(key: &KeySpec) -> (b: bool)
    ensures
        b == (key@ == interrupt_chord()),
{
    let b = key.1 == KeyCode::kVK_ANSI_C && key.has_modifier(KeyModifier::Ctrl)
        && !key.has_modifier(KeyModifier::Shift) && !key.has_modifier(KeyModifier::Alt)
        && !key.has_modifier(KeyModifier::Cmd) && !key.has_modifier(KeyModifier::Fn);
    proof {
        if b {
            assert(key@.modifiers =~= interrupt_chord().modifiers);
        }
    }
    b
}

/// Whether the daemon keeps the event of this chord to itself, so that no
/// other program sees the key. Once anything is bound (`mapped`), it does so
/// for every press of a key (`key_down`) but that of the chord that ends the
/// daemon, which is always let through.
pub fn should_consume(key: &KeySpec, key_down: bool, mapped: bool) -> (b: bool)
    ensures
        b == (mapped && key_down && key@ != quit_chord()),
{
    mapped && key_down && !is_quit_chord(key)
}

} // verus!
