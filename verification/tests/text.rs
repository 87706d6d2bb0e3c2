use keymap::{KeyCode, KeyModifier, KeySequence, KeySpec, KeymapError};

#[test]
fn modifiers_are_written_by_name() {
    assert_eq!(KeyModifier::Ctrl.to_string(), "Ctrl");
    assert_eq!(KeyModifier::Shift.to_string(), "Shift");
    assert_eq!(KeyModifier::Alt.to_string(), "Alt");
    assert_eq!(KeyModifier::Cmd.to_string(), "Cmd");
    assert_eq!(KeyModifier::Fn.to_string(), "Fn");
    assert_eq!(KeyModifier::Cmd.name(), "Cmd");
}

#[test]
fn keys_are_written_by_name() {
    assert_eq!(KeyCode::kVK_ANSI_A.name(), "kVK_ANSI_A");
    assert_eq!(KeyCode::kVK_Space.name(), "kVK_Space");
    assert_eq!(KeyCode::kVK_F5.name(), "kVK_F5");
    assert_eq!(KeyCode::Null.name(), "Null");
}

#[test]
fn chords_are_written_with_plus_signs() {
    assert_eq!(KeySpec(vec![], KeyCode::Null).to_string(), "");
    assert_eq!(KeySpec(vec![], KeyCode::kVK_ANSI_A).to_string(), "kVK_ANSI_A");
    assert_eq!(KeySpec(vec![KeyModifier::Ctrl], KeyCode::Null).to_string(), "Ctrl");
    assert_eq!(
        KeySpec(vec![KeyModifier::Ctrl], KeyCode::kVK_ANSI_C).to_string(),
        "Ctrl + kVK_ANSI_C"
    );
    assert_eq!(
        KeySpec(vec![KeyModifier::Cmd, KeyModifier::Ctrl], KeyCode::kVK_ANSI_Q).to_string(),
        "Ctrl + Cmd + kVK_ANSI_Q"
    );
    assert_eq!(
        KeySpec(
            vec![
                KeyModifier::Fn,
                KeyModifier::Cmd,
                KeyModifier::Alt,
                KeyModifier::Shift,
                KeyModifier::Ctrl,
                KeyModifier::Fn
            ],
            KeyCode::kVK_F5
        )
        .to_string(),
        "Ctrl + Shift + Alt + Cmd + Fn + kVK_F5"
    );
    assert_eq!(
        KeySpec(vec![KeyModifier::Shift, KeyModifier::Fn], KeyCode::Null).to_string(),
        "Shift + Fn"
    );
}

#[test]
fn sequences_are_written_in_brackets() {
    assert_eq!(KeySequence(vec![]).to_string(), "[]");
    assert_eq!(
        KeySequence(vec![KeySpec(vec![], KeyCode::kVK_Space)]).to_string(),
        "[kVK_Space ]"
    );
    assert_eq!(
        KeySequence(vec![
            KeySpec(vec![KeyModifier::Ctrl], KeyCode::kVK_ANSI_X),
            KeySpec(vec![], KeyCode::kVK_ANSI_L)
        ])
        .to_string(),
        "[Ctrl + kVK_ANSI_X kVK_ANSI_L ]"
    );
}

#[test]
fn errors_are_written_as_messages() {
    assert_eq!(
        KeymapError::KeyNotFound(KeySequence(vec![]), KeySpec(vec![], KeyCode::kVK_ANSI_A))
            .to_string(),
        "Key not found"
    );
    assert_eq!(
        KeymapError::KeyAlreadyBound(
            KeySequence(vec![KeySpec(vec![], KeyCode::kVK_Space)]),
            "insert".to_string()
        )
        .to_string(),
        "Key([kVK_Space ]) for mode insert is already bound"
    );
    assert_eq!(KeymapError::NoSuchMode("visual".to_string()).to_string(), "No such mode: visual");
    assert_eq!(KeymapError::InvalidSequence.to_string(), "Invalid key sequence");
}
