use keymap::{
    KeyAction, KeyCode, KeyModifier, KeySequence, KeySpec, KeymapDaemon, KeymapError,
};

fn plain(code: KeyCode) -> KeySpec {
    KeySpec(vec![], code)
}

fn sequence(keys: Vec<KeySpec>) -> KeySequence {
    KeySequence(keys)
}

fn in_default() -> KeymapDaemon {
    let mut keymap = KeymapDaemon::new();
    keymap.switch_mode("default".to_string()).unwrap();
    keymap
}

#[test]
fn a_flat_binding_gives_its_action_when_the_whole_sequence_is_entered() {
    let mut keymap = in_default();
    keymap.bind(
        None,
        sequence(vec![plain(KeyCode::kVK_Space), plain(KeyCode::kVK_ANSI_L)]),
        KeyAction::ShellCmd("notify owo yee".into()),
    );
    assert_eq!(keymap.make_input(plain(KeyCode::kVK_Space)), None);
    assert_eq!(
        keymap.make_input(plain(KeyCode::kVK_ANSI_L)),
        Some(KeyAction::ShellCmd("notify owo yee".into()))
    );
    // A new sequence starts after the action.
    assert_eq!(keymap.make_input(plain(KeyCode::kVK_Space)), None);
    assert_eq!(
        keymap.make_input(plain(KeyCode::kVK_ANSI_L)),
        Some(KeyAction::ShellCmd("notify owo yee".into()))
    );
}

#[test]
fn a_new_flat_keymap_is_in_the_default_mode() {
    let mut keymap = KeymapDaemon::new();
    assert!(!keymap.is_mapped());
    keymap.bind(None, sequence(vec![plain(KeyCode::kVK_ANSI_A)]), KeyAction::Nop);
    assert!(keymap.is_mapped());
    assert_eq!(keymap.make_input(plain(KeyCode::kVK_ANSI_A)), Some(KeyAction::Nop));
}

#[test]
fn a_flat_binding_in_no_named_mode_fires_after_a_reset_and_fires_again() {
    let mut keymap = KeymapDaemon::new();
    keymap.bind(
        None,
        sequence(vec![plain(KeyCode::kVK_Space), plain(KeyCode::kVK_ANSI_L)]),
        KeyAction::ShellCmd("notify owo yee".into()),
    );
    keymap.reset();
    assert_eq!(keymap.make_input(plain(KeyCode::kVK_Space)), None);
    assert_eq!(keymap.make_input(KeySpec(vec![], KeyCode::Null)), None);
    assert_eq!(
        keymap.make_input(plain(KeyCode::kVK_ANSI_L)),
        Some(KeyAction::ShellCmd("notify owo yee".into()))
    );
    assert_eq!(keymap.make_input(plain(KeyCode::kVK_Space)), None);
    assert_eq!(
        keymap.make_input(plain(KeyCode::kVK_ANSI_L)),
        Some(KeyAction::ShellCmd("notify owo yee".into()))
    );
}

#[test]
fn a_flat_binding_under_the_default_name_replaces_one_under_no_name() {
    let mut keymap = KeymapDaemon::new();
    keymap.bind(None, sequence(vec![plain(KeyCode::kVK_ANSI_A)]), KeyAction::ShellCmd("1".into()));
    keymap.bind(
        Some("default".into()),
        sequence(vec![plain(KeyCode::kVK_ANSI_A)]),
        KeyAction::ShellCmd("2".into()),
    );
    keymap.reset();
    assert_eq!(
        keymap.make_input(plain(KeyCode::kVK_ANSI_A)),
        Some(KeyAction::ShellCmd("2".into()))
    );
}

#[test]
fn flat_switch_to_an_unknown_mode_changes_nothing() {
    let mut keymap = KeymapDaemon::new();
    keymap.bind(
        None,
        sequence(vec![plain(KeyCode::kVK_Space), plain(KeyCode::kVK_ANSI_L)]),
        KeyAction::ShellCmd("ls".into()),
    );
    assert_eq!(keymap.make_input(plain(KeyCode::kVK_Space)), None);
    assert_eq!(
        keymap.switch_mode("visual".to_string()),
        Err(KeymapError::NoSuchMode("visual".to_string()))
    );
    // Still in `default`, and the chord entered before is still there.
    assert_eq!(
        keymap.make_input(plain(KeyCode::kVK_ANSI_L)),
        Some(KeyAction::ShellCmd("ls".into()))
    );
}

#[test]
fn flat_switch_to_a_mode_with_a_binding_or_to_default_succeeds() {
    let mut keymap = KeymapDaemon::new();
    assert_eq!(keymap.switch_mode("default".to_string()), Ok(()));
    assert_eq!(
        keymap.switch_mode("insert".to_string()),
        Err(KeymapError::NoSuchMode("insert".to_string()))
    );
    keymap.bind(
        Some("insert".to_string()),
        sequence(vec![plain(KeyCode::kVK_ANSI_A)]),
        KeyAction::Nop,
    );
    assert_eq!(keymap.switch_mode("insert".to_string()), Ok(()));
    assert_eq!(keymap.make_input(plain(KeyCode::kVK_ANSI_A)), Some(KeyAction::Nop));
    assert_eq!(
        keymap.unbind(Some("insert".to_string()), sequence(vec![plain(KeyCode::kVK_ANSI_A)])),
        Some(KeyAction::Nop)
    );
    assert_eq!(keymap.switch_mode("default".to_string()), Ok(()));
    assert_eq!(
        keymap.switch_mode("insert".to_string()),
        Err(KeymapError::NoSuchMode("insert".to_string()))
    );
}

#[test]
fn a_flat_binding_without_chords_is_not_bound() {
    let mut keymap = KeymapDaemon::new();
    keymap.bind(None, sequence(vec![]), KeyAction::ShellCmd("never".into()));
    assert!(!keymap.is_mapped());
    assert_eq!(keymap.unbind(None, sequence(vec![])), None);
}

#[test]
fn flat_bindings_are_kept_by_mode() {
    let mut keymap = in_default();
    keymap.bind(
        Some("insert".to_string()),
        sequence(vec![plain(KeyCode::kVK_ANSI_A)]),
        KeyAction::ShellCmd("insert".into()),
    );
    keymap.bind(
        None,
        sequence(vec![plain(KeyCode::kVK_ANSI_A)]),
        KeyAction::ShellCmd("default".into()),
    );
    assert_eq!(
        keymap.make_input(plain(KeyCode::kVK_ANSI_A)),
        Some(KeyAction::ShellCmd("default".into()))
    );
    keymap.switch_mode("insert".to_string()).unwrap();
    assert_eq!(
        keymap.make_input(plain(KeyCode::kVK_ANSI_A)),
        Some(KeyAction::ShellCmd("insert".into()))
    );
}

#[test]
fn a_flat_binding_is_replaced_by_a_later_one() {
    let mut keymap = in_default();
    keymap.bind(None, sequence(vec![plain(KeyCode::kVK_ANSI_A)]), KeyAction::ShellCmd("old".into()));
    keymap.bind(None, sequence(vec![plain(KeyCode::kVK_ANSI_A)]), KeyAction::ShellCmd("new".into()));
    assert_eq!(
        keymap.make_input(plain(KeyCode::kVK_ANSI_A)),
        Some(KeyAction::ShellCmd("new".into()))
    );
    assert_eq!(
        keymap.unbind(None, sequence(vec![plain(KeyCode::kVK_ANSI_A)])),
        Some(KeyAction::ShellCmd("new".into()))
    );
    assert_eq!(keymap.unbind(None, sequence(vec![plain(KeyCode::kVK_ANSI_A)])), None);
    assert!(!keymap.is_mapped());
}

#[test]
fn flat_unbind_gives_back_the_action() {
    let mut keymap = in_default();
    keymap.bind(None, sequence(vec![plain(KeyCode::kVK_ANSI_A)]), KeyAction::ShellCmd("a".into()));
    keymap.bind(None, sequence(vec![plain(KeyCode::kVK_ANSI_B)]), KeyAction::ShellCmd("b".into()));
    assert_eq!(
        keymap.unbind(Some("insert".to_string()), sequence(vec![plain(KeyCode::kVK_ANSI_A)])),
        None
    );
    assert_eq!(
        keymap.unbind(Some("default".to_string()), sequence(vec![plain(KeyCode::kVK_ANSI_A)])),
        Some(KeyAction::ShellCmd("a".into()))
    );
    assert_eq!(keymap.make_input(plain(KeyCode::kVK_ANSI_A)), None);
    keymap.reset();
    assert_eq!(
        keymap.make_input(plain(KeyCode::kVK_ANSI_B)),
        Some(KeyAction::ShellCmd("b".into()))
    );
}

#[test]
fn flat_keymap_passes_over_the_sentinel() {
    let mut keymap = in_default();
    keymap.bind(
        None,
        sequence(vec![plain(KeyCode::kVK_Space), plain(KeyCode::kVK_ANSI_L)]),
        KeyAction::Nop,
    );
    assert_eq!(keymap.make_input(KeySpec(vec![], KeyCode::Null)), None);
    assert_eq!(keymap.make_input(plain(KeyCode::kVK_Space)), None);
    assert_eq!(keymap.make_input(KeySpec(vec![], KeyCode::Null)), None);
    assert_eq!(keymap.make_input(plain(KeyCode::kVK_ANSI_L)), Some(KeyAction::Nop));
}

#[test]
fn flat_keymap_takes_a_bare_modifier_as_a_chord() {
    let mut keymap = in_default();
    keymap.bind(
        None,
        sequence(vec![KeySpec(vec![KeyModifier::Ctrl], KeyCode::Null), plain(KeyCode::kVK_ANSI_L)]),
        KeyAction::Nop,
    );
    assert_eq!(keymap.make_input(KeySpec(vec![KeyModifier::Ctrl], KeyCode::Null)), None);
    assert_eq!(keymap.make_input(plain(KeyCode::kVK_ANSI_L)), Some(KeyAction::Nop));
}

#[test]
fn flat_reset_clears_what_was_entered_and_keeps_the_mode() {
    let mut keymap = KeymapDaemon::new();
    keymap.bind(
        Some("insert".to_string()),
        sequence(vec![plain(KeyCode::kVK_ANSI_A)]),
        KeyAction::Nop,
    );
    keymap.switch_mode("insert".to_string()).unwrap();
    assert_eq!(keymap.make_input(plain(KeyCode::kVK_ANSI_Z)), None);
    assert_eq!(keymap.make_input(plain(KeyCode::kVK_ANSI_A)), None);
    keymap.reset();
    assert_eq!(keymap.make_input(plain(KeyCode::kVK_ANSI_A)), Some(KeyAction::Nop));
}

#[test]
fn flat_switch_mode_clears_what_was_entered() {
    let mut keymap = in_default();
    keymap.bind(None, sequence(vec![plain(KeyCode::kVK_ANSI_A)]), KeyAction::Nop);
    assert_eq!(keymap.make_input(plain(KeyCode::kVK_ANSI_Z)), None);
    keymap.switch_mode("default".to_string()).unwrap();
    assert_eq!(keymap.make_input(plain(KeyCode::kVK_ANSI_A)), Some(KeyAction::Nop));
}
