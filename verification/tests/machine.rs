use keymap::{
    KeyAction, KeyBinding, KeyCode, KeyModifier, KeySequence, KeySpec, KeymapError,
    KeymapStateMachine,
};

fn plain(code: KeyCode) -> KeySpec {
    KeySpec(vec![], code)
}

fn ctrl(code: KeyCode) -> KeySpec {
    KeySpec(vec![KeyModifier::Ctrl], code)
}

fn sentinel() -> KeySpec {
    KeySpec(vec![], KeyCode::Null)
}

fn sequence(keys: Vec<KeySpec>) -> KeySequence {
    KeySequence(keys)
}

fn binding(keys: Vec<KeySpec>, action: KeyAction) -> KeyBinding {
    KeyBinding { sequences: KeySequence(keys), action }
}

fn started() -> KeymapStateMachine {
    let mut machine = KeymapStateMachine::new();
    assert_eq!(machine.reset(), None);
    machine
}

#[test]
fn new_machine_has_chosen_no_mode() {
    let machine = KeymapStateMachine::new();
    assert_eq!(machine.current_mode(), None);
    assert_eq!(machine.pending(), sequence(vec![]));
}

#[test]
fn first_reset_goes_to_the_default_mode() {
    let mut machine = KeymapStateMachine::new();
    assert_eq!(machine.reset(), None);
    assert_eq!(machine.current_mode(), Some("default".to_string()));
    assert_eq!(machine.pending(), sequence(vec![]));
}

#[test]
fn a_key_before_any_mode_is_not_found() {
    let mut machine = KeymapStateMachine::new();
    machine.register(binding(vec![plain(KeyCode::kVK_ANSI_A)], KeyAction::Nop), None).unwrap();
    assert_eq!(
        machine.make_input(plain(KeyCode::kVK_ANSI_A)),
        Err(KeymapError::KeyNotFound(sequence(vec![]), plain(KeyCode::kVK_ANSI_A)))
    );
    assert_eq!(machine.current_mode(), None);
}

#[test]
fn a_bound_sequence_gives_its_action_on_the_last_key_only() {
    let mut machine = started();
    machine
        .register(
            binding(
                vec![
                    plain(KeyCode::kVK_Space),
                    ctrl(KeyCode::kVK_ANSI_X),
                    plain(KeyCode::kVK_ANSI_L),
                ],
                KeyAction::ShellCmd("notify owo yee".into()),
            ),
            None,
        )
        .unwrap();
    assert_eq!(machine.make_input(plain(KeyCode::kVK_Space)), Ok(None));
    assert_eq!(machine.pending(), sequence(vec![plain(KeyCode::kVK_Space)]));
    assert_eq!(machine.make_input(ctrl(KeyCode::kVK_ANSI_X)), Ok(None));
    assert_eq!(
        machine.pending(),
        sequence(vec![plain(KeyCode::kVK_Space), ctrl(KeyCode::kVK_ANSI_X)])
    );
    assert_eq!(
        machine.make_input(plain(KeyCode::kVK_ANSI_L)),
        Ok(Some(KeyAction::ShellCmd("notify owo yee".into())))
    );
    // Resolving clears what was entered.
    assert_eq!(machine.pending(), sequence(vec![]));
    assert_eq!(machine.current_mode(), Some("default".to_string()));
}

#[test]
fn after_an_action_the_next_key_starts_anew() {
    let mut machine = started();
    machine
        .register(binding(vec![plain(KeyCode::kVK_ANSI_A)], KeyAction::ShellCmd("a".into())), None)
        .unwrap();
    machine
        .register(
            binding(
                vec![plain(KeyCode::kVK_Space), plain(KeyCode::kVK_ANSI_B)],
                KeyAction::ShellCmd("b".into()),
            ),
            None,
        )
        .unwrap();
    assert_eq!(
        machine.make_input(plain(KeyCode::kVK_ANSI_A)),
        Ok(Some(KeyAction::ShellCmd("a".into())))
    );
    assert_eq!(machine.make_input(plain(KeyCode::kVK_Space)), Ok(None));
    assert_eq!(
        machine.make_input(plain(KeyCode::kVK_ANSI_B)),
        Ok(Some(KeyAction::ShellCmd("b".into())))
    );
    assert_eq!(
        machine.make_input(plain(KeyCode::kVK_ANSI_A)),
        Ok(Some(KeyAction::ShellCmd("a".into())))
    );
    // A reset after an action has nothing to give back.
    assert_eq!(machine.reset(), None);
}

#[test]
fn a_key_that_is_not_bound_is_reported_with_what_was_entered() {
    let mut machine = started();
    machine
        .register(
            binding(vec![plain(KeyCode::kVK_Space), plain(KeyCode::kVK_ANSI_A)], KeyAction::Nop),
            None,
        )
        .unwrap();
    assert_eq!(
        machine.make_input(plain(KeyCode::kVK_ANSI_Z)),
        Err(KeymapError::KeyNotFound(sequence(vec![]), plain(KeyCode::kVK_ANSI_Z)))
    );
    assert_eq!(machine.make_input(plain(KeyCode::kVK_Space)), Ok(None));
    assert_eq!(
        machine.make_input(plain(KeyCode::kVK_ANSI_Z)),
        Err(KeymapError::KeyNotFound(
            sequence(vec![plain(KeyCode::kVK_Space)]),
            plain(KeyCode::kVK_ANSI_Z)
        ))
    );
    // The failed key changed nothing: the sequence can still be finished.
    assert_eq!(machine.pending(), sequence(vec![plain(KeyCode::kVK_Space)]));
    assert_eq!(machine.make_input(plain(KeyCode::kVK_ANSI_A)), Ok(Some(KeyAction::Nop)));
}

#[test]
fn binding_then_unbinding_leaves_the_sequence_unbound() {
    let mut machine = started();
    let keys = || vec![plain(KeyCode::kVK_Space), plain(KeyCode::kVK_ANSI_A)];
    machine.register(binding(keys(), KeyAction::ShellCmd("a".into())), None).unwrap();
    machine.unregister(sequence(keys()), None).unwrap();
    // The first key is where the sequence leaves the bindings now.
    assert_eq!(
        machine.make_input(plain(KeyCode::kVK_Space)),
        Err(KeymapError::KeyNotFound(sequence(vec![]), plain(KeyCode::kVK_Space)))
    );
    assert_eq!(machine.pending(), sequence(vec![]));
}

#[test]
fn binding_then_unbinding_fails_at_the_first_key_that_leads_nowhere() {
    let mut machine = started();
    machine
        .register(
            binding(
                vec![plain(KeyCode::kVK_Space), plain(KeyCode::kVK_ANSI_B)],
                KeyAction::ShellCmd("b".into()),
            ),
            None,
        )
        .unwrap();
    let keys = || vec![plain(KeyCode::kVK_Space), plain(KeyCode::kVK_ANSI_A)];
    machine.register(binding(keys(), KeyAction::ShellCmd("a".into())), None).unwrap();
    machine.unregister(sequence(keys()), None).unwrap();
    assert_eq!(machine.make_input(plain(KeyCode::kVK_Space)), Ok(None));
    assert_eq!(
        machine.make_input(plain(KeyCode::kVK_ANSI_A)),
        Err(KeymapError::KeyNotFound(
            sequence(vec![plain(KeyCode::kVK_Space)]),
            plain(KeyCode::kVK_ANSI_A)
        ))
    );
    // The other binding is as it was.
    assert_eq!(
        machine.make_input(plain(KeyCode::kVK_ANSI_B)),
        Ok(Some(KeyAction::ShellCmd("b".into())))
    );
}

#[test]
fn switching_to_an_unknown_mode_changes_nothing() {
    let mut machine = started();
    machine
        .register(
            binding(vec![plain(KeyCode::kVK_Space), plain(KeyCode::kVK_ANSI_A)], KeyAction::Nop),
            None,
        )
        .unwrap();
    assert_eq!(machine.make_input(plain(KeyCode::kVK_Space)), Ok(None));
    assert_eq!(machine.switch_mode("visual"), Err(KeymapError::NoSuchMode("visual".to_string())));
    assert_eq!(machine.current_mode(), Some("default".to_string()));
    assert_eq!(machine.pending(), sequence(vec![plain(KeyCode::kVK_Space)]));
    assert_eq!(machine.make_input(plain(KeyCode::kVK_ANSI_A)), Ok(Some(KeyAction::Nop)));
}

#[test]
fn switching_to_an_unknown_mode_before_any_mode_changes_nothing() {
    let mut machine = KeymapStateMachine::new();
    assert_eq!(machine.switch_mode("visual"), Err(KeymapError::NoSuchMode("visual".to_string())));
    assert_eq!(machine.current_mode(), None);
}

#[test]
fn the_sentinel_is_passed_over() {
    let mut machine = KeymapStateMachine::new();
    assert_eq!(machine.make_input(sentinel()), Ok(None));
    assert_eq!(machine.current_mode(), None);

    let mut machine = started();
    machine
        .register(
            binding(vec![plain(KeyCode::kVK_Space), plain(KeyCode::kVK_ANSI_A)], KeyAction::Nop),
            None,
        )
        .unwrap();
    assert_eq!(machine.make_input(sentinel()), Ok(None));
    assert_eq!(machine.pending(), sequence(vec![]));
    assert_eq!(machine.make_input(plain(KeyCode::kVK_Space)), Ok(None));
    assert_eq!(machine.make_input(sentinel()), Ok(None));
    assert_eq!(machine.pending(), sequence(vec![plain(KeyCode::kVK_Space)]));
    assert_eq!(machine.make_input(plain(KeyCode::kVK_ANSI_A)), Ok(Some(KeyAction::Nop)));
    assert_eq!(machine.make_input(sentinel()), Ok(None));
    assert_eq!(machine.current_mode(), Some("default".to_string()));
}

#[test]
fn a_bare_modifier_is_not_the_sentinel() {
    let mut machine = started();
    let key = KeySpec(vec![KeyModifier::Ctrl], KeyCode::Null);
    assert_eq!(
        machine.make_input(KeySpec(vec![KeyModifier::Ctrl], KeyCode::Null)),
        Err(KeymapError::KeyNotFound(sequence(vec![]), key))
    );
}

#[test]
fn sequences_that_share_a_start_resolve_each_to_its_own_action() {
    let mut machine = started();
    machine
        .register(
            binding(
                vec![plain(KeyCode::kVK_Space), plain(KeyCode::kVK_ANSI_A)],
                KeyAction::ShellCmd("act1".into()),
            ),
            None,
        )
        .unwrap();
    machine
        .register(
            binding(
                vec![plain(KeyCode::kVK_Space), plain(KeyCode::kVK_ANSI_B)],
                KeyAction::ShellCmd("act2".into()),
            ),
            None,
        )
        .unwrap();
    assert_eq!(machine.make_input(plain(KeyCode::kVK_Space)), Ok(None));
    assert_eq!(
        machine.make_input(plain(KeyCode::kVK_ANSI_A)),
        Ok(Some(KeyAction::ShellCmd("act1".into())))
    );
    assert_eq!(machine.reset(), None);
    assert_eq!(machine.make_input(plain(KeyCode::kVK_Space)), Ok(None));
    assert_eq!(
        machine.make_input(plain(KeyCode::kVK_ANSI_B)),
        Ok(Some(KeyAction::ShellCmd("act2".into())))
    );
}

#[test]
fn a_mode_change_binding_leads_into_the_other_mode() {
    let mut machine = started();
    machine.add_mode("insert".to_string());
    machine
        .register(
            binding(vec![ctrl(KeyCode::kVK_ANSI_C)], KeyAction::ModeChange("insert".into())),
            None,
        )
        .unwrap();
    let action = machine.make_input(ctrl(KeyCode::kVK_ANSI_C));
    assert_eq!(action, Ok(Some(KeyAction::ModeChange("insert".into()))));
    assert_eq!(machine.switch_mode("insert"), Ok(()));
    assert_eq!(machine.current_mode(), Some("insert".to_string()));
    assert_eq!(
        machine.make_input(plain(KeyCode::kVK_ANSI_A)),
        Err(KeymapError::KeyNotFound(sequence(vec![]), plain(KeyCode::kVK_ANSI_A)))
    );
    // The binding of the default mode is not in sight in the other mode.
    assert_eq!(
        machine.make_input(ctrl(KeyCode::kVK_ANSI_C)),
        Err(KeymapError::KeyNotFound(sequence(vec![]), ctrl(KeyCode::kVK_ANSI_C)))
    );
}

#[test]
fn register_in_an_unknown_mode_fails() {
    let mut machine = started();
    let r = machine.register(
        binding(vec![plain(KeyCode::kVK_ANSI_A)], KeyAction::Nop),
        Some("visual".to_string()),
    );
    assert_eq!(r, Err(KeymapError::NoSuchMode("visual".to_string())));
    machine.add_mode("visual".to_string());
    let r = machine.register(
        binding(vec![plain(KeyCode::kVK_ANSI_A)], KeyAction::Nop),
        Some("visual".to_string()),
    );
    assert_eq!(r, Ok(()));
    // Bound in the other mode only.
    assert!(machine.make_input(plain(KeyCode::kVK_ANSI_A)).is_err());
    machine.switch_mode("visual").unwrap();
    assert_eq!(machine.make_input(plain(KeyCode::kVK_ANSI_A)), Ok(Some(KeyAction::Nop)));
}

#[test]
fn register_without_chords_is_turned_down() {
    let mut machine = started();
    assert_eq!(
        machine.register(binding(vec![], KeyAction::Nop), None),
        Err(KeymapError::InvalidSequence)
    );
    // The mode is looked at first.
    assert_eq!(
        machine.register(binding(vec![], KeyAction::Nop), Some("visual".to_string())),
        Err(KeymapError::NoSuchMode("visual".to_string()))
    );
}

#[test]
fn unregister_hands_on_the_errors() {
    let mut machine = started();
    assert_eq!(
        machine.unregister(sequence(vec![plain(KeyCode::kVK_ANSI_A)]), Some("visual".to_string())),
        Err(KeymapError::NoSuchMode("visual".to_string()))
    );
    assert_eq!(machine.unregister(sequence(vec![]), None), Err(KeymapError::InvalidSequence));
    assert_eq!(
        machine.unregister(
            sequence(vec![plain(KeyCode::kVK_ANSI_A), plain(KeyCode::kVK_ANSI_B)]),
            None
        ),
        Err(KeymapError::KeyNotFound(sequence(vec![]), plain(KeyCode::kVK_ANSI_A)))
    );
    assert_eq!(machine.unregister(sequence(vec![plain(KeyCode::kVK_ANSI_A)]), None), Ok(()));
}

#[test]
fn reset_gives_back_what_was_entered_and_keeps_the_mode() {
    let mut machine = started();
    machine.add_mode("insert".to_string());
    machine
        .register(
            binding(vec![plain(KeyCode::kVK_Space), plain(KeyCode::kVK_ANSI_A)], KeyAction::Nop),
            Some("insert".to_string()),
        )
        .unwrap();
    machine.switch_mode("insert").unwrap();
    assert_eq!(machine.reset(), Some(sequence(vec![])));
    assert_eq!(machine.make_input(plain(KeyCode::kVK_Space)), Ok(None));
    assert_eq!(machine.reset(), Some(sequence(vec![plain(KeyCode::kVK_Space)])));
    assert_eq!(machine.current_mode(), Some("insert".to_string()));
    assert_eq!(machine.pending(), sequence(vec![]));
    // The sequence starts anew after the reset.
    assert_eq!(machine.make_input(plain(KeyCode::kVK_Space)), Ok(None));
    assert_eq!(machine.make_input(plain(KeyCode::kVK_ANSI_A)), Ok(Some(KeyAction::Nop)));
}

#[test]
fn switching_mode_throws_away_what_was_entered() {
    let mut machine = started();
    machine.add_mode("insert".to_string());
    machine
        .register(
            binding(vec![plain(KeyCode::kVK_Space), plain(KeyCode::kVK_ANSI_A)], KeyAction::Nop),
            None,
        )
        .unwrap();
    assert_eq!(machine.make_input(plain(KeyCode::kVK_Space)), Ok(None));
    machine.switch_mode("insert").unwrap();
    assert_eq!(machine.pending(), sequence(vec![]));
    machine.switch_mode("default").unwrap();
    assert_eq!(machine.pending(), sequence(vec![]));
    assert_eq!(machine.make_input(plain(KeyCode::kVK_Space)), Ok(None));
    assert_eq!(machine.make_input(plain(KeyCode::kVK_ANSI_A)), Ok(Some(KeyAction::Nop)));
}

#[test]
fn adding_a_mode_twice_keeps_its_bindings() {
    let mut machine = started();
    machine.add_mode("default".to_string());
    machine.register(binding(vec![plain(KeyCode::kVK_ANSI_A)], KeyAction::Nop), None).unwrap();
    machine.add_mode("default".to_string());
    assert_eq!(machine.make_input(plain(KeyCode::kVK_ANSI_A)), Ok(Some(KeyAction::Nop)));
}

#[test]
fn rebinding_while_a_sequence_is_entered_is_seen_by_the_next_key() {
    let mut machine = started();
    machine
        .register(
            binding(vec![plain(KeyCode::kVK_Space), plain(KeyCode::kVK_ANSI_A)], KeyAction::Nop),
            None,
        )
        .unwrap();
    assert_eq!(machine.make_input(plain(KeyCode::kVK_Space)), Ok(None));
    machine
        .unregister(sequence(vec![plain(KeyCode::kVK_Space), plain(KeyCode::kVK_ANSI_A)]), None)
        .unwrap();
    assert_eq!(
        machine.make_input(plain(KeyCode::kVK_ANSI_A)),
        Err(KeymapError::KeyNotFound(
            sequence(vec![plain(KeyCode::kVK_Space)]),
            plain(KeyCode::kVK_ANSI_A)
        ))
    );
}

#[test]
fn the_machine_knows_whether_anything_is_bound() {
    let mut machine = KeymapStateMachine::new();
    assert!(!machine.is_mapped());
    machine.add_mode("insert".to_string());
    assert!(!machine.is_mapped());
    machine
        .register(
            binding(vec![plain(KeyCode::kVK_ANSI_A)], KeyAction::Nop),
            Some("insert".to_string()),
        )
        .unwrap();
    assert!(machine.is_mapped());
    machine.unregister(sequence(vec![plain(KeyCode::kVK_ANSI_A)]), Some("insert".to_string())).unwrap();
    assert!(!machine.is_mapped());
    machine.register(binding(vec![plain(KeyCode::kVK_ANSI_A)], KeyAction::Nop), None).unwrap();
    assert!(machine.is_mapped());
}

#[test]
fn binding_then_unbinding_brings_back_a_binding_the_sequence_starts_with() {
    let mut machine = started();
    machine
        .register(binding(vec![plain(KeyCode::kVK_Space)], KeyAction::ShellCmd("x".into())), None)
        .unwrap();
    machine
        .register(
            binding(vec![plain(KeyCode::kVK_ANSI_B)], KeyAction::ShellCmd("b".into())),
            None,
        )
        .unwrap();
    machine
        .register(
            binding(
                vec![plain(KeyCode::kVK_Space), plain(KeyCode::kVK_ANSI_A)],
                KeyAction::ShellCmd("y".into()),
            ),
            None,
        )
        .unwrap();
    // While the longer binding is there, the shorter one awaits more.
    assert_eq!(machine.make_input(plain(KeyCode::kVK_Space)), Ok(None));
    assert_eq!(
        machine.make_input(plain(KeyCode::kVK_ANSI_A)),
        Ok(Some(KeyAction::ShellCmd("y".into())))
    );
    machine
        .unregister(sequence(vec![plain(KeyCode::kVK_Space), plain(KeyCode::kVK_ANSI_A)]), None)
        .unwrap();
    machine.reset();
    assert_eq!(
        machine.make_input(plain(KeyCode::kVK_Space)),
        Ok(Some(KeyAction::ShellCmd("x".into())))
    );
    assert_eq!(
        machine.make_input(plain(KeyCode::kVK_ANSI_B)),
        Ok(Some(KeyAction::ShellCmd("b".into())))
    );
    assert_eq!(
        machine.make_input(plain(KeyCode::kVK_ANSI_A)),
        Err(KeymapError::KeyNotFound(sequence(vec![]), plain(KeyCode::kVK_ANSI_A)))
    );
}
