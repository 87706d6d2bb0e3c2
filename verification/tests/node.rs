use keymap::{
    ActionNode, KeyAction, KeyBinding, KeyCode, KeyModifier, KeySequence, KeySpec, KeymapError,
    Resolution,
};

fn plain(code: KeyCode) -> KeySpec {
    KeySpec(vec![], code)
}

fn with(modifiers: Vec<KeyModifier>, code: KeyCode) -> KeySpec {
    KeySpec(modifiers, code)
}

fn sequence(keys: Vec<KeySpec>) -> KeySequence {
    KeySequence(keys)
}

fn binding(keys: Vec<KeySpec>, action: KeyAction) -> KeyBinding {
    KeyBinding { sequences: KeySequence(keys), action }
}

fn root() -> ActionNode {
    ActionNode::default()
}

#[test]
fn test() {
    let mut root = ActionNode::new(KeySpec(vec![], KeyCode::kVK_ANSI_A), KeyAction::Nop);

    root.bind(KeyBinding {
        sequences: KeySequence(vec![KeySpec(vec![], KeyCode::kVK_ANSI_B)]),
        action: KeyAction::Nop,
    })
    .unwrap();

    root.bind(KeyBinding {
        sequences: KeySequence(vec![
            KeySpec(vec![], KeyCode::kVK_Space),
            KeySpec(vec![], KeyCode::kVK_ANSI_C),
        ]),
        action: KeyAction::Nop,
    })
    .unwrap();

    println!("{:#?}", root);
}

#[test]
fn new_node_is_a_leaf_with_its_key_and_action() {
    let node = ActionNode::new(plain(KeyCode::kVK_ANSI_A), KeyAction::ShellCmd("ls".into()));
    assert!(node.is_leaf());
    assert_eq!(node.key, plain(KeyCode::kVK_ANSI_A));
    assert_eq!(node.action, KeyAction::ShellCmd("ls".into()));
}

#[test]
fn default_node_has_the_sentinel_key_and_no_action() {
    let node = ActionNode::default();
    assert!(node.is_leaf());
    assert!(node.key.is_sentinel());
    assert_eq!(node.action, KeyAction::Nop);
}

#[test]
fn bind_makes_the_nodes_on_the_way() {
    let mut root = root();
    root.bind(binding(
        vec![plain(KeyCode::kVK_Space), plain(KeyCode::kVK_ANSI_C)],
        KeyAction::ShellCmd("date".into()),
    ))
    .unwrap();
    assert!(!root.is_leaf());

    let space = root.get(&plain(KeyCode::kVK_Space)).unwrap();
    assert!(!space.is_leaf());
    assert_eq!(space.key, plain(KeyCode::kVK_Space));
    assert_eq!(space.action, KeyAction::Nop);

    let c = space.get(&plain(KeyCode::kVK_ANSI_C)).unwrap();
    assert!(c.is_leaf());
    assert_eq!(c.key, plain(KeyCode::kVK_ANSI_C));
    assert_eq!(c.action, KeyAction::ShellCmd("date".into()));
}

#[test]
fn bind_without_chords_is_turned_down() {
    let mut root = root();
    let r = root.bind(binding(vec![], KeyAction::Nop));
    assert_eq!(r, Err(KeymapError::InvalidSequence));
    assert!(root.is_leaf());
}

#[test]
fn get_of_a_missing_key_reports_the_key() {
    let mut root = root();
    root.bind(binding(vec![plain(KeyCode::kVK_ANSI_A)], KeyAction::Nop)).unwrap();
    let r = root.get(&plain(KeyCode::kVK_ANSI_B));
    match r {
        Err(KeymapError::KeyNotFound(entered, key)) => {
            assert_eq!(entered, sequence(vec![]));
            assert_eq!(key, plain(KeyCode::kVK_ANSI_B));
        }
        _ => panic!("the key is not bound"),
    }
}

#[test]
fn get_tells_chords_apart_by_their_modifiers() {
    let mut root = root();
    root.bind(binding(
        vec![with(vec![KeyModifier::Ctrl], KeyCode::kVK_ANSI_C)],
        KeyAction::ShellCmd("one".into()),
    ))
    .unwrap();
    root.bind(binding(vec![plain(KeyCode::kVK_ANSI_C)], KeyAction::ShellCmd("two".into())))
        .unwrap();
    assert_eq!(
        root.get(&with(vec![KeyModifier::Ctrl], KeyCode::kVK_ANSI_C)).unwrap().action,
        KeyAction::ShellCmd("one".into())
    );
    assert_eq!(
        root.get(&plain(KeyCode::kVK_ANSI_C)).unwrap().action,
        KeyAction::ShellCmd("two".into())
    );
    assert!(root.get(&with(vec![KeyModifier::Shift], KeyCode::kVK_ANSI_C)).is_err());
}

#[test]
fn rebinding_a_sequence_replaces_the_old_binding() {
    let mut root = root();
    let keys = || vec![plain(KeyCode::kVK_Space), plain(KeyCode::kVK_ANSI_A)];
    root.bind(binding(keys(), KeyAction::ShellCmd("old".into()))).unwrap();
    root.bind(binding(keys(), KeyAction::ShellCmd("new".into()))).unwrap();
    assert_eq!(
        root.resolve(&sequence(keys())),
        Resolution::Bound(KeyAction::ShellCmd("new".into()))
    );
    // Unbinding once leaves nothing behind: there was no second child.
    root.unbind(sequence(keys())).unwrap();
    assert_eq!(root.resolve(&sequence(keys())), Resolution::Unbound);
    assert!(root.is_leaf());
}

#[test]
fn binding_a_longer_sequence_takes_the_place_of_its_start() {
    let mut root = root();
    root.bind(binding(vec![plain(KeyCode::kVK_Space)], KeyAction::ShellCmd("short".into())))
        .unwrap();
    root.bind(binding(
        vec![plain(KeyCode::kVK_Space), plain(KeyCode::kVK_ANSI_A)],
        KeyAction::ShellCmd("long".into()),
    ))
    .unwrap();
    assert_eq!(root.resolve(&sequence(vec![plain(KeyCode::kVK_Space)])), Resolution::Pending);
    assert_eq!(
        root.resolve(&sequence(vec![plain(KeyCode::kVK_Space), plain(KeyCode::kVK_ANSI_A)])),
        Resolution::Bound(KeyAction::ShellCmd("long".into()))
    );
}

#[test]
fn binding_a_start_takes_the_place_of_what_went_on_from_it() {
    let mut root = root();
    root.bind(binding(
        vec![plain(KeyCode::kVK_Space), plain(KeyCode::kVK_ANSI_A)],
        KeyAction::ShellCmd("a".into()),
    ))
    .unwrap();
    root.bind(binding(
        vec![plain(KeyCode::kVK_Space), plain(KeyCode::kVK_ANSI_B)],
        KeyAction::ShellCmd("b".into()),
    ))
    .unwrap();
    root.bind(binding(vec![plain(KeyCode::kVK_Space)], KeyAction::ShellCmd("short".into())))
        .unwrap();
    assert_eq!(
        root.resolve(&sequence(vec![plain(KeyCode::kVK_Space)])),
        Resolution::Bound(KeyAction::ShellCmd("short".into()))
    );
    assert_eq!(
        root.resolve(&sequence(vec![plain(KeyCode::kVK_Space), plain(KeyCode::kVK_ANSI_A)])),
        Resolution::Unbound
    );
    assert_eq!(
        root.resolve(&sequence(vec![plain(KeyCode::kVK_Space), plain(KeyCode::kVK_ANSI_B)])),
        Resolution::Unbound
    );
}

#[test]
fn unbind_takes_the_binding_and_the_empty_nodes_away() {
    let mut root = root();
    let keys = || vec![plain(KeyCode::kVK_Space), plain(KeyCode::kVK_ANSI_A)];
    root.bind(binding(keys(), KeyAction::ShellCmd("a".into()))).unwrap();
    assert_eq!(root.unbind(sequence(keys())), Ok(()));
    assert!(root.is_leaf());
    assert!(root.get(&plain(KeyCode::kVK_Space)).is_err());
}

#[test]
fn unbind_keeps_the_nodes_that_lead_elsewhere() {
    let mut root = root();
    root.bind(binding(
        vec![plain(KeyCode::kVK_Space), plain(KeyCode::kVK_ANSI_A)],
        KeyAction::ShellCmd("a".into()),
    ))
    .unwrap();
    root.bind(binding(
        vec![plain(KeyCode::kVK_Space), plain(KeyCode::kVK_ANSI_B)],
        KeyAction::ShellCmd("b".into()),
    ))
    .unwrap();
    root.unbind(sequence(vec![plain(KeyCode::kVK_Space), plain(KeyCode::kVK_ANSI_A)])).unwrap();
    assert_eq!(root.resolve(&sequence(vec![plain(KeyCode::kVK_Space)])), Resolution::Pending);
    assert_eq!(
        root.resolve(&sequence(vec![plain(KeyCode::kVK_Space), plain(KeyCode::kVK_ANSI_A)])),
        Resolution::Unbound
    );
    assert_eq!(
        root.resolve(&sequence(vec![plain(KeyCode::kVK_Space), plain(KeyCode::kVK_ANSI_B)])),
        Resolution::Bound(KeyAction::ShellCmd("b".into()))
    );
}

#[test]
fn unbind_of_a_start_takes_everything_below_it_away() {
    let mut root = root();
    root.bind(binding(
        vec![plain(KeyCode::kVK_Space), plain(KeyCode::kVK_ANSI_A)],
        KeyAction::ShellCmd("a".into()),
    ))
    .unwrap();
    root.bind(binding(
        vec![plain(KeyCode::kVK_Space), plain(KeyCode::kVK_ANSI_B)],
        KeyAction::ShellCmd("b".into()),
    ))
    .unwrap();
    root.bind(binding(vec![plain(KeyCode::kVK_ANSI_Q)], KeyAction::Nop)).unwrap();
    root.unbind(sequence(vec![plain(KeyCode::kVK_Space)])).unwrap();
    assert_eq!(root.resolve(&sequence(vec![plain(KeyCode::kVK_Space)])), Resolution::Unbound);
    assert_eq!(
        root.resolve(&sequence(vec![plain(KeyCode::kVK_ANSI_Q)])),
        Resolution::Bound(KeyAction::Nop)
    );
}

#[test]
fn unbind_reports_the_first_chord_that_leads_nowhere() {
    let mut root = root();
    root.bind(binding(
        vec![plain(KeyCode::kVK_Space), plain(KeyCode::kVK_ANSI_A), plain(KeyCode::kVK_ANSI_B)],
        KeyAction::Nop,
    ))
    .unwrap();
    let r = root.unbind(sequence(vec![
        plain(KeyCode::kVK_Space),
        plain(KeyCode::kVK_ANSI_X),
        plain(KeyCode::kVK_ANSI_B),
    ]));
    assert_eq!(
        r,
        Err(KeymapError::KeyNotFound(
            sequence(vec![plain(KeyCode::kVK_Space)]),
            plain(KeyCode::kVK_ANSI_X)
        ))
    );
    let r = root.unbind(sequence(vec![plain(KeyCode::kVK_ANSI_X), plain(KeyCode::kVK_ANSI_B)]));
    assert_eq!(r, Err(KeymapError::KeyNotFound(sequence(vec![]), plain(KeyCode::kVK_ANSI_X))));
    // Nothing was changed by the failed requests.
    assert_eq!(
        root.resolve(&sequence(vec![
            plain(KeyCode::kVK_Space),
            plain(KeyCode::kVK_ANSI_A),
            plain(KeyCode::kVK_ANSI_B)
        ])),
        Resolution::Bound(KeyAction::Nop)
    );
}

#[test]
fn unbind_of_a_last_chord_that_is_not_there_changes_nothing() {
    let mut root = root();
    root.bind(binding(
        vec![plain(KeyCode::kVK_Space), plain(KeyCode::kVK_ANSI_A)],
        KeyAction::Nop,
    ))
    .unwrap();
    assert_eq!(
        root.unbind(sequence(vec![plain(KeyCode::kVK_Space), plain(KeyCode::kVK_ANSI_B)])),
        Ok(())
    );
    assert_eq!(root.unbind(sequence(vec![plain(KeyCode::kVK_ANSI_Z)])), Ok(()));
    assert_eq!(
        root.resolve(&sequence(vec![plain(KeyCode::kVK_Space), plain(KeyCode::kVK_ANSI_A)])),
        Resolution::Bound(KeyAction::Nop)
    );
}

#[test]
fn unbind_below_a_leaf_leaves_the_leaf() {
    let mut root = root();
    root.bind(binding(vec![plain(KeyCode::kVK_Space)], KeyAction::ShellCmd("s".into())))
        .unwrap();
    assert_eq!(
        root.unbind(sequence(vec![plain(KeyCode::kVK_Space), plain(KeyCode::kVK_ANSI_A)])),
        Ok(())
    );
    assert_eq!(
        root.resolve(&sequence(vec![plain(KeyCode::kVK_Space)])),
        Resolution::Bound(KeyAction::ShellCmd("s".into()))
    );
}

#[test]
fn unbind_without_chords_is_turned_down() {
    let mut root = root();
    assert_eq!(root.unbind(sequence(vec![])), Err(KeymapError::InvalidSequence));
}

#[test]
fn lookup_follows_the_chords() {
    let mut root = root();
    root.bind(binding(
        vec![plain(KeyCode::kVK_Space), plain(KeyCode::kVK_ANSI_A)],
        KeyAction::ShellCmd("a".into()),
    ))
    .unwrap();
    assert!(root.lookup(&sequence(vec![])).is_some());
    let leaf = root
        .lookup(&sequence(vec![plain(KeyCode::kVK_Space), plain(KeyCode::kVK_ANSI_A)]))
        .unwrap();
    assert!(leaf.is_leaf());
    assert_eq!(leaf.action, KeyAction::ShellCmd("a".into()));
    assert!(root.lookup(&sequence(vec![plain(KeyCode::kVK_ANSI_A)])).is_none());
    assert!(root
        .lookup(&sequence(vec![
            plain(KeyCode::kVK_Space),
            plain(KeyCode::kVK_ANSI_A),
            plain(KeyCode::kVK_ANSI_A)
        ]))
        .is_none());
}

#[test]
fn resolve_of_no_chords_says_whether_anything_is_bound() {
    let mut root = root();
    assert_eq!(root.resolve(&sequence(vec![])), Resolution::Unbound);
    root.bind(binding(vec![plain(KeyCode::kVK_ANSI_A)], KeyAction::Nop)).unwrap();
    assert_eq!(root.resolve(&sequence(vec![])), Resolution::Pending);
}

fn place_of(text: &str, name: &str) -> usize {
    match text.find(name) {
        Some(i) => i,
        None => panic!("{} is not in {}", name, text),
    }
}

#[test]
fn children_stand_in_the_order_in_which_they_were_made() {
    let mut root = root();
    root.bind(binding(vec![plain(KeyCode::kVK_ANSI_B)], KeyAction::Nop)).unwrap();
    root.bind(binding(
        vec![plain(KeyCode::kVK_Space), plain(KeyCode::kVK_ANSI_C)],
        KeyAction::Nop,
    ))
    .unwrap();
    root.bind(binding(vec![plain(KeyCode::kVK_ANSI_Q)], KeyAction::Nop)).unwrap();
    let text = format!("{:?}", root);
    assert!(place_of(&text, "kVK_ANSI_B") < place_of(&text, "kVK_Space"));
    assert!(place_of(&text, "kVK_Space") < place_of(&text, "kVK_ANSI_C"));
    assert!(place_of(&text, "kVK_ANSI_C") < place_of(&text, "kVK_ANSI_Q"));

    // A binding that takes the place of another keeps the place of the node.
    root.bind(binding(vec![plain(KeyCode::kVK_ANSI_B)], KeyAction::ShellCmd("b".into()))).unwrap();
    let text = format!("{:?}", root);
    assert!(place_of(&text, "kVK_ANSI_B") < place_of(&text, "kVK_Space"));
    assert!(place_of(&text, "kVK_Space") < place_of(&text, "kVK_ANSI_Q"));

    // The nodes that stay keep their order when one goes.
    root.unbind(sequence(vec![plain(KeyCode::kVK_Space), plain(KeyCode::kVK_ANSI_C)])).unwrap();
    let text = format!("{:?}", root);
    assert!(!text.contains("kVK_Space"));
    assert!(!text.contains("kVK_ANSI_C"));
    assert!(place_of(&text, "kVK_ANSI_B") < place_of(&text, "kVK_ANSI_Q"));
}

#[test]
fn a_longer_binding_overlays_a_shorter_one_and_unbinding_brings_it_back() {
    let mut root = root();
    root.bind(binding(vec![plain(KeyCode::kVK_Space)], KeyAction::ShellCmd("x".into()))).unwrap();
    root.bind(binding(
        vec![plain(KeyCode::kVK_Space), plain(KeyCode::kVK_ANSI_A)],
        KeyAction::ShellCmd("y".into()),
    ))
    .unwrap();
    {
        let space = root.get(&plain(KeyCode::kVK_Space)).unwrap();
        assert!(!space.is_leaf());
        assert_eq!(space.action, KeyAction::ShellCmd("x".into()));
    }
    assert_eq!(root.resolve(&sequence(vec![plain(KeyCode::kVK_Space)])), Resolution::Pending);
    assert_eq!(
        root.resolve(&sequence(vec![plain(KeyCode::kVK_Space), plain(KeyCode::kVK_ANSI_A)])),
        Resolution::Bound(KeyAction::ShellCmd("y".into()))
    );

    root.unbind(sequence(vec![plain(KeyCode::kVK_Space), plain(KeyCode::kVK_ANSI_A)])).unwrap();
    let space = root.get(&plain(KeyCode::kVK_Space)).unwrap();
    assert!(space.is_leaf());
    assert_eq!(space.action, KeyAction::ShellCmd("x".into()));
    assert_eq!(
        root.resolve(&sequence(vec![plain(KeyCode::kVK_Space)])),
        Resolution::Bound(KeyAction::ShellCmd("x".into()))
    );
    assert_eq!(
        root.resolve(&sequence(vec![plain(KeyCode::kVK_Space), plain(KeyCode::kVK_ANSI_A)])),
        Resolution::Unbound
    );
}

#[test]
fn an_overlaid_binding_to_no_action_comes_back_too() {
    let mut root = root();
    root.bind(binding(vec![plain(KeyCode::kVK_Space)], KeyAction::Nop)).unwrap();
    root.bind(binding(
        vec![plain(KeyCode::kVK_Space), plain(KeyCode::kVK_ANSI_A), plain(KeyCode::kVK_ANSI_B)],
        KeyAction::ShellCmd("y".into()),
    ))
    .unwrap();
    root.unbind(sequence(vec![
        plain(KeyCode::kVK_Space),
        plain(KeyCode::kVK_ANSI_A),
        plain(KeyCode::kVK_ANSI_B),
    ]))
    .unwrap();
    assert_eq!(
        root.resolve(&sequence(vec![plain(KeyCode::kVK_Space)])),
        Resolution::Bound(KeyAction::Nop)
    );
    // The step between the two, made for the longer binding, is gone.
    let space = root.get(&plain(KeyCode::kVK_Space)).unwrap();
    assert!(space.is_leaf());
}

#[test]
fn steps_made_on_the_way_go_when_the_binding_goes() {
    let mut root = root();
    root.bind(binding(
        vec![plain(KeyCode::kVK_Space), plain(KeyCode::kVK_ANSI_A)],
        KeyAction::ShellCmd("y".into()),
    ))
    .unwrap();
    root.unbind(sequence(vec![plain(KeyCode::kVK_Space), plain(KeyCode::kVK_ANSI_A)])).unwrap();
    assert!(root.is_leaf());
    assert!(root.get(&plain(KeyCode::kVK_Space)).is_err());
    assert_eq!(root.resolve(&sequence(vec![plain(KeyCode::kVK_Space)])), Resolution::Unbound);
}

#[test]
fn binding_a_start_of_a_binding_takes_its_place() {
    let mut root = root();
    root.bind(binding(
        vec![plain(KeyCode::kVK_Space), plain(KeyCode::kVK_ANSI_A)],
        KeyAction::ShellCmd("y".into()),
    ))
    .unwrap();
    root.bind(binding(vec![plain(KeyCode::kVK_Space)], KeyAction::ShellCmd("x".into()))).unwrap();
    assert_eq!(
        root.resolve(&sequence(vec![plain(KeyCode::kVK_Space)])),
        Resolution::Bound(KeyAction::ShellCmd("x".into()))
    );
    assert_eq!(
        root.resolve(&sequence(vec![plain(KeyCode::kVK_Space), plain(KeyCode::kVK_ANSI_A)])),
        Resolution::Unbound
    );
}
