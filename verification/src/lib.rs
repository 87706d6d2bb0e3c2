//! A modal matcher of key sequences, for a daemon that remaps the keyboard.
//!
//! A chord ([`KeySpec`]) is a key pressed with a set of modifiers held. A
//! sequence of chords ([`KeySequence`]) can be bound to an action
//! ([`KeyAction`]) in a mode. The bindings of a mode are kept in a tree
//! ([`ActionNode`]), the modes in a [`KeyMap`]. The matcher
//! ([`KeymapStateMachine`]) takes the chords one at a time as they are
//! captured, follows them through the tree of the mode it is in, and answers
//! with the action once a bound sequence has been entered. [`KeymapDaemon`] is
//! a second, flat keymap that looks a sequence up as a whole.
//!
//! Every function is verified against a contract over plain mathematics: a
//! chord is a set of modifiers with a key code, the bindings of a mode are a
//! map from sequences of chords to actions, and the matcher is a state with
//! such a map for each mode. The module `laws` states what follows for whole
//! sequences of calls.
//!
//! No function of the crate asks anything of its caller, and none panics.
//! What has to hold of the hidden parts of a tree, a keymap or the matcher is
//! kept as an invariant of the type.

pub mod bindings;
pub mod daemon;
pub mod error;
pub mod events;
pub mod flat;
pub mod keycode;
pub mod keys;
pub mod laws;
pub mod machine;
pub mod modes;
pub mod node;
pub mod order;
pub mod text;

pub use crate::daemon::{Command, Daemon};
pub use crate::error::{Failure, KeymapError, KeymapResult};
pub use crate::flat::KeymapDaemon;
pub use crate::keycode::KeyCode;
pub use crate::keys::{
    Action, Chord, EventFlags, KeyAction, KeyBinding, KeyModifier, KeySequence, KeySpec,
};
pub use crate::machine::KeymapStateMachine;
pub use crate::modes::KeyMap;
pub use crate::node::{ActionNode, Resolution};
pub use crate::order::Place;
