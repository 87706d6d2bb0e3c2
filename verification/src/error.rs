use crate::keys::{Chord, KeySequence, KeySpec};
use vstd::prelude::*;

verus! {

/// An error of the matcher as a value of mathematics.
pub enum Failure {
    KeyNotFound(Seq<Chord>, Chord),
    KeyAlreadyBound(Seq<Chord>, Seq<char>),
    NoSuchMode(Seq<char>),
    InvalidSequence,
}

/// Why the matcher turned a request down. The caller can recover from each.
#[derive(Debug, PartialEq, Eq)]
pub enum KeymapError {
    /// No binding goes on with this chord after the chords entered so far.
    KeyNotFound(KeySequence, KeySpec),
    /// The sequence is bound in the mode already. A new binding takes the
    /// place of an old one, so no function of this crate gives this error; it
    /// is for callers that turn a second binding down themselves.
    KeyAlreadyBound(KeySequence, String),
    /// No mode of this name was ever made.
    NoSuchMode(String),
    /// A binding needs at least one chord.
    InvalidSequence,
}

impl View for KeymapError {
    type V = Failure;

    open spec fn view(&self) -> Failure {
        match self {
            KeymapError::KeyNotFound(entered, key) => Failure::KeyNotFound(entered@, key@),
            KeymapError::KeyAlreadyBound(sequence, mode) => Failure::KeyAlreadyBound(
                sequence@,
                mode@,
            ),
            KeymapError::NoSuchMode(mode) => Failure::NoSuchMode(mode@),
            KeymapError::InvalidSequence => Failure::InvalidSequence,
        }
    }
}

pub type KeymapResult<T> = Result<T, KeymapError>;

} // verus!
