use crate::bindings::{
    bound, leaves_at, lemma_leaves_at_unique, outcome, unbound, Bindings, Outcome,
};
use crate::error::{Failure, KeymapError, KeymapResult};
use crate::keys::{Action, Chord, KeyAction, KeyBinding, KeySequence, KeySpec};
use crate::modes::{default_mode, in_order, mapped, KeyMap};
use crate::node::Resolution;
use vstd::prelude::*;

verus! {

/// Where the matcher stands, as a value of mathematics.
pub enum Position {
    /// No mode was chosen yet.
    Init,
    /// The chords of `cached` were entered in the mode `mode`, and more are
    /// awaited.
    AtRoot { mode: Seq<char>, cached: Seq<Chord> },
    /// The chords of `sequence` were entered in the mode `mode` and came to an
    /// action. The next chord starts a new sequence in that mode.
    AtLeaf { mode: Seq<char>, sequence: Seq<Chord> },
}

/// The matcher as a value of mathematics: where it stands, and the bindings
/// of each mode.
pub struct Engine {
    pub state: Position,
    pub modes: Map<Seq<char>, Bindings>,
}

/// What a call that hands a key to the matcher gives back, as a value of
/// mathematics.
pub type Answer = Result<Option<Action>, Failure>;

/// The name that a request means where it may leave the mode out.
pub open spec fn mode_or_default(mode: Option<Seq<char>>) -> Seq<char> {
    match mode {
        Some(name) => name,
        None => default_mode(),
    }
}

/// Whether a chord before the last of `s` leads nowhere in the bindings `b`.
pub open spec fn blocked(b: Bindings, s: Seq<Chord>) -> bool {
    exists|j: int| 0 <= j < s.len() - 1 && #[trigger] leaves_at(b, s, j)
}

/// The place of the first chord of `s` that leads nowhere in `b`.
pub open spec fn block(b: Bindings, s: Seq<Chord>) -> int {
    choose|j: int| 0 <= j < s.len() - 1 && #[trigger] leaves_at(b, s, j)
}

impl Engine {
    /// Whether the matcher is in order: the mode `default` is there, the
    /// bindings of every mode can be those of a mode, and the matcher stands
    /// in a mode that is there.
    pub open spec fn wf(self) -> bool {
        &&& in_order(self.modes)
        &&& match self.state {
            Position::Init => true,
            Position::AtRoot { mode, .. } => self.modes.contains_key(mode),
            Position::AtLeaf { mode, .. } => self.modes.contains_key(mode),
        }
    }

    /// The mode in which the next chord is looked up.
    pub open spec fn mode(self) -> Option<Seq<char>> {
        match self.state {
            Position::Init => None,
            Position::AtRoot { mode, .. } => Some(mode),
            Position::AtLeaf { mode, .. } => Some(mode),
        }
    }

    /// The chords entered so far that have not come to an action.
    pub open spec fn partial(self) -> Seq<Chord> {
        match self.state {
            Position::AtRoot { cached, .. } => cached,
            _ => Seq::<Chord>::empty(),
        }
    }

    /// The matcher at the start of the given mode, with nothing entered.
    pub open spec fn at_start(self, mode: Seq<char>) -> Engine {
        Engine {
            state: Position::AtRoot { mode, cached: Seq::<Chord>::empty() },
            modes: self.modes,
        }
    }

    /// What handing one chord to the matcher does, and what it answers. The
    /// chord of no modifier and no key is passed over. Before a mode was
    /// chosen no binding is in sight, so every other chord is not found.
    /// Otherwise the chord is taken together with the chords entered before:
    /// where they start a longer binding, they are kept and more is awaited;
    /// where they are bound and no longer binding starts with them, the
    /// action is the answer and a new sequence starts; where nothing starts
    /// with them, the chord is not found and the matcher stays as it was.
    pub open spec fn step(self, key: Chord) -> (Engine, Answer) {
        if key.is_sentinel() {
            (self, Ok(None))
        } else {
            match self.mode() {
                None => (self, Err(Failure::KeyNotFound(Seq::<Chord>::empty(), key))),
                Some(mode) => {
                    let entered = self.partial().push(key);
                    match outcome(self.modes[mode], entered) {
                        Outcome::Bound(action) => (
                            Engine {
                                state: Position::AtLeaf { mode, sequence: entered },
                                modes: self.modes,
                            },
                            Ok(Some(action)),
                        ),
                        Outcome::Pending => (
                            Engine {
                                state: Position::AtRoot { mode, cached: entered },
                                modes: self.modes,
                            },
                            Ok(None),
                        ),
                        Outcome::Unbound => (
                            self,
                            Err(Failure::KeyNotFound(self.partial(), key)),
                        ),
                    }
                },
            }
        }
    }

    /// What a reset does, and the chords it throws away: the matcher goes back
    /// to the start of the mode it is in, or of `default` where none was
    /// chosen yet.
    pub open spec fn reset(self) -> (Engine, Option<Seq<Chord>>) {
        match self.state {
            Position::Init => (self.at_start(default_mode()), None),
            Position::AtRoot { mode, cached } => (self.at_start(mode), Some(cached)),
            Position::AtLeaf { mode, .. } => (self.at_start(mode), None),
        }
    }

    /// What the request to go over to the mode `name` does, and its answer.
    pub open spec fn switch_mode(self, name: Seq<char>) -> (Engine, Result<(), Failure>) {
        if self.modes.contains_key(name) {
            (self.at_start(name), Ok(()))
        } else {
            (self, Err(Failure::NoSuchMode(name)))
        }
    }

    /// What the request to bind `s` to `a` in a mode does, and its answer.
    pub open spec fn register(self, s: Seq<Chord>, a: Action, mode: Option<Seq<char>>) -> (
        Engine,
        Result<(), Failure>,
    ) {
        let name = mode_or_default(mode);
        if !self.modes.contains_key(name) {
            (self, Err(Failure::NoSuchMode(name)))
        } else if s.len() == 0 {
            (self, Err(Failure::InvalidSequence))
        } else {
            (
                Engine {
                    state: self.state,
                    modes: self.modes.insert(name, bound(self.modes[name], s, a)),
                },
                Ok(()),
            )
        }
    }

    /// What the request to unbind `s` in a mode does, and its answer.
    pub open spec fn unregister(self, s: Seq<Chord>, mode: Option<Seq<char>>) -> (
        Engine,
        Result<(), Failure>,
    ) {
        let name = mode_or_default(mode);
        if !self.modes.contains_key(name) {
            (self, Err(Failure::NoSuchMode(name)))
        } else if s.len() == 0 {
            (self, Err(Failure::InvalidSequence))
        } else if blocked(self.modes[name], s) {
            let j = block(self.modes[name], s);
            (self, Err(Failure::KeyNotFound(s.take(j), s[j])))
        } else {
            (
                Engine {
                    state: self.state,
                    modes: self.modes.insert(name, unbound(self.modes[name], s)),
                },
                Ok(()),
            )
        }
    }
}

/// Where the matcher stands.
#[derive(Debug)]
enum State {
    Init,
    AtRoot { mode: String, cached: KeySequence },
    AtLeaf { mode: String, sequence: KeySequence },
}

impl View for State {
    type V = Position;

    closed spec fn view(&self) -> Position {
        match self {
            State::Init => Position::Init,
            State::AtRoot { mode, cached } => Position::AtRoot { mode: mode@, cached: cached@ },
            State::AtLeaf { mode, sequence } => Position::AtLeaf {
                mode: mode@,
                sequence: sequence@,
            },
        }
    }
}

/// The answer of the matcher to a key, with text and keys taken by their
/// views.
pub open spec fn answer_view(r: KeymapResult<Option<KeyAction>>) -> Answer {
    match r {
        Ok(Some(action)) => Ok(Some(action@)),
        Ok(None) => Ok(None),
        Err(e) => Err(e@),
    }
}

/// The answer to a request that gives nothing back but may fail.
pub open spec fn done_view(r: KeymapResult<()>) -> Result<(), Failure> {
    match r {
        Ok(()) => Ok(()),
        Err(e) => Err(e@),
    }
}

/// The chords that a reset threw away.
pub open spec fn dropped_view(r: Option<KeySequence>) -> Option<Seq<Chord>> {
    match r {
        Some(sequence) => Some(sequence@),
        None => None,
    }
}

/// The name of a mode in a request that may leave it out.
pub open spec fn name_view(mode: Option<String>) -> Option<Seq<char>> {
    match mode {
        Some(name) => Some(name@),
        None => None,
    }
}

/// The matcher: it takes chords one at a time, follows them through the
/// bindings of the mode it is in, and answers with the action once a bound
/// sequence has been entered.
#[derive(Debug)]
pub struct KeymapStateMachine {
    state: State,
    keymap: KeyMap,
}

impl View for KeymapStateMachine {
    type V = Engine;

    closed spec fn view(&self) -> Engine {
        Engine { state: self.state@, modes: self.keymap@ }
    }
}

impl KeymapStateMachine {
    /// The matcher is in order at all times: the mode `default` is there, the
    /// bindings of every mode can be those of a mode, and the matcher stands
    /// in a mode that is there.
    #[verifier::type_invariant]
    pub open spec fn inv(self) -> bool {
        self@.wf()
    }

    /// A matcher with the mode `default`, no binding, and no mode chosen.
    pub fn new() -> (machine: KeymapStateMachine)
        ensures
            machine@.wf(),
            machine@.state == Position::Init,
            machine@.modes == Map::<Seq<char>, Bindings>::empty().insert(
                default_mode(),
                Map::<Seq<Chord>, Action>::empty(),
            ),
    {
        KeymapStateMachine { state: State::Init, keymap: KeyMap::new() }
    }

    /// Takes the state out of the matcher, to work on it. The matcher is left
    /// with no mode chosen.
    fn take_state(&mut self) -> (state: State)
        ensures
            state == old(self).state,
            old(self)@.wf(),
            final(self).state@ == Position::Init,
            final(self).keymap == old(self).keymap,
    {
        proof {
            use_type_invariant(&*self);
        }
        let mut state = State::Init;
        core::mem::swap(&mut self.state, &mut state);
        state
    }

    /// Takes the keymap out of a matcher that has no mode chosen, to work on
    /// it. The matcher is left with a keymap of no binding.
    fn take_keymap(&mut self) -> (keymap: KeyMap)
        requires
            old(self).state@ == Position::Init,
        ensures
            keymap == old(self).keymap,
            in_order(keymap@),
            final(self).state == old(self).state,
    {
        proof {
            use_type_invariant(&*self);
        }
        let mut keymap = KeyMap::new();
        core::mem::swap(&mut self.keymap, &mut keymap);
        keymap
    }

    /// Makes a mode of this name, with no binding, unless there is one.
    pub fn add_mode(&mut self, mode: String)
        ensures
            final(self)@.wf(),
            final(self)@.state == old(self)@.state,
            final(self)@.modes == if old(self)@.modes.contains_key(mode@) {
                old(self)@.modes
            } else {
                old(self)@.modes.insert(mode@, Map::<Seq<Chord>, Action>::empty())
            },
    {
        let state = self.take_state();
        let mut keymap = self.take_keymap();
        keymap.add_mode(mode);
        self.keymap = keymap;
        self.state = state;
    }

    /// The mode in which the next chord is looked up, if one was chosen.
    pub fn current_mode(&self) -> (mode: Option<String>)
        ensures
            self@.wf(),
            name_view(mode) == self@.mode(),
    {
        proof {
            use_type_invariant(self);
        }
        match &self.state {
            State::Init => None,
            State::AtRoot { mode, .. } => Some(mode.clone()),
            State::AtLeaf { mode, .. } => Some(mode.clone()),
        }
    }

    /// The chords entered so far that have not come to an action.
    pub fn pending(&self) -> (sequence: KeySequence)
        ensures
            self@.wf(),
            sequence@ == self@.partial(),
    {
        proof {
            use_type_invariant(self);
        }
        match &self.state {
            State::AtRoot { cached, .. } => cached.clone(),
            _ => KeySequence::new(),
        }
    }

    /// Whether anything is bound in any mode.
    pub fn is_mapped(&self) -> (b: bool)
        ensures
            self@.wf(),
            b == mapped(self@.modes),
    {
        proof {
            use_type_invariant(self);
        }
        self.keymap.is_mapped()
    }

    /// Binds a key sequence to an action in the named mode, or in `default`
    /// where no mode is named. The mode has to be there, and the sequence
    /// needs a chord.
    pub fn register(&mut self, binding: KeyBinding, mode: Option<String>) -> (r: KeymapResult<()>)
        ensures
            final(self)@.wf(),
            (final(self)@, done_view(r)) == old(self)@.register(
                binding.sequences@,
                binding.action@,
                name_view(mode),
            ),
    {
        let name = match mode {
            Some(name) => name,
            None => "default".to_owned(),
        };
        let state = self.take_state();
        let mut keymap = self.take_keymap();
        let r = if keymap.contains_mode(name.as_str()) {
            keymap.bind(binding, name)
        } else {
            Err(KeymapError::NoSuchMode(name))
        };
        self.keymap = keymap;
        self.state = state;
        r
    }

    /// Unbinds a key sequence, and every binding that starts with it, in the
    /// named mode, or in `default` where no mode is named. A binding with
    /// which the sequence starts stays, and gives its action again once
    /// nothing longer overlays it.
    pub fn unregister(&mut self, sequences: KeySequence, mode: Option<String>) -> (r:
        KeymapResult<()>)
        ensures
            final(self)@.wf(),
            (final(self)@, done_view(r)) == old(self)@.unregister(sequences@, name_view(mode)),
    {
        let name = match mode {
            Some(name) => name,
            None => "default".to_owned(),
        };
        let state = self.take_state();
        let mut keymap = self.take_keymap();
        let ghost b = keymap@[name@];
        let r = keymap.unbind(sequences, name);
        proof {
            match &r {
                Ok(()) => {
                    if blocked(b, sequences@) {
                        let j = block(b, sequences@);
                        assert(leaves_at(b, sequences@, j));
                        assert(crate::bindings::reaches(b, sequences@.take(j + 1)));
                    }
                },
                Err(e) => {
                    if old(self)@.modes.contains_key(name@) && sequences@.len() > 0 {
                        let i = choose|i: int|
                            0 <= i < sequences@.len() - 1 && #[trigger] leaves_at(
                                b,
                                sequences@,
                                i,
                            ) && e@ == Failure::KeyNotFound(sequences@.take(i), sequences@[i]);
                        lemma_leaves_at_unique(b, sequences@, i, block(b, sequences@));
                    }
                },
            }
        }
        self.keymap = keymap;
        self.state = state;
        r
    }

    /// Throws away the chords entered so far and goes back to the start of
    /// the mode the matcher is in, or of `default` where none was chosen yet.
    /// Gives back the chords thrown away, if more were awaited.
    pub fn reset(&mut self) -> (dropped: Option<KeySequence>)
        ensures
            final(self)@.wf(),
            (final(self)@, dropped_view(dropped)) == old(self)@.reset(),
    {
        match self.take_state() {
            State::Init => {
                self.state = State::AtRoot {
                    mode: "default".to_owned(),
                    cached: KeySequence::new(),
                };
                None
            },
            State::AtRoot { mode, cached } => {
                self.state = State::AtRoot { mode, cached: KeySequence::new() };
                Some(cached)
            },
            State::AtLeaf { mode, .. } => {
                self.state = State::AtRoot { mode, cached: KeySequence::new() };
                None
            },
        }
    }

    /// Goes over to the mode of the given name, at its start. What was entered
    /// in the old mode is thrown away. Where there is no mode of that name,
    /// nothing changes.
    pub fn switch_mode(&mut self, mode: &str) -> (r: KeymapResult<()>)
        ensures
            final(self)@.wf(),
            (final(self)@, done_view(r)) == old(self)@.switch_mode(mode@),
            r is Err ==> final(self)@ == old(self)@,
    {
        proof {
            use_type_invariant(&*self);
        }
        let name = mode.to_owned();
        if self.keymap.contains_mode(mode) {
            self.state = State::AtRoot { mode: name, cached: KeySequence::new() };
            Ok(())
        } else {
            Err(KeymapError::NoSuchMode(name))
        }
    }

    /// Takes one chord and answers with the action, if the chords entered so
    /// far are bound to one.
    pub fn make_input(&mut self, key: KeySpec) -> (r: KeymapResult<Option<KeyAction>>)
        ensures
            final(self)@.wf(),
            (final(self)@, answer_view(r)) == old(self)@.step(key@),
            key@.is_sentinel() ==> final(self)@ == old(self)@ && r == Ok::<
                Option<KeyAction>,
                KeymapError,
            >(None),
    {
        if key.is_sentinel() {
            proof {
                use_type_invariant(&*self);
            }
            return Ok(None);
        }
        match self.take_state() {
            State::Init => Err(KeymapError::KeyNotFound(KeySequence::new(), key)),
            State::AtRoot { mode, cached } => {
                let mut entered = cached;
                entered.push(key);
                match self.look_up(&mode, &entered) {
                    Resolution::Bound(action) => {
                        self.state = State::AtLeaf { mode, sequence: entered };
                        Ok(Some(action))
                    },
                    Resolution::Pending => {
                        self.state = State::AtRoot { mode, cached: entered };
                        Ok(None)
                    },
                    Resolution::Unbound => {
                        let key = entered.pop().unwrap();
                        proof {
                            assert(entered@ =~= old(self)@.partial());
                        }
                        let before = entered.clone();
                        self.state = State::AtRoot { mode, cached: entered };
                        Err(KeymapError::KeyNotFound(before, key))
                    },
                }
            },
            State::AtLeaf { mode, sequence } => {
                let mut entered = KeySequence::new();
                entered.push(key);
                match self.look_up(&mode, &entered) {
                    Resolution::Bound(action) => {
                        self.state = State::AtLeaf { mode, sequence: entered };
                        Ok(Some(action))
                    },
                    Resolution::Pending => {
                        self.state = State::AtRoot { mode, cached: entered };
                        Ok(None)
                    },
                    Resolution::Unbound => {
                        let key = entered.pop().unwrap();
                        proof {
                            assert(entered@ =~= Seq::<Chord>::empty());
                        }
                        self.state = State::AtLeaf { mode, sequence };
                        Err(KeymapError::KeyNotFound(entered, key))
                    },
                }
            },
        }
    }

    /// What entering the chords of `entered` comes to in the mode `mode`.
    fn look_up(&self, mode: &String, entered: &KeySequence) -> (m: Resolution)
        requires
            self.keymap@.contains_key(mode@),
        ensures
            m@ == outcome(self.keymap@[mode@], entered@),
            in_order(self.keymap@),
    {
        match self.keymap.get_mode(mode.as_str()) {
            Ok(root) => root.resolve(entered),
            Err(_) => Resolution::Unbound,
        }
    }
}

} // verus!
