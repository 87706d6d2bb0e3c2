use crate::keycode::KeyCode;
use vstd::prelude::*;

verus! {

/// A modifier that can be held down while a key is pressed. The variants are
/// declared in the order in which a set of modifiers is written down.
#[derive(Clone, Copy, PartialEq, Eq, Debug, PartialOrd, Ord, Hash, Structural)]
pub enum KeyModifier {
    Ctrl,
    Shift,
    Alt,
    Cmd,
    Fn,
}

/// The modifier flags of one keyboard event, as the event source reports them:
/// one flag for each modifier this library knows.
#[derive(Clone, Copy, PartialEq, Eq, Debug, Structural)]
pub struct EventFlags {
    pub control: bool,
    pub shift: bool,
    pub alternate: bool,
    pub command: bool,
    pub secondary_fn: bool,
}

impl EventFlags {
    /// Whether the flag of the modifier `m` is set.
    pub open spec fn holds(self, m: KeyModifier) -> bool {
        match m {
            KeyModifier::Ctrl => self.control,
            KeyModifier::Shift => self.shift,
            KeyModifier::Alt => self.alternate,
            KeyModifier::Cmd => self.command,
            KeyModifier::Fn => self.secondary_fn,
        }
    }

    /// The modifiers whose flags are set.
    pub open spec fn modifiers(self) -> Set<KeyModifier> {
        Set::new(|m: KeyModifier| self.holds(m))
    }

    /// The flags of an event with no modifier held.
    pub fn none() -> (flags: EventFlags)
        ensures
            flags.modifiers() == Set::<KeyModifier>::empty(),
            forall|m: KeyModifier| !flags.holds(m),
    {
        let flags = EventFlags {
            control: false,
            shift: false,
            alternate: false,
            command: false,
            secondary_fn: false,
        };
        assert(flags.modifiers() =~= Set::<KeyModifier>::empty());
        flags
    }
}

/// The flags are told by the modifiers they set: two events with the same
/// modifiers held have the same flags.
pub proof fn lemma_flags_by_modifiers(f: EventFlags, g: EventFlags)
    requires
        f.modifiers() == g.modifiers(),
    ensures
        f == g,
{
    assert(f.holds(KeyModifier::Ctrl) == g.modifiers().contains(KeyModifier::Ctrl));
    assert(f.holds(KeyModifier::Shift) == g.modifiers().contains(KeyModifier::Shift));
    assert(f.holds(KeyModifier::Alt) == g.modifiers().contains(KeyModifier::Alt));
    assert(f.holds(KeyModifier::Cmd) == g.modifiers().contains(KeyModifier::Cmd));
    assert(f.holds(KeyModifier::Fn) == g.modifiers().contains(KeyModifier::Fn));
}

/// Whether the modifiers of `s` stand in declaration order, each at most once.
pub open spec fn increasing(s: Seq<KeyModifier>) -> bool {
    forall|i: int, j: int| 0 <= i < j < s.len() ==> s[i].rank() < s[j].rank()
}

/// Whether `s` holds, in declaration order, exactly the modifiers before place
/// `r` whose flags are set in `value`.
spec fn collected(s: Seq<KeyModifier>, value: EventFlags, r: int) -> bool {
    &&& increasing(s)
    &&& forall|m: KeyModifier| #[trigger] s.contains(m) <==> (m.rank() < r && value.holds(m))
}

proof fn lemma_collect(s: Seq<KeyModifier>, value: EventFlags, next: KeyModifier)
    requires
        collected(s, value, next.rank()),
    ensures
        collected(
            if value.holds(next) {
                s.push(next)
            } else {
                s
            },
            value,
            next.rank() + 1,
        ),
{
    if value.holds(next) {
        let t = s.push(next);
        assert forall|i: int, j: int| 0 <= i < j < t.len() implies t[i].rank() < t[j].rank() by {
            if j == s.len() {
                assert(s.contains(s[i]));
            }
        }
        assert forall|m: KeyModifier| #[trigger]
            t.contains(m) <==> (m.rank() < next.rank() + 1 && value.holds(m)) by {
            if s.contains(m) {
                let i = choose|i: int| 0 <= i < s.len() && s[i] == m;
                assert(t[i] == m);
            }
            if m == next {
                assert(t[s.len() as int] == m);
            }
            if t.contains(m) {
                let i = choose|i: int| 0 <= i < t.len() && t[i] == m;
                if i < s.len() {
                    assert(s[i] == m);
                }
            }
        }
    }
}

impl KeyModifier {
    /// The place of a modifier in the declaration order.
    pub open spec fn rank(self) -> int {
        match self {
            KeyModifier::Ctrl => 0,
            KeyModifier::Shift => 1,
            KeyModifier::Alt => 2,
            KeyModifier::Cmd => 3,
            KeyModifier::Fn => 4,
        }
    }

    /// The modifiers that are held according to the flags of an event, in
    /// declaration order.
    pub fn from(value: EventFlags) -> (modifiers: Vec<KeyModifier>)
        ensures
            modifiers@.to_set() == value.modifiers(),
            increasing(modifiers@),
    {
        let mut modifiers: Vec<KeyModifier> = Vec::new();
        assert(collected(modifiers@, value, 0));
        let ghost mut before = modifiers@;
        if value.control {
            modifiers.push(KeyModifier::Ctrl);
        }
        proof {
            lemma_collect(before, value, KeyModifier::Ctrl);
            before = modifiers@;
        }
        if value.shift {
            modifiers.push(KeyModifier::Shift);
        }
        proof {
            lemma_collect(before, value, KeyModifier::Shift);
            before = modifiers@;
        }
        if value.alternate {
            modifiers.push(KeyModifier::Alt);
        }
        proof {
            lemma_collect(before, value, KeyModifier::Alt);
            before = modifiers@;
        }
        if value.command {
            modifiers.push(KeyModifier::Cmd);
        }
        proof {
            lemma_collect(before, value, KeyModifier::Cmd);
            before = modifiers@;
        }
        if value.secondary_fn {
            modifiers.push(KeyModifier::Fn);
        }
        proof {
            lemma_collect(before, value, KeyModifier::Fn);
            assert(modifiers@.to_set() =~= value.modifiers());
        }
        modifiers
    }

    /// The event flags that say that exactly the given modifiers are held.
    pub fn into_event_flag(modifiers: Vec<KeyModifier>) -> (flags: EventFlags)
        ensures
            flags.modifiers() == modifiers@.to_set(),
    {
        let mut flags = EventFlags::none();
        let mut i: usize = 0;
        while i < modifiers.len()
            invariant
                i <= modifiers@.len(),
                forall|m: KeyModifier|
                    flags.holds(m) <==> exists|j: int| 0 <= j < i && #[trigger] modifiers@[j] == m,
            decreases modifiers@.len() - i,
        {
            let ghost before = flags;
            match modifiers[i] {
                KeyModifier::Ctrl => {
                    flags.control = true;
                },
                KeyModifier::Shift => {
                    flags.shift = true;
                },
                KeyModifier::Alt => {
                    flags.alternate = true;
                },
                KeyModifier::Cmd => {
                    flags.command = true;
                },
                KeyModifier::Fn => {
                    flags.secondary_fn = true;
                },
            }
            proof {
                assert forall|m: KeyModifier|
                    flags.holds(m) <==> exists|j: int|
                        0 <= j < i + 1 && #[trigger] modifiers@[j] == m by {
                    if flags.holds(m) {
                        if before.holds(m) {
                            let j = choose|j: int| 0 <= j < i && #[trigger] modifiers@[j] == m;
                            assert(0 <= j < i + 1 && modifiers@[j] == m);
                        } else {
                            assert(modifiers@[i as int] == m);
                        }
                    }
                    if exists|j: int| 0 <= j < i + 1 && #[trigger] modifiers@[j] == m {
                        let j = choose|j: int| 0 <= j < i + 1 && #[trigger] modifiers@[j] == m;
                        if j < i {
                            assert(before.holds(m));
                        }
                    }
                }
            }
            i += 1;
        }
        assert(flags.modifiers() =~= modifiers@.to_set());
        flags
    }
}

/// A chord as a value of mathematics: the set of modifiers held and the key
/// pressed with them.
pub struct Chord {
    pub modifiers: Set<KeyModifier>,
    pub code: KeyCode,
}

impl Chord {
    /// The chord that stands for "nothing happened": no modifier and no key.
    pub open spec fn is_sentinel(self) -> bool {
        self.modifiers.is_empty() && self.code == KeyCode::Null
    }
}

/// One chorded key press: the modifiers held, and the key. The modifiers are a
/// set: neither their order in the vector nor a repetition counts.
#[derive(Debug)]
pub struct KeySpec(pub Vec<KeyModifier>, pub KeyCode);

impl View for KeySpec {
    type V = Chord;

    open spec fn view(&self) -> Chord {
        Chord { modifiers: self.0@.to_set(), code: self.1 }
    }
}

impl KeySpec {
    /// Whether the modifier `m` is held in this chord.
    pub fn has_modifier(&self, m: KeyModifier) -> (b: bool)
        ensures
            b == self@.modifiers.contains(m),
    {
        let mut i: usize = 0;
        while i < self.0.len()
            invariant
                i <= self.0@.len(),
                forall|j: int| 0 <= j < i ==> self.0@[j] != m,
            decreases self.0@.len() - i,
        {
            if self.0[i] == m {
                return true;
            }
            i += 1;
        }
        false
    }

    /// Whether this is the chord of no modifier and no key, which an event
    /// source hands out when nothing was pressed.
    pub fn is_sentinel(&self) -> (b: bool)
        ensures
            b == self@.is_sentinel(),
    {
        let b = self.0.len() == 0 && self.1 == KeyCode::Null;
        proof {
            if self.0@.len() > 0 {
                assert(self.0@.contains(self.0@[0]));
                assert(self@.modifiers.contains(self.0@[0]));
            }
        }
        b
    }
}

impl PartialEq for KeySpec {
    /// Two chords are equal when they hold the same modifiers and press the
    /// same key.
    fn eq(&self, other: &KeySpec) -> (b: bool) {
        let b = self.1 == other.1 && self.has_modifier(KeyModifier::Ctrl) == other.has_modifier(
            KeyModifier::Ctrl,
        ) && self.has_modifier(KeyModifier::Shift) == other.has_modifier(KeyModifier::Shift)
            && self.has_modifier(KeyModifier::Alt) == other.has_modifier(KeyModifier::Alt)
            && self.has_modifier(KeyModifier::Cmd) == other.has_modifier(KeyModifier::Cmd)
            && self.has_modifier(KeyModifier::Fn) == other.has_modifier(KeyModifier::Fn);
        proof {
            if b {
                assert(self@.modifiers =~= other@.modifiers);
            }
        }
        b
    }
}

impl vstd::std_specs::cmp::PartialEqSpecImpl for KeySpec {
    open spec fn obeys_eq_spec() -> bool {
        true
    }

    open spec fn eq_spec(&self, other: &KeySpec) -> bool {
        self@ == other@
    }
}

impl Eq for KeySpec {

}

impl Clone for KeySpec {
    fn clone(&self) -> (copy: KeySpec)
        ensures
            copy@ == self@,
    {
        KeySpec(self.0.clone(), self.1)
    }
}

/// What a resolved key sequence asks for, with text as sequences of characters
/// and keys as chords.
pub enum Action {
    Nop,
    ShellCmd(Seq<char>),
    ModeChange(Seq<char>),
    SendKey(Chord),
}

/// What is done when a bound key sequence has been entered.
#[derive(Debug, PartialEq, Eq)]
pub enum KeyAction {
    /// Nothing.
    Nop,
    /// The command line is handed to the shell.
    ShellCmd(String),
    /// The matcher goes over to the mode of this name.
    ModeChange(String),
    /// The chord is sent on as if it had been typed.
    SendKey(KeySpec),
}

impl View for KeyAction {
    type V = Action;

    open spec fn view(&self) -> Action {
        match self {
            KeyAction::Nop => Action::Nop,
            KeyAction::ShellCmd(cmd) => Action::ShellCmd(cmd@),
            KeyAction::ModeChange(mode) => Action::ModeChange(mode@),
            KeyAction::SendKey(key) => Action::SendKey(key@),
        }
    }
}

impl Clone for KeyAction {
    fn clone(&self) -> (copy: KeyAction)
        ensures
            copy@ == self@,
    {
        match self {
            KeyAction::Nop => KeyAction::Nop,
            KeyAction::ShellCmd(cmd) => KeyAction::ShellCmd(cmd.clone()),
            KeyAction::ModeChange(mode) => KeyAction::ModeChange(mode.clone()),
            KeyAction::SendKey(key) => KeyAction::SendKey(key.clone()),
        }
    }
}

/// The chords of a sequence of key presses.
pub open spec fn chords(keys: Seq<KeySpec>) -> Seq<Chord> {
    keys.map_values(|k: KeySpec| k@)
}

/// The chords that are pressed one after the other to reach a bound action.
#[derive(Debug)]
pub struct KeySequence(pub Vec<KeySpec>);

impl View for KeySequence {
    type V = Seq<Chord>;

    open spec fn view(&self) -> Seq<Chord> {
        chords(self.0@)
    }
}

impl KeySequence {
    /// The empty sequence.
    pub fn new() -> (sequence: KeySequence)
        ensures
            sequence@ == Seq::<Chord>::empty(),
    {
        let sequence = KeySequence(Vec::new());
        assert(sequence@ =~= Seq::<Chord>::empty());
        sequence
    }

    /// Adds a chord at the end.
    pub fn push(&mut self, key: KeySpec)
        ensures
            final(self)@ == old(self)@.push(key@),
    {
        self.0.push(key);
        assert(self@ =~= old(self)@.push(key@));
    }

    /// Takes the last chord off, if there is one.
    pub fn pop(&mut self) -> (key: Option<KeySpec>)
        ensures
            match key {
                Some(k) => old(self)@.len() > 0 && k@ == old(self)@.last() && final(self)@ == old(
                    self,
                )@.drop_last(),
                None => old(self)@.len() == 0 && final(self)@ == old(self)@,
            },
    {
        let key = self.0.pop();
        assert(self@ =~= if old(self)@.len() > 0 {
            old(self)@.drop_last()
        } else {
            old(self)@
        });
        key
    }

    /// The number of chords.
    pub fn len(&self) -> (n: usize)
        ensures
            n == self@.len(),
    {
        self.0.len()
    }

    /// Whether there is no chord in the sequence.
    pub fn is_empty(&self) -> (b: bool)
        ensures
            b == (self@.len() == 0),
    {
        self.0.is_empty()
    }

    /// Takes all chords out.
    pub fn clear(&mut self)
        ensures
            final(self)@ == Seq::<Chord>::empty(),
    {
        self.0.clear();
        assert(self@ =~= Seq::<Chord>::empty());
    }
}

impl PartialEq for KeySequence {
    /// Two sequences are equal when they hold equal chords in the same order.
    fn eq(&self, other: &KeySequence) -> (b: bool) {
        if self.0.len() != other.0.len() {
            assert(self@.len() != other@.len());
            return false;
        }
        let mut i: usize = 0;
        while i < self.0.len()
            invariant
                i <= self.0@.len(),
                self.0@.len() == other.0@.len(),
                forall|j: int| 0 <= j < i ==> self@[j] == other@[j],
            decreases self.0@.len() - i,
        {
            if !(self.0[i] == other.0[i]) {
                assert(self@[i as int] != other@[i as int]);
                return false;
            }
            i += 1;
        }
        assert(self@ =~= other@);
        true
    }
}

impl vstd::std_specs::cmp::PartialEqSpecImpl for KeySequence {
    open spec fn obeys_eq_spec() -> bool {
        true
    }

    open spec fn eq_spec(&self, other: &KeySequence) -> bool {
        self@ == other@
    }
}

impl Eq for KeySequence {

}

impl Clone for KeySequence {
    fn clone(&self) -> (copy: KeySequence)
        ensures
            copy@ == self@,
    {
        let mut keys: Vec<KeySpec> = Vec::new();
        let mut i: usize = 0;
        while i < self.0.len()
            invariant
                i <= self.0@.len(),
                keys@.len() == i,
                forall|j: int| 0 <= j < i ==> keys@[j]@ == self.0@[j]@,
            decreases self.0@.len() - i,
        {
            keys.push(self.0[i].clone());
            i += 1;
        }
        let copy = KeySequence(keys);
        assert(copy@ =~= self@);
        copy
    }
}

impl IntoIterator for KeySequence {
    type Item = KeySpec;

    type IntoIter = std::vec::IntoIter<KeySpec>;

    /// The chords, first to last.
    fn into_iter(self) -> (iter: std::vec::IntoIter<KeySpec>)
        ensures
            iter == vstd::std_specs::vec::spec_into_iter(self.0),
    {
        self.0.into_iter()
    }
}

impl Default for KeySequence {
    fn default() -> (sequence: KeySequence)
        ensures
            sequence@ == Seq::<Chord>::empty(),
    {
        KeySequence::new()
    }
}

/// A key sequence together with the action bound to it.
#[derive(Debug)]
pub struct KeyBinding {
    pub sequences: KeySequence,
    pub action: KeyAction,
}

} // verus!
