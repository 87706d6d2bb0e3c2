use crate::error::{Failure, KeymapError, KeymapResult};
use crate::keys::{Action, Chord, KeyAction, KeySequence, KeySpec};
use vstd::prelude::*;

verus! {

/// The flat keymap as a value of mathematics: the mode it is in, the chords
/// entered so far, and the action of each bound pair of mode and sequence.
pub struct Flat {
    pub mode: Seq<char>,
    pub sequence: Seq<Chord>,
    pub keymaps: Map<(Seq<char>, Seq<Chord>), Action>,
}

impl Flat {
    /// Whether the keymap knows a mode of the given name: `default` is always
    /// known, every other mode as long as something is bound in it.
    pub open spec fn defined(self, name: Seq<char>) -> bool {
        name == crate::modes::default_mode() || exists|s: Seq<Chord>| #[trigger]
            self.keymaps.contains_key((name, s))
    }

    /// What binding the chords `s` to `a` in the mode `name` does. A sequence
    /// without chords cannot be entered, and is not bound.
    pub open spec fn bind(self, name: Seq<char>, s: Seq<Chord>, a: Action) -> Flat {
        if s.len() == 0 {
            self
        } else {
            Flat {
                mode: self.mode,
                sequence: self.sequence,
                keymaps: self.keymaps.insert((name, s), a),
            }
        }
    }

    /// What going over to the mode `name` does. Where the keymap knows the
    /// mode, it is in that mode afterwards, with nothing entered. Where it
    /// does not, nothing changes, and the answer says so.
    pub open spec fn switch_mode(self, name: Seq<char>) -> (Flat, Result<(), Failure>) {
        if self.defined(name) {
            (Flat { mode: name, sequence: Seq::<Chord>::empty(), keymaps: self.keymaps }, Ok(()))
        } else {
            (self, Err(Failure::NoSuchMode(name)))
        }
    }

    /// What handing one chord to the keymap does, and the action it answers
    /// with. The chord of no modifier and no key is passed over. Every other
    /// chord is added to the chords entered so far; where these are bound in
    /// the mode the keymap is in, the action is the answer and a new sequence
    /// starts.
    pub open spec fn step(self, key: Chord) -> (Flat, Option<Action>) {
        if key.is_sentinel() {
            (self, None)
        } else {
            let entered = self.sequence.push(key);
            if self.keymaps.contains_key((self.mode, entered)) {
                (
                    Flat {
                        mode: self.mode,
                        sequence: Seq::<Chord>::empty(),
                        keymaps: self.keymaps,
                    },
                    Some(self.keymaps[(self.mode, entered)]),
                )
            } else {
                (Flat { mode: self.mode, sequence: entered, keymaps: self.keymaps }, None)
            }
        }
    }
}

/// One binding of the flat keymap.
#[derive(Debug)]
struct Entry {
    mode: String,
    sequence: KeySequence,
    action: KeyAction,
}

spec fn has_entry(entries: Seq<Entry>, mode: Seq<char>, sequence: Seq<Chord>) -> bool {
    exists|i: int|
        0 <= i < entries.len() && (#[trigger] entries[i]).mode@ == mode && entries[i].sequence@
            == sequence
}

spec fn index_of_entry(entries: Seq<Entry>, mode: Seq<char>, sequence: Seq<Chord>) -> int {
    choose|i: int|
        0 <= i < entries.len() && (#[trigger] entries[i]).mode@ == mode && entries[i].sequence@
            == sequence
}

spec fn distinct_entries(entries: Seq<Entry>) -> bool {
    forall|i: int, j: int|
        0 <= i < j < entries.len() ==> !(entries[i].mode@ == entries[j].mode@
            && entries[i].sequence@ == entries[j].sequence@)
}

spec fn table(entries: Seq<Entry>) -> Map<(Seq<char>, Seq<Chord>), Action> {
    Map::new(
        |k: (Seq<char>, Seq<Chord>)| has_entry(entries, k.0, k.1),
        |k: (Seq<char>, Seq<Chord>)| entries[index_of_entry(entries, k.0, k.1)].action@,
    )
}

proof fn lemma_entry_at(entries: Seq<Entry>, i: int)
    requires
        distinct_entries(entries),
        0 <= i < entries.len(),
    ensures
        has_entry(entries, entries[i].mode@, entries[i].sequence@),
        index_of_entry(entries, entries[i].mode@, entries[i].sequence@) == i,
        table(entries).contains_key((entries[i].mode@, entries[i].sequence@)),
        table(entries)[(entries[i].mode@, entries[i].sequence@)] == entries[i].action@,
{
    let mode = entries[i].mode@;
    let sequence = entries[i].sequence@;
    assert(has_entry(entries, mode, sequence));
    let j = index_of_entry(entries, mode, sequence);
    if i < j {
        assert(!(entries[i].mode@ == entries[j].mode@ && entries[i].sequence@
            == entries[j].sequence@));
    }
    if j < i {
        assert(!(entries[j].mode@ == entries[i].mode@ && entries[j].sequence@
            == entries[i].sequence@));
    }
}

proof fn lemma_table_update(entries: Seq<Entry>, i: int, e: Entry)
    requires
        distinct_entries(entries),
        0 <= i < entries.len(),
        e.mode@ == entries[i].mode@,
        e.sequence@ == entries[i].sequence@,
    ensures
        distinct_entries(entries.update(i, e)),
        table(entries.update(i, e)) == table(entries).insert((e.mode@, e.sequence@), e.action@),
{
    let after = entries.update(i, e);
    assert forall|a: int, b: int| 0 <= a < b < after.len() implies !(after[a].mode@
        == after[b].mode@ && after[a].sequence@ == after[b].sequence@) by {
        assert(!(entries[a].mode@ == entries[b].mode@ && entries[a].sequence@
            == entries[b].sequence@));
    }
    assert(distinct_entries(after));
    let t = table(entries).insert((e.mode@, e.sequence@), e.action@);
    assert forall|k: (Seq<char>, Seq<Chord>)|
        #![trigger table(after).contains_key(k)]
        #![trigger t.contains_key(k)]
        table(after).contains_key(k) == t.contains_key(k) && (table(after).contains_key(k)
            ==> table(after)[k] == t[k]) by {
        if has_entry(after, k.0, k.1) {
            let j = index_of_entry(after, k.0, k.1);
            lemma_entry_at(after, j);
            if j != i {
                assert(entries[j] == after[j]);
                lemma_entry_at(entries, j);
            }
        }
        if has_entry(entries, k.0, k.1) {
            let j = index_of_entry(entries, k.0, k.1);
            lemma_entry_at(entries, j);
            assert(after[j].mode@ == k.0 && after[j].sequence@ == k.1);
        }
    }
    assert(table(after) =~= t);
}

proof fn lemma_table_push(entries: Seq<Entry>, e: Entry)
    requires
        distinct_entries(entries),
        !has_entry(entries, e.mode@, e.sequence@),
    ensures
        distinct_entries(entries.push(e)),
        table(entries.push(e)) == table(entries).insert((e.mode@, e.sequence@), e.action@),
{
    let after = entries.push(e);
    assert forall|a: int, b: int| 0 <= a < b < after.len() implies !(after[a].mode@
        == after[b].mode@ && after[a].sequence@ == after[b].sequence@) by {
        if b < entries.len() {
            assert(!(entries[a].mode@ == entries[b].mode@ && entries[a].sequence@
                == entries[b].sequence@));
        } else {
            assert(!(entries[a].mode@ == e.mode@ && entries[a].sequence@ == e.sequence@));
        }
    }
    assert(distinct_entries(after));
    let t = table(entries).insert((e.mode@, e.sequence@), e.action@);
    assert forall|k: (Seq<char>, Seq<Chord>)|
        #![trigger table(after).contains_key(k)]
        #![trigger t.contains_key(k)]
        table(after).contains_key(k) == t.contains_key(k) && (table(after).contains_key(k)
            ==> table(after)[k] == t[k]) by {
        if has_entry(after, k.0, k.1) {
            let j = index_of_entry(after, k.0, k.1);
            lemma_entry_at(after, j);
            if j < entries.len() {
                assert(entries[j] == after[j]);
                lemma_entry_at(entries, j);
            }
        }
        if k == (e.mode@, e.sequence@) {
            assert(after[entries.len() as int].mode@ == k.0 && after[entries.len() as int].sequence@
                == k.1);
        }
        if has_entry(entries, k.0, k.1) {
            let j = index_of_entry(entries, k.0, k.1);
            lemma_entry_at(entries, j);
            assert(after[j].mode@ == k.0 && after[j].sequence@ == k.1);
        }
    }
    assert(table(after) =~= t);
}

proof fn lemma_table_remove(entries: Seq<Entry>, i: int)
    requires
        distinct_entries(entries),
        0 <= i < entries.len(),
    ensures
        distinct_entries(entries.remove(i)),
        table(entries.remove(i)) == table(entries).remove(
            (entries[i].mode@, entries[i].sequence@),
        ),
{
    let after = entries.remove(i);
    let gone = (entries[i].mode@, entries[i].sequence@);
    assert forall|j: int| 0 <= j < after.len() implies #[trigger] after[j] == entries[if j < i {
        j
    } else {
        j + 1
    }] by {}
    assert forall|a: int, b: int| 0 <= a < b < after.len() implies !(after[a].mode@
        == after[b].mode@ && after[a].sequence@ == after[b].sequence@) by {
        let x = if a < i {
            a
        } else {
            a + 1
        };
        let y = if b < i {
            b
        } else {
            b + 1
        };
        assert(!(entries[x].mode@ == entries[y].mode@ && entries[x].sequence@
            == entries[y].sequence@));
    }
    assert(distinct_entries(after));
    let t = table(entries).remove(gone);
    assert forall|k: (Seq<char>, Seq<Chord>)|
        #![trigger table(after).contains_key(k)]
        #![trigger t.contains_key(k)]
        table(after).contains_key(k) == t.contains_key(k) && (table(after).contains_key(k)
            ==> table(after)[k] == t[k]) by {
        if has_entry(after, k.0, k.1) {
            let j = index_of_entry(after, k.0, k.1);
            lemma_entry_at(after, j);
            let x = if j < i {
                j
            } else {
                j + 1
            };
            assert(after[j] == entries[x]);
            lemma_entry_at(entries, x);
            lemma_entry_at(entries, i);
        }
        if has_entry(entries, k.0, k.1) && k != gone {
            let x = index_of_entry(entries, k.0, k.1);
            lemma_entry_at(entries, x);
            let j = if x < i {
                x
            } else {
                x - 1
            };
            assert(after[j] == entries[x]);
            assert(after[j].mode@ == k.0 && after[j].sequence@ == k.1);
        }
    }
    assert(table(after) =~= t);
}

/// A keymap kept as a flat table: each pair of a mode and a key sequence is
/// bound to one action, and a sequence is looked up as a whole.
#[derive(Debug)]
pub struct KeymapDaemon {
    current_mode: String,
    current_sequence: KeySequence,
    keymaps: Vec<Entry>,
}

impl View for KeymapDaemon {
    type V = Flat;

    closed spec fn view(&self) -> Flat {
        Flat {
            mode: self.current_mode@,
            sequence: self.current_sequence@,
            keymaps: table(self.keymaps@),
        }
    }
}

impl KeymapDaemon {
    /// No pair of mode and sequence is bound twice.
    #[verifier::type_invariant]
    spec fn inv(self) -> bool {
        distinct_entries(self.keymaps@)
    }

    /// A keymap with no binding, in the mode `default`, with nothing entered.
    pub fn new() -> (keymap: KeymapDaemon)
        ensures
            keymap@.mode == crate::modes::default_mode(),
            keymap@.sequence == Seq::<Chord>::empty(),
            keymap@.keymaps == Map::<(Seq<char>, Seq<Chord>), Action>::empty(),
    {
        let keymap = KeymapDaemon {
            current_mode: "default".to_owned(),
            current_sequence: KeySequence::new(),
            keymaps: Vec::new(),
        };
        proof {
            reveal_strlit("default");
        }
        assert(keymap@.keymaps =~= Map::<(Seq<char>, Seq<Chord>), Action>::empty());
        keymap
    }

    /// The action to which the chords entered so far are bound in the mode the
    /// keymap is in.
    fn try_interpret(&self) -> (action: Option<KeyAction>)
        ensures
            match action {
                Some(a) => self@.keymaps.contains_key((self@.mode, self@.sequence)) && a@
                    == self@.keymaps[(self@.mode, self@.sequence)],
                None => !self@.keymaps.contains_key((self@.mode, self@.sequence)),
            },
    {
        proof {
            use_type_invariant(self);
        }
        match find(&self.keymaps, &self.current_mode, &self.current_sequence) {
            Some(i) => {
                proof {
                    lemma_entry_at(self.keymaps@, i as int);
                }
                Some(self.keymaps[i].action.clone())
            },
            None => None,
        }
    }

    /// Takes the bindings out of the keymap, to work on them.
    fn take_keymaps(&mut self) -> (keymaps: Vec<Entry>)
        ensures
            keymaps@ == old(self).keymaps@,
            distinct_entries(keymaps@),
            final(self).keymaps@ == Seq::<Entry>::empty(),
            final(self).current_mode == old(self).current_mode,
            final(self).current_sequence == old(self).current_sequence,
    {
        proof {
            use_type_invariant(&*self);
        }
        let mut keymaps: Vec<Entry> = Vec::new();
        core::mem::swap(&mut self.keymaps, &mut keymaps);
        keymaps
    }

    /// Takes the chords entered so far out of the keymap, to work on them.
    fn take_sequence(&mut self) -> (sequence: KeySequence)
        ensures
            sequence@ == old(self).current_sequence@,
            final(self).current_sequence@ == Seq::<Chord>::empty(),
            final(self).current_mode == old(self).current_mode,
            final(self).keymaps == old(self).keymaps,
    {
        proof {
            use_type_invariant(&*self);
        }
        let mut sequence = KeySequence::new();
        core::mem::swap(&mut self.current_sequence, &mut sequence);
        sequence
    }
}

/// The place of the binding of the sequence in the mode.
fn find(entries: &Vec<Entry>, mode: &String, sequence: &KeySequence) -> (place: Option<usize>)
    ensures
        match place {
            Some(i) => i < entries@.len() && entries@[i as int].mode@ == mode@
                && entries@[i as int].sequence@ == sequence@,
            None => !has_entry(entries@, mode@, sequence@),
        },
{
    let mut i: usize = 0;
    while i < entries.len()
        invariant
            i <= entries@.len(),
            forall|j: int|
                0 <= j < i ==> !(entries@[j].mode@ == mode@ && entries@[j].sequence@
                    == sequence@),
        decreases entries@.len() - i,
    {
        if entries[i].mode == *mode && entries[i].sequence == *sequence {
            return Some(i);
        }
        i += 1;
    }
    None
}

/// Whether something is bound in the mode.
fn in_use(entries: &Vec<Entry>, mode: &String) -> (b: bool)
    requires
        distinct_entries(entries@),
    ensures
        b == exists|s: Seq<Chord>| #[trigger] table(entries@).contains_key((mode@, s)),
{
    let mut i: usize = 0;
    while i < entries.len()
        invariant
            i <= entries@.len(),
            distinct_entries(entries@),
            forall|j: int| 0 <= j < i ==> entries@[j].mode@ != mode@,
        decreases entries@.len() - i,
    {
        if entries[i].mode == *mode {
            proof {
                lemma_entry_at(entries@, i as int);
            }
            return true;
        }
        i += 1;
    }
    proof {
        assert forall|s: Seq<Chord>| !(#[trigger] table(entries@).contains_key((mode@, s))) by {
            if has_entry(entries@, mode@, s) {
                let j = index_of_entry(entries@, mode@, s);
                assert(entries@[j].mode@ != mode@);
            }
        }
    }
    false
}

impl KeymapDaemon {
    /// Binds a key sequence to an action in the named mode, or in `default`
    /// where no mode is named. An earlier binding of the sequence in that mode
    /// makes way. A sequence without chords is not bound: nothing changes.
    pub fn bind(&mut self, mode: Option<String>, binding: KeySequence, action: KeyAction)
        ensures
            final(self)@ == old(self)@.bind(
                crate::machine::mode_or_default(crate::machine::name_view(mode)),
                binding@,
                action@,
            ),
    {
        if binding.is_empty() {
            return;
        }
        let mode = match mode {
            Some(name) => name,
            None => "default".to_owned(),
        };
        let mut keymaps = self.take_keymaps();
        match find(&keymaps, &mode, &binding) {
            Some(i) => {
                let entry = Entry { mode, sequence: binding, action };
                proof {
                    lemma_table_update(keymaps@, i as int, entry);
                }
                keymaps[i] = entry;
            },
            None => {
                let entry = Entry { mode, sequence: binding, action };
                proof {
                    lemma_table_push(keymaps@, entry);
                }
                keymaps.push(entry);
            },
        }
        self.keymaps = keymaps;
    }

    /// Unbinds a key sequence in the named mode, or in `default` where no mode
    /// is named, and gives back the action it was bound to, if it was bound.
    pub fn unbind(&mut self, mode: Option<String>, binding: KeySequence) -> (action: Option<
        KeyAction,
    >)
        ensures
            final(self)@.mode == old(self)@.mode,
            final(self)@.sequence == old(self)@.sequence,
            ({
                let key = (
                    crate::machine::mode_or_default(crate::machine::name_view(mode)),
                    binding@,
                );
                &&& final(self)@.keymaps == old(self)@.keymaps.remove(key)
                &&& match action {
                    Some(a) => old(self)@.keymaps.contains_key(key) && a@
                        == old(self)@.keymaps[key],
                    None => !old(self)@.keymaps.contains_key(key),
                }
            }),
    {
        let mode = match mode {
            Some(name) => name,
            None => "default".to_owned(),
        };
        let mut keymaps = self.take_keymaps();
        let action = match find(&keymaps, &mode, &binding) {
            Some(i) => {
                proof {
                    lemma_entry_at(keymaps@, i as int);
                    lemma_table_remove(keymaps@, i as int);
                }
                let entry = keymaps.remove(i);
                Some(entry.action)
            },
            None => {
                proof {
                    assert(table(keymaps@).remove((mode@, binding@)) =~= table(keymaps@));
                }
                None
            },
        };
        self.keymaps = keymaps;
        action
    }

    /// Whether anything is bound in any mode.
    pub fn is_mapped(&self) -> (b: bool)
        ensures
            b == !self@.keymaps.dom().is_empty(),
    {
        let b = self.keymaps.len() > 0;
        proof {
            use_type_invariant(self);
            if b {
                lemma_entry_at(self.keymaps@, 0);
            } else {
                assert(self@.keymaps.dom() =~= Set::<(Seq<char>, Seq<Chord>)>::empty());
            }
        }
        b
    }

    /// Goes over to the mode of the given name. What was entered in the old
    /// mode is thrown away. The keymap knows the mode `default`, and every
    /// mode in which something is bound; for any other name nothing changes
    /// and the error says that there is no such mode.
    pub fn switch_mode(&mut self, mode: String) -> (r: KeymapResult<()>)
        ensures
            (final(self)@, crate::machine::done_view(r)) == old(self)@.switch_mode(mode@),
    {
        proof {
            use_type_invariant(&*self);
            reveal_strlit("default");
        }
        let default = "default".to_owned();
        let named = mode == default;
        let used = in_use(&self.keymaps, &mode);
        let known = named || used;
        proof {
            assert(old(self)@.keymaps == table(self.keymaps@));
            assert(known == old(self)@.defined(mode@));
        }
        if known {
            self.current_mode = mode;
            self.current_sequence = KeySequence::new();
            Ok(())
        } else {
            Err(KeymapError::NoSuchMode(mode))
        }
    }

    /// Throws away the chords entered so far. The mode stays.
    pub fn reset(&mut self)
        ensures
            final(self)@.mode == old(self)@.mode,
            final(self)@.sequence == Seq::<Chord>::empty(),
            final(self)@.keymaps == old(self)@.keymaps,
    {
        proof {
            use_type_invariant(&*self);
        }
        self.current_sequence = KeySequence::new();
    }

    /// Takes one chord and answers with the action, if the chords entered so
    /// far are bound to one in the mode the keymap is in.
    pub fn make_input(&mut self, key: KeySpec) -> (action: Option<KeyAction>)
        ensures
            (final(self)@, crate::flat::action_view(action)) == old(self)@.step(key@),
            key@.is_sentinel() ==> final(self)@ == old(self)@ && action.is_none(),
    {
        if key.is_sentinel() {
            return None;
        }
        proof {
            use_type_invariant(&*self);
        }
        let mut sequence = self.take_sequence();
        sequence.push(key);
        self.current_sequence = sequence;
        let action = self.try_interpret();
        if action.is_some() {
            self.current_sequence = KeySequence::new();
        }
        action
    }
}

/// An action that may be missing, taken by its view.
pub open spec fn action_view(action: Option<KeyAction>) -> Option<Action> {
    match action {
        Some(a) => Some(a@),
        None => None,
    }
}

} // verus!
