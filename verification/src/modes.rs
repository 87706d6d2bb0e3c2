use crate::bindings::{bound, leaves_at, proper, reaches, unbound, Bindings};
use crate::error::{Failure, KeymapError, KeymapResult};
use crate::keys::{Action, Chord, KeyBinding, KeySequence};
use crate::node::ActionNode;
use vstd::prelude::*;

verus! {

/// The name of the mode that is there from the start and never goes away.
pub open spec fn default_mode() -> Seq<char> {
    "default"@
}

/// Whether `modes` can be the bindings of the modes of a keymap: the mode
/// `default` is there, and the bindings of every mode can be those of a mode.
pub open spec fn in_order(modes: Map<Seq<char>, Bindings>) -> bool {
    &&& modes.contains_key(default_mode())
    &&& forall|name: Seq<char>| #[trigger] modes.contains_key(name) ==> proper(modes[name])
}

/// The bindings of the mode `name` in `modes`, and none where there is no
/// such mode.
pub open spec fn bindings_of(modes: Map<Seq<char>, Bindings>, name: Seq<char>) -> Bindings {
    if modes.contains_key(name) {
        modes[name]
    } else {
        Map::<Seq<Chord>, Action>::empty()
    }
}

/// Whether anything is bound in any of the modes.
pub open spec fn mapped(modes: Map<Seq<char>, Bindings>) -> bool {
    exists|name: Seq<char>| #[trigger] modes.contains_key(name) && !modes[name].dom().is_empty()
}

/// A mode: its name, and the root of the tree of its bindings.
#[derive(Debug)]
struct Mode {
    name: String,
    root: ActionNode,
}

/// The modes of a keymap: each mode name with the bindings of that mode. The
/// mode `default` is always among them.
#[derive(Debug)]
pub struct KeyMap {
    default: Mode,
    named: Vec<Mode>,
}

/// Where the mode of a name is kept.
enum Slot {
    Default,
    Named(usize),
    Nowhere,
}

spec fn distinct_names(modes: Seq<Mode>) -> bool {
    forall|i: int, j: int| 0 <= i < j < modes.len() ==> modes[i].name@ != modes[j].name@
}

spec fn has_name(modes: Seq<Mode>, name: Seq<char>) -> bool {
    exists|i: int| 0 <= i < modes.len() && (#[trigger] modes[i]).name@ == name
}

spec fn index_of_name(modes: Seq<Mode>, name: Seq<char>) -> int {
    choose|i: int| 0 <= i < modes.len() && (#[trigger] modes[i]).name@ == name
}

spec fn roots_wf(modes: Seq<Mode>) -> bool {
    forall|i: int| 0 <= i < modes.len() ==> (#[trigger] modes[i]).root.wf()
}

/// The bindings of each of the modes, by the name of the mode.
spec fn table(modes: Seq<Mode>) -> Map<Seq<char>, Bindings> {
    Map::new(
        |name: Seq<char>| has_name(modes, name),
        |name: Seq<char>| modes[index_of_name(modes, name)].root@,
    )
}

/// Whether the modes besides `default` are in order: no two share a name,
/// none is called `default`, and the tree of each is in order.
spec fn named_wf(modes: Seq<Mode>) -> bool {
    &&& distinct_names(modes)
    &&& !has_name(modes, default_mode())
    &&& roots_wf(modes)
}

proof fn lemma_mode_at(modes: Seq<Mode>, i: int)
    requires
        distinct_names(modes),
        0 <= i < modes.len(),
    ensures
        has_name(modes, modes[i].name@),
        index_of_name(modes, modes[i].name@) == i,
        table(modes).contains_key(modes[i].name@),
        table(modes)[modes[i].name@] == modes[i].root@,
{
    let name = modes[i].name@;
    assert(has_name(modes, name));
    let j = index_of_name(modes, name);
    if i < j {
        assert(modes[i].name@ != modes[j].name@);
    }
    if j < i {
        assert(modes[j].name@ != modes[i].name@);
    }
}

proof fn lemma_table_update(modes: Seq<Mode>, i: int, m: Mode)
    requires
        named_wf(modes),
        0 <= i < modes.len(),
        m.name@ == modes[i].name@,
        m.root.wf(),
    ensures
        named_wf(modes.update(i, m)),
        table(modes.update(i, m)) == table(modes).insert(m.name@, m.root@),
{
    let after = modes.update(i, m);
    assert forall|a: int, b: int| 0 <= a < b < after.len() implies after[a].name@
        != after[b].name@ by {
        assert(modes[a].name@ != modes[b].name@);
    }
    assert(distinct_names(after));
    assert forall|a: int| 0 <= a < after.len() implies (#[trigger] after[a]).root.wf() by {
        if a != i {
            assert(after[a] == modes[a]);
        }
    }
    if has_name(after, default_mode()) {
        let j = index_of_name(after, default_mode());
        assert(modes[j].name@ == default_mode());
    }
    let t = table(modes).insert(m.name@, m.root@);
    assert forall|name: Seq<char>|
        #![trigger table(after).contains_key(name)]
        #![trigger t.contains_key(name)]
        table(after).contains_key(name) == t.contains_key(name) && (table(after).contains_key(name)
            ==> table(after)[name] == t[name]) by {
        if has_name(after, name) {
            let j = index_of_name(after, name);
            lemma_mode_at(after, j);
            if j != i {
                assert(modes[j] == after[j]);
                lemma_mode_at(modes, j);
            }
        }
        if has_name(modes, name) {
            let j = index_of_name(modes, name);
            lemma_mode_at(modes, j);
            assert(after[j].name@ == name);
        }
    }
    assert(table(after) =~= t);
}

proof fn lemma_table_push(modes: Seq<Mode>, m: Mode)
    requires
        named_wf(modes),
        !has_name(modes, m.name@),
        m.name@ != default_mode(),
        m.root.wf(),
    ensures
        named_wf(modes.push(m)),
        table(modes.push(m)) == table(modes).insert(m.name@, m.root@),
{
    let after = modes.push(m);
    assert forall|a: int, b: int| 0 <= a < b < after.len() implies after[a].name@
        != after[b].name@ by {
        if b < modes.len() {
            assert(modes[a].name@ != modes[b].name@);
        } else {
            assert(modes[a].name@ != m.name@);
        }
    }
    assert(distinct_names(after));
    assert forall|a: int| 0 <= a < after.len() implies (#[trigger] after[a]).root.wf() by {
        if a < modes.len() {
            assert(after[a] == modes[a]);
        }
    }
    if has_name(after, default_mode()) {
        let j = index_of_name(after, default_mode());
        if j < modes.len() {
            assert(modes[j].name@ == default_mode());
        }
    }
    let t = table(modes).insert(m.name@, m.root@);
    assert forall|name: Seq<char>|
        #![trigger table(after).contains_key(name)]
        #![trigger t.contains_key(name)]
        table(after).contains_key(name) == t.contains_key(name) && (table(after).contains_key(name)
            ==> table(after)[name] == t[name]) by {
        if has_name(after, name) {
            let j = index_of_name(after, name);
            lemma_mode_at(after, j);
            if j < modes.len() {
                assert(modes[j] == after[j]);
                lemma_mode_at(modes, j);
            }
        }
        if name == m.name@ {
            assert(after[modes.len() as int].name@ == name);
        }
        if has_name(modes, name) {
            let j = index_of_name(modes, name);
            lemma_mode_at(modes, j);
            assert(after[j].name@ == name);
        }
    }
    assert(table(after) =~= t);
}

proof fn lemma_in_order(default: ActionNode, modes: Seq<Mode>)
    requires
        default.wf(),
        named_wf(modes),
    ensures
        in_order(table(modes).insert(default_mode(), default@)),
{
    let all = table(modes).insert(default_mode(), default@);
    assert forall|name: Seq<char>| #[trigger] all.contains_key(name) implies proper(
        all[name],
    ) by {
        if name == default_mode() {
            default.lemma_view_proper();
        } else {
            let i = index_of_name(modes, name);
            assert(modes[i].root.wf());
            modes[i].root.lemma_view_proper();
        }
    }
}

impl View for KeyMap {
    type V = Map<Seq<char>, Bindings>;

    closed spec fn view(&self) -> Map<Seq<char>, Bindings> {
        table(self.named@).insert(default_mode(), self.default.root@)
    }
}

impl KeyMap {
    /// The mode `default` bears its name and its tree is in order, and the
    /// other modes are in order.
    #[verifier::type_invariant]
    spec fn inv(self) -> bool {
        &&& self.default.name@ == default_mode()
        &&& self.default.root.wf()
        &&& named_wf(self.named@)
    }

    /// A keymap with the mode `default` and no binding.
    pub fn new() -> (keymap: KeyMap)
        ensures
            in_order(keymap@),
            keymap@ == Map::<Seq<char>, Bindings>::empty().insert(
                default_mode(),
                Map::<Seq<Chord>, Action>::empty(),
            ),
    {
        let default = Mode { name: "default".to_owned(), root: ActionNode::default() };
        let named: Vec<Mode> = Vec::new();
        proof {
            assert(table(named@) =~= Map::<Seq<char>, Bindings>::empty());
            lemma_in_order(default.root, named@);
        }
        KeyMap { default, named }
    }

    /// Where the mode of the given name is kept.
    fn find(&self, name: &String) -> (place: Slot)
        ensures
            match place {
                Slot::Default => name@ == default_mode(),
                Slot::Named(i) => i < self.named@.len() && self.named@[i as int].name@ == name@
                    && name@ != default_mode(),
                Slot::Nowhere => !has_name(self.named@, name@) && name@ != default_mode(),
            },
            !(place is Nowhere) <==> self@.contains_key(name@),
            in_order(self@),
    {
        proof {
            use_type_invariant(self);
            lemma_in_order(self.default.root, self.named@);
        }
        if *name == self.default.name {
            return Slot::Default;
        }
        let mut i: usize = 0;
        while i < self.named.len()
            invariant
                i <= self.named@.len(),
                forall|j: int| 0 <= j < i ==> self.named@[j].name@ != name@,
                name@ != default_mode(),
                in_order(self@),
                named_wf(self.named@),
            decreases self.named@.len() - i,
        {
            if self.named[i].name == *name {
                return Slot::Named(i);
            }
            i += 1;
        }
        Slot::Nowhere
    }

    /// Takes the tree of the mode `default` out of the keymap, to work on it.
    fn take_default(&mut self) -> (root: ActionNode)
        ensures
            root == old(self).default.root,
            root.wf(),
            named_wf(old(self).named@),
            final(self).named == old(self).named,
            final(self).default.name == old(self).default.name,
            final(self).default.name@ == default_mode(),
    {
        proof {
            use_type_invariant(&*self);
        }
        let mut root = ActionNode::default();
        core::mem::swap(&mut self.default.root, &mut root);
        root
    }

    /// Takes the modes besides `default` out of the keymap, to work on them.
    fn take_named(&mut self) -> (named: Vec<Mode>)
        ensures
            named@ == old(self).named@,
            named_wf(named@),
            final(self).named@ == Seq::<Mode>::empty(),
            final(self).default == old(self).default,
            final(self).default.name@ == default_mode(),
            final(self).default.root.wf(),
    {
        proof {
            use_type_invariant(&*self);
        }
        let mut named: Vec<Mode> = Vec::new();
        core::mem::swap(&mut self.named, &mut named);
        named
    }

    /// Whether there is a mode of this name.
    pub fn contains_mode(&self, mode: &str) -> (b: bool)
        ensures
            b == self@.contains_key(mode@),
            in_order(self@),
    {
        let name = mode.to_owned();
        match self.find(&name) {
            Slot::Nowhere => false,
            _ => true,
        }
    }

    /// Whether anything is bound in any mode.
    pub fn is_mapped(&self) -> (b: bool)
        ensures
            b == mapped(self@),
            in_order(self@),
    {
        proof {
            use_type_invariant(self);
            lemma_in_order(self.default.root, self.named@);
        }
        if !self.default.root.is_leaf() {
            assert(self@.contains_key(default_mode()));
            return true;
        }
        let mut i: usize = 0;
        while i < self.named.len()
            invariant
                i <= self.named@.len(),
                named_wf(self.named@),
                in_order(self@),
                forall|j: int| 0 <= j < i ==> (#[trigger] self.named@[j]).root@.dom().is_empty(),
            decreases self.named@.len() - i,
        {
            if !self.named[i].root.is_leaf() {
                proof {
                    lemma_mode_at(self.named@, i as int);
                    assert(self@.contains_key(self.named@[i as int].name@));
                }
                return true;
            }
            i += 1;
        }
        proof {
            if mapped(self@) {
                let name = choose|name: Seq<char>| #[trigger]
                    self@.contains_key(name) && !self@[name].dom().is_empty();
                if name != default_mode() {
                    let j = index_of_name(self.named@, name);
                    assert(self.named@[j].root@.dom().is_empty());
                }
            }
        }
        false
    }

    /// Makes a mode of this name, with no binding, unless there is one.
    pub fn add_mode(&mut self, mode: String)
        ensures
            in_order(final(self)@),
            final(self)@ == if old(self)@.contains_key(mode@) {
                old(self)@
            } else {
                old(self)@.insert(mode@, Map::<Seq<Chord>, Action>::empty())
            },
    {
        match self.find(&mode) {
            Slot::Nowhere => {
                let fresh = Mode { name: mode, root: ActionNode::default() };
                let mut named = self.take_named();
                proof {
                    lemma_table_push(named@, fresh);
                    lemma_in_order(self.default.root, named@.push(fresh));
                    assert(table(named@).insert(fresh.name@, fresh.root@).insert(
                        default_mode(),
                        self.default.root@,
                    ) =~= table(named@).insert(default_mode(), self.default.root@).insert(
                        fresh.name@,
                        fresh.root@,
                    ));
                }
                named.push(fresh);
                self.named = named;
            },
            _ => {},
        }
    }

    /// Binds a key sequence to an action in the mode of the given name, which
    /// is made if it is not there. Bindings that start with the sequence make
    /// way for it; one with which it starts is overlaid, and kept. A binding
    /// without chords is turned down, and makes no mode.
    pub fn bind(&mut self, binding: KeyBinding, mode: String) -> (r: KeymapResult<()>)
        ensures
            in_order(final(self)@),
            match r {
                Ok(()) => {
                    &&& binding.sequences@.len() > 0
                    &&& final(self)@ == old(self)@.insert(
                        mode@,
                        bound(bindings_of(old(self)@, mode@), binding.sequences@, binding.action@),
                    )
                },
                Err(e) => {
                    &&& binding.sequences@.len() == 0
                    &&& e@ == Failure::InvalidSequence
                    &&& final(self)@ == old(self)@
                },
            },
    {
        let place = self.find(&mode);
        if binding.sequences.is_empty() {
            return Err(KeymapError::InvalidSequence);
        }
        match place {
            Slot::Default => {
                let mut root = self.take_default();
                let r = root.bind(binding);
                proof {
                    lemma_in_order(root, self.named@);
                    assert(table(self.named@).insert(default_mode(), root@) =~= old(self)@.insert(
                        mode@,
                        root@,
                    ));
                }
                self.default.root = root;
                r
            },
            Slot::Named(i) => {
                let mut named = self.take_named();
                proof {
                    lemma_mode_at(named@, i as int);
                }
                let ghost before = named@;
                let target = &mut named[i];
                let r = target.root.bind(binding);
                proof {
                    let after = named@[i as int];
                    assert(named@ =~= before.update(i as int, after));
                    lemma_table_update(before, i as int, after);
                    lemma_in_order(self.default.root, named@);
                    assert(table(before).insert(mode@, after.root@).insert(
                        default_mode(),
                        self.default.root@,
                    ) =~= old(self)@.insert(mode@, after.root@));
                }
                self.named = named;
                r
            },
            Slot::Nowhere => {
                let mut fresh = Mode { name: mode, root: ActionNode::default() };
                let r = fresh.root.bind(binding);
                let mut named = self.take_named();
                proof {
                    lemma_table_push(named@, fresh);
                    lemma_in_order(self.default.root, named@.push(fresh));
                    assert(table(named@).insert(fresh.name@, fresh.root@).insert(
                        default_mode(),
                        self.default.root@,
                    ) =~= old(self)@.insert(mode@, fresh.root@));
                }
                named.push(fresh);
                self.named = named;
                r
            },
        }
    }

    /// Unbinds a key sequence in the mode of the given name: its binding, and
    /// every binding that starts with it, goes away; one with which it starts
    /// stays. Fails where there is no
    /// such mode, where the sequence has no chord, and where a chord before
    /// the last leads nowhere; the keymap then stays as it was.
    pub fn unbind(&mut self, sequences: KeySequence, mode: String) -> (r: KeymapResult<()>)
        ensures
            in_order(final(self)@),
            match r {
                Ok(()) => {
                    &&& old(self)@.contains_key(mode@)
                    &&& sequences@.len() > 0
                    &&& forall|j: int|
                        0 <= j < sequences@.len() - 1 ==> reaches(
                            old(self)@[mode@],
                            #[trigger] sequences@.take(j + 1),
                        )
                    &&& final(self)@ == old(self)@.insert(
                        mode@,
                        unbound(old(self)@[mode@], sequences@),
                    )
                },
                Err(e) => {
                    &&& final(self)@ == old(self)@
                    &&& if !old(self)@.contains_key(mode@) {
                        e@ == Failure::NoSuchMode(mode@)
                    } else if sequences@.len() == 0 {
                        e@ == Failure::InvalidSequence
                    } else {
                        exists|j: int|
                            0 <= j < sequences@.len() - 1 && #[trigger] leaves_at(
                                old(self)@[mode@],
                                sequences@,
                                j,
                            ) && e@ == Failure::KeyNotFound(sequences@.take(j), sequences@[j])
                    }
                },
            },
    {
        match self.find(&mode) {
            Slot::Nowhere => Err(KeymapError::NoSuchMode(mode)),
            Slot::Default => {
                let mut root = self.take_default();
                let r = root.unbind(sequences);
                proof {
                    lemma_in_order(root, self.named@);
                    assert(table(self.named@).insert(default_mode(), root@) =~= old(self)@.insert(
                        mode@,
                        root@,
                    ));
                    if r is Err {
                        assert(old(self)@.insert(mode@, root@) =~= old(self)@);
                    }
                }
                self.default.root = root;
                r
            },
            Slot::Named(i) => {
                let mut named = self.take_named();
                proof {
                    lemma_mode_at(named@, i as int);
                }
                let ghost before = named@;
                let target = &mut named[i];
                let r = target.root.unbind(sequences);
                proof {
                    let after = named@[i as int];
                    assert(named@ =~= before.update(i as int, after));
                    lemma_table_update(before, i as int, after);
                    lemma_in_order(self.default.root, named@);
                    assert(table(before).insert(mode@, after.root@).insert(
                        default_mode(),
                        self.default.root@,
                    ) =~= old(self)@.insert(mode@, after.root@));
                    if r is Err {
                        assert(old(self)@.insert(mode@, after.root@) =~= old(self)@);
                    }
                }
                self.named = named;
                r
            },
        }
    }

    /// The root of the tree of the mode of the given name.
    pub fn get_mode(&self, mode: &str) -> (r: KeymapResult<&ActionNode>)
        ensures
            in_order(self@),
            match r {
                Ok(root) => {
                    &&& self@.contains_key(mode@)
                    &&& root.wf()
                    &&& root@ == self@[mode@]
                },
                Err(e) => {
                    &&& !self@.contains_key(mode@)
                    &&& e@ == Failure::NoSuchMode(mode@)
                },
            },
    {
        let name = mode.to_owned();
        proof {
            use_type_invariant(self);
        }
        match self.find(&name) {
            Slot::Default => Ok(&self.default.root),
            Slot::Named(i) => {
                proof {
                    lemma_mode_at(self.named@, i as int);
                }
                Ok(&self.named[i].root)
            },
            Slot::Nowhere => Err(KeymapError::NoSuchMode(name)),
        }
    }
}

impl Default for KeyMap {
    fn default() -> (keymap: KeyMap)
        ensures
            in_order(keymap@),
            keymap@ == Map::<Seq<char>, Bindings>::empty().insert(
                default_mode(),
                Map::<Seq<Chord>, Action>::empty(),
            ),
    {
        KeyMap::new()
    }
}

} // verus!
