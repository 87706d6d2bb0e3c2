use crate::keycode::KeyCode;
use crate::keys::{increasing, Chord, KeyModifier, KeySequence, KeySpec};
use core::cmp::Ordering;
use vstd::prelude::*;

verus! {

/// How one value stands to another in an order.
#[derive(Clone, Copy, PartialEq, Eq, Debug, Structural)]
pub enum Place {
    Before,
    Same,
    After,
}

/// How one number stands to another.
pub open spec fn int_place(a: int, b: int) -> Place {
    if a < b {
        Place::Before
    } else if a > b {
        Place::After
    } else {
        Place::Same
    }
}

/// The held modifiers before place `r` of the declaration order, in that
/// order.
pub open spec fn listing(m: Set<KeyModifier>, r: int) -> Seq<KeyModifier>
    decreases r,
{
    if r <= 0 {
        Seq::<KeyModifier>::empty()
    } else if m.contains(KeyModifier::at(r - 1)) {
        listing(m, r - 1).push(KeyModifier::at(r - 1))
    } else {
        listing(m, r - 1)
    }
}

/// The modifiers of a set, in declaration order.
pub open spec fn listed(m: Set<KeyModifier>) -> Seq<KeyModifier> {
    listing(m, 5)
}

/// How one row of modifiers stands to another: the first place at which they
/// differ decides, and a row stands before every row that goes on after it.
pub open spec fn modifiers_place(s: Seq<KeyModifier>, t: Seq<KeyModifier>) -> Place
    decreases s.len(),
{
    if s.len() == 0 {
        if t.len() == 0 {
            Place::Same
        } else {
            Place::Before
        }
    } else if t.len() == 0 {
        Place::After
    } else if s[0] != t[0] {
        int_place(s[0].rank(), t[0].rank())
    } else {
        modifiers_place(s.drop_first(), t.drop_first())
    }
}

impl Chord {
    /// How one chord stands to another: by their modifiers, listed in
    /// declaration order, and among chords of the same modifiers by the code
    /// of the key.
    pub open spec fn place(self, other: Chord) -> Place {
        let by_modifiers = modifiers_place(listed(self.modifiers), listed(other.modifiers));
        if by_modifiers == Place::Same {
            int_place(self.code.spec_code() as int, other.code.spec_code() as int)
        } else {
            by_modifiers
        }
    }
}

/// How one sequence of chords stands to another: the first place at which
/// they differ decides, and a sequence stands before every sequence that goes
/// on after it.
pub open spec fn chords_place(s: Seq<Chord>, t: Seq<Chord>) -> Place
    decreases s.len(),
{
    if s.len() == 0 {
        if t.len() == 0 {
            Place::Same
        } else {
            Place::Before
        }
    } else if t.len() == 0 {
        Place::After
    } else if s[0].place(t[0]) != Place::Same {
        s[0].place(t[0])
    } else {
        chords_place(s.drop_first(), t.drop_first())
    }
}

proof fn lemma_at_rank(m: KeyModifier)
    ensures
        0 <= m.rank() < 5,
        KeyModifier::at(m.rank()) == m,
{
}

proof fn lemma_listing(m: Set<KeyModifier>, r: int)
    requires
        0 <= r <= 5,
    ensures
        increasing(listing(m, r)),
        forall|x: KeyModifier| #[trigger]
            listing(m, r).contains(x) <==> (m.contains(x) && x.rank() < r),
    decreases r,
{
    if r > 0 {
        lemma_listing(m, r - 1);
        let before = listing(m, r - 1);
        let next = KeyModifier::at(r - 1);
        assert(next.rank() == r - 1);
        if m.contains(next) {
            let now = before.push(next);
            assert forall|i: int, j: int| 0 <= i < j < now.len() implies now[i].rank()
                < now[j].rank() by {
                if j == before.len() {
                    assert(before.contains(before[i]));
                }
            }
            assert forall|x: KeyModifier| #[trigger]
                now.contains(x) <==> (m.contains(x) && x.rank() < r) by {
                lemma_at_rank(x);
                if before.contains(x) {
                    let i = choose|i: int| 0 <= i < before.len() && before[i] == x;
                    assert(now[i] == x);
                }
                if x == next {
                    assert(now[before.len() as int] == x);
                }
                if now.contains(x) {
                    let i = choose|i: int| 0 <= i < now.len() && now[i] == x;
                    if i < before.len() {
                        assert(before[i] == x);
                    }
                }
            }
        } else {
            assert forall|x: KeyModifier| #[trigger]
                before.contains(x) <==> (m.contains(x) && x.rank() < r) by {
                lemma_at_rank(x);
            }
        }
    } else {
        assert forall|x: KeyModifier| !(#[trigger] listing(m, r).contains(x)) by {}
    }
}

/// The modifiers of a set, listed, are in declaration order and are those of
/// the set.
pub proof fn lemma_listed(m: Set<KeyModifier>)
    ensures
        increasing(listed(m)),
        listed(m).to_set() == m,
{
    lemma_listing(m, 5);
    assert forall|x: KeyModifier| listed(m).contains(x) == m.contains(x) by {
        lemma_at_rank(x);
    }
    assert(listed(m).to_set() =~= m);
}

/// Two rows in declaration order with the same modifiers are one row.
pub proof fn lemma_increasing_unique(s: Seq<KeyModifier>, t: Seq<KeyModifier>)
    requires
        increasing(s),
        increasing(t),
        s.to_set() == t.to_set(),
    ensures
        s == t,
    decreases s.len(),
{
    if s.len() == 0 {
        if t.len() > 0 {
            assert(t.contains(t[0]));
            assert(t.to_set().contains(t[0]));
            assert(s.to_set().contains(t[0]));
        }
        assert(s =~= t);
    } else {
        assert(s.contains(s[0]));
        assert(s.to_set().contains(s[0]));
        assert(t.contains(s[0]));
        let j = choose|j: int| 0 <= j < t.len() && t[j] == s[0];
        assert(t.contains(t[0]));
        assert(t.to_set().contains(t[0]));
        assert(s.contains(t[0]));
        let i = choose|i: int| 0 <= i < s.len() && s[i] == t[0];
        if i > 0 {
            assert(s[0].rank() < s[i].rank());
        }
        if j > 0 {
            assert(t[0].rank() < t[j].rank());
        }
        assert(s[0] == t[0]);
        let sr = s.drop_first();
        let tr = t.drop_first();
        assert forall|x: KeyModifier| sr.contains(x) == tr.contains(x) by {
            if sr.contains(x) {
                let a = choose|a: int| 0 <= a < sr.len() && sr[a] == x;
                assert(s[a + 1] == x);
                assert(s[0].rank() < s[a + 1].rank());
                assert(s.contains(x));
                assert(s.to_set().contains(x));
                assert(t.contains(x));
                let b = choose|b: int| 0 <= b < t.len() && t[b] == x;
                assert(b > 0);
                assert(tr[b - 1] == x);
            }
            if tr.contains(x) {
                let b = choose|b: int| 0 <= b < tr.len() && tr[b] == x;
                assert(t[b + 1] == x);
                assert(t[0].rank() < t[b + 1].rank());
                assert(t.contains(x));
                assert(t.to_set().contains(x));
                assert(s.contains(x));
                let a = choose|a: int| 0 <= a < s.len() && s[a] == x;
                assert(a > 0);
                assert(sr[a - 1] == x);
            }
        }
        assert(sr.to_set() =~= tr.to_set());
        assert forall|a: int, b: int| 0 <= a < b < sr.len() implies sr[a].rank()
            < sr[b].rank() by {
            assert(s[a + 1].rank() < s[b + 1].rank());
        }
        assert forall|a: int, b: int| 0 <= a < b < tr.len() implies tr[a].rank()
            < tr[b].rank() by {
            assert(t[a + 1].rank() < t[b + 1].rank());
        }
        lemma_increasing_unique(sr, tr);
        assert(s =~= seq![s[0]] + sr);
        assert(t =~= seq![t[0]] + tr);
    }
}

/// Two rows of modifiers stand at the same place exactly if they are one row.
pub proof fn lemma_modifiers_same(s: Seq<KeyModifier>, t: Seq<KeyModifier>)
    ensures
        (modifiers_place(s, t) == Place::Same) == (s == t),
    decreases s.len(),
{
    if s.len() == 0 {
        if t.len() == 0 {
            assert(s =~= t);
        }
    } else if t.len() > 0 {
        if s[0] == t[0] {
            lemma_modifiers_same(s.drop_first(), t.drop_first());
            if s.drop_first() == t.drop_first() {
                assert(s =~= seq![s[0]] + s.drop_first());
                assert(t =~= seq![t[0]] + t.drop_first());
            }
        }
    }
}

/// One row of modifiers stands before another exactly if the other stands
/// after it.
pub proof fn lemma_modifiers_mirror(s: Seq<KeyModifier>, t: Seq<KeyModifier>)
    ensures
        (modifiers_place(s, t) == Place::Before) == (modifiers_place(t, s) == Place::After),
        (modifiers_place(s, t) == Place::Same) == (modifiers_place(t, s) == Place::Same),
    decreases s.len(),
{
    if s.len() > 0 && t.len() > 0 && s[0] == t[0] {
        lemma_modifiers_mirror(s.drop_first(), t.drop_first());
    }
}

/// Standing before is handed on from row to row.
pub proof fn lemma_modifiers_chain(
    s: Seq<KeyModifier>,
    t: Seq<KeyModifier>,
    u: Seq<KeyModifier>,
)
    requires
        modifiers_place(s, t) == Place::Before,
        modifiers_place(t, u) == Place::Before,
    ensures
        modifiers_place(s, u) == Place::Before,
    decreases s.len(),
{
    if s.len() > 0 && t.len() > 0 && u.len() > 0 {
        if s[0] == t[0] && t[0] == u[0] {
            lemma_modifiers_chain(s.drop_first(), t.drop_first(), u.drop_first());
        }
    }
}

impl Chord {
    /// Two chords stand at the same place exactly if they are one chord.
    pub proof fn lemma_place_same(self, other: Chord)
        ensures
            (self.place(other) == Place::Same) == (self == other),
    {
        lemma_modifiers_same(listed(self.modifiers), listed(other.modifiers));
        lemma_listed(self.modifiers);
        lemma_listed(other.modifiers);
        if self.place(other) == Place::Same {
            KeyCode::lemma_code_injective(self.code, other.code);
            assert(self.modifiers =~= other.modifiers);
        }
    }

    /// One chord stands before another exactly if the other stands after it.
    pub proof fn lemma_place_mirror(self, other: Chord)
        ensures
            (self.place(other) == Place::Before) == (other.place(self) == Place::After),
    {
        lemma_modifiers_mirror(listed(self.modifiers), listed(other.modifiers));
    }

    /// Standing before is handed on from chord to chord.
    pub proof fn lemma_place_chain(self, second: Chord, third: Chord)
        requires
            self.place(second) == Place::Before,
            second.place(third) == Place::Before,
        ensures
            self.place(third) == Place::Before,
    {
        let s = listed(self.modifiers);
        let t = listed(second.modifiers);
        let u = listed(third.modifiers);
        lemma_modifiers_same(s, t);
        lemma_modifiers_same(t, u);
        lemma_modifiers_same(s, u);
        lemma_modifiers_mirror(s, t);
        lemma_modifiers_mirror(t, u);
        if modifiers_place(s, t) == Place::Before && modifiers_place(t, u) == Place::Before {
            lemma_modifiers_chain(s, t, u);
        }
    }
}

/// Two sequences of chords stand at the same place exactly if they are one
/// sequence.
pub proof fn lemma_chords_same(s: Seq<Chord>, t: Seq<Chord>)
    ensures
        (chords_place(s, t) == Place::Same) == (s == t),
    decreases s.len(),
{
    if s.len() == 0 {
        if t.len() == 0 {
            assert(s =~= t);
        }
    } else if t.len() > 0 {
        s[0].lemma_place_same(t[0]);
        if s[0] == t[0] {
            lemma_chords_same(s.drop_first(), t.drop_first());
            if s.drop_first() == t.drop_first() {
                assert(s =~= seq![s[0]] + s.drop_first());
                assert(t =~= seq![t[0]] + t.drop_first());
            }
        }
    }
}

/// The place of a modifier in the declaration order.
fn rank_of(m: KeyModifier) -> (r: u8)
    ensures
        r == m.rank(),
{
    match m {
        KeyModifier::Ctrl => 0,
        KeyModifier::Shift => 1,
        KeyModifier::Alt => 2,
        KeyModifier::Cmd => 3,
        KeyModifier::Fn => 4,
    }
}

/// How one row of modifiers stands to another.
fn compare_modifiers(s: &Vec<KeyModifier>, t: &Vec<KeyModifier>) -> (place: Place)
    ensures
        place == modifiers_place(s@, t@),
{
    let mut i: usize = 0;
    proof {
        assert(s@.skip(0) =~= s@);
        assert(t@.skip(0) =~= t@);
    }
    while i < s.len() && i < t.len()
        invariant
            i <= s@.len(),
            i <= t@.len(),
            modifiers_place(s@, t@) == modifiers_place(s@.skip(i as int), t@.skip(i as int)),
        decreases s@.len() - i,
    {
        let a = rank_of(s[i]);
        let b = rank_of(t[i]);
        proof {
            assert(s@.skip(i as int)[0] == s@[i as int]);
            assert(t@.skip(i as int)[0] == t@[i as int]);
            assert(s@.skip(i as int).drop_first() =~= s@.skip(i as int + 1));
            assert(t@.skip(i as int).drop_first() =~= t@.skip(i as int + 1));
        }
        if a < b {
            return Place::Before;
        }
        if a > b {
            return Place::After;
        }
        i += 1;
    }
    if i < t.len() {
        Place::Before
    } else if i < s.len() {
        Place::After
    } else {
        Place::Same
    }
}

impl KeySpec {
    /// How this chord stands to another.
    pub fn place(&self, other: &KeySpec) -> (place: Place)
        ensures
            place == self@.place(other@),
    {
        let mine = KeyModifier::from(KeyModifier::into_event_flag(self.0.clone()));
        let theirs = KeyModifier::from(KeyModifier::into_event_flag(other.0.clone()));
        proof {
            lemma_listed(self@.modifiers);
            lemma_listed(other@.modifiers);
            lemma_increasing_unique(mine@, listed(self@.modifiers));
            lemma_increasing_unique(theirs@, listed(other@.modifiers));
        }
        match compare_modifiers(&mine, &theirs) {
            Place::Same => {
                let a = self.1.code();
                let b = other.1.code();
                if a < b {
                    Place::Before
                } else if a > b {
                    Place::After
                } else {
                    Place::Same
                }
            },
            place => place,
        }
    }
}

impl KeySequence {
    /// How this sequence stands to another.
    pub fn place(&self, other: &KeySequence) -> (place: Place)
        ensures
            place == chords_place(self@, other@),
    {
        let mut i: usize = 0;
        proof {
            assert(self@.skip(0) =~= self@);
            assert(other@.skip(0) =~= other@);
        }
        while i < self.0.len() && i < other.0.len()
            invariant
                i <= self@.len(),
                i <= other@.len(),
                self@.len() == self.0@.len(),
                other@.len() == other.0@.len(),
                chords_place(self@, other@) == chords_place(
                    self@.skip(i as int),
                    other@.skip(i as int),
                ),
            decreases self@.len() - i,
        {
            let place = self.0[i].place(&other.0[i]);
            proof {
                assert(self@.skip(i as int)[0] == self.0@[i as int]@);
                assert(other@.skip(i as int)[0] == other.0@[i as int]@);
                assert(self@.skip(i as int).drop_first() =~= self@.skip(i as int + 1));
                assert(other@.skip(i as int).drop_first() =~= other@.skip(i as int + 1));
            }
            match place {
                Place::Same => {},
                decided => {
                    return decided;
                },
            }
            i += 1;
        }
        if i < other.0.len() {
            Place::Before
        } else if i < self.0.len() {
            Place::After
        } else {
            Place::Same
        }
    }
}

impl PartialOrd for KeySpec {
    /// Chords are ordered by their modifiers and then by their key.
    fn partial_cmp(&self, other: &KeySpec) -> (o: Option<Ordering>) {
        match self.place(other) {
            Place::Before => Some(Ordering::Less),
            Place::Same => Some(Ordering::Equal),
            Place::After => Some(Ordering::Greater),
        }
    }
}

impl vstd::std_specs::cmp::PartialOrdSpecImpl for KeySpec {
    open spec fn obeys_partial_cmp_spec() -> bool {
        true
    }

    open spec fn partial_cmp_spec(&self, other: &KeySpec) -> Option<Ordering> {
        match self@.place(other@) {
            Place::Before => Some(Ordering::Less),
            Place::Same => Some(Ordering::Equal),
            Place::After => Some(Ordering::Greater),
        }
    }
}

impl PartialOrd for KeySequence {
    /// Sequences are ordered chord by chord.
    fn partial_cmp(&self, other: &KeySequence) -> (o: Option<Ordering>) {
        match self.place(other) {
            Place::Before => Some(Ordering::Less),
            Place::Same => Some(Ordering::Equal),
            Place::After => Some(Ordering::Greater),
        }
    }
}

impl vstd::std_specs::cmp::PartialOrdSpecImpl for KeySequence {
    open spec fn obeys_partial_cmp_spec() -> bool {
        true
    }

    open spec fn partial_cmp_spec(&self, other: &KeySequence) -> Option<Ordering> {
        match chords_place(self@, other@) {
            Place::Before => Some(Ordering::Less),
            Place::Same => Some(Ordering::Equal),
            Place::After => Some(Ordering::Greater),
        }
    }
}

} // verus!
