use crate::bindings::{
    active, bound, comparable, goes_on, leaves_at, lemma_bound_active, lemma_bound_proper,
    lemma_unbound_bound, lemma_unbound_proper, outcome, proper, reaches, unbound, Bindings,
    Outcome,
};
use crate::daemon::Order;
use crate::error::Failure;
use crate::keys::{Action, Chord};
use crate::machine::{blocked, mode_or_default, Answer, Engine, Position};
use vstd::prelude::*;

verus! {

impl Engine {
    /// The matcher after the chords of `keys` were handed to it one after the
    /// other, whatever it answered.
    pub open spec fn feed(self, keys: Seq<Chord>) -> Engine
        decreases keys.len(),
    {
        if keys.len() == 0 {
            self
        } else {
            self.feed(keys.drop_last()).step(keys.last()).0
        }
    }

    /// The answer to the last chord of `keys`, when the chords of `keys` are
    /// handed to the matcher one after the other.
    pub open spec fn answer(self, keys: Seq<Chord>) -> Answer {
        self.feed(keys.drop_last()).step(keys.last()).1
    }

    /// Whether the matcher stands at the start of a sequence in the mode `m`.
    pub open spec fn fresh_in(self, m: Seq<char>) -> bool {
        self.mode() == Some(m) && self.partial() == Seq::<Chord>::empty()
    }
}

/// Whether every chord of `s` is one that the matcher takes: none is the chord
/// of no modifier and no key.
pub open spec fn enterable(s: Seq<Chord>) -> bool {
    forall|i: int| 0 <= i < s.len() ==> !(#[trigger] s[i]).is_sentinel()
}

/// As long as the chords entered are the start of a longer binding, the
/// matcher keeps them and answers with no action.
pub proof fn lemma_feed_pending(e: Engine, m: Seq<char>, s: Seq<Chord>, i: int)
    requires
        e.fresh_in(m),
        enterable(s),
        0 <= i <= s.len(),
        forall|j: int|
            0 <= j < i ==> outcome(e.modes[m], #[trigger] s.take(j + 1)) == Outcome::Pending,
    ensures
        e.feed(s.take(i)).modes == e.modes,
        i == 0 ==> e.feed(s.take(i)) == e,
        i > 0 ==> e.feed(s.take(i)).state == (Position::AtRoot { mode: m, cached: s.take(i) }),
        e.feed(s.take(i)).mode() == Some(m),
        e.feed(s.take(i)).partial() == s.take(i),
        forall|j: int| 0 <= j < i ==> e.answer(#[trigger] s.take(j + 1)) == Ok::<
            Option<Action>,
            Failure,
        >(None),
    decreases i,
{
    if i == 0 {
        assert(s.take(0) =~= Seq::<Chord>::empty());
    } else {
        lemma_feed_pending(e, m, s, i - 1);
        let before = e.feed(s.take(i - 1));
        assert(s.take(i).drop_last() =~= s.take(i - 1));
        assert(s.take(i).last() == s[i - 1]);
        assert(before.partial().push(s[i - 1]) =~= s.take(i));
        assert(outcome(e.modes[m], s.take(i - 1 + 1)) == Outcome::Pending);
        assert(e.answer(s.take(i)) == Ok::<Option<Action>, Failure>(None));
        assert forall|j: int| 0 <= j < i implies e.answer(#[trigger] s.take(j + 1)) == Ok::<
            Option<Action>,
            Failure,
        >(None) by {
            if j == i - 1 {
                assert(s.take(j + 1) =~= s.take(i));
            }
        }
    }
}

/// A bound sequence resolves to its action: where the sequence `s` is bound to
/// `a` in the mode `m` and ends in a leaf, no longer binding overlaying it,
/// and the matcher stands at the start of a sequence in that mode, handing it
/// the chords of `s` in order gives no action for any chord but the last, and
/// `a` for the last. The matcher then stands at the leaf of `s`. (A chord of
/// no modifier and no key is passed over by the matcher, so the sequence must
/// hold none.)
pub proof fn lemma_bound_sequence_resolves(e: Engine, m: Seq<char>, s: Seq<Chord>, a: Action)
    requires
        e.wf(),
        e.fresh_in(m),
        e.modes.contains_key(m),
        active(e.modes[m], s),
        e.modes[m][s] == a,
        enterable(s),
    ensures
        s.len() > 0,
        forall|j: int| 0 <= j < s.len() - 1 ==> e.answer(#[trigger] s.take(j + 1)) == Ok::<
            Option<Action>,
            Failure,
        >(None),
        e.answer(s) == Ok::<Option<Action>, Failure>(Some(a)),
        e.feed(s).state == (Position::AtLeaf { mode: m, sequence: s }),
        e.feed(s).modes == e.modes,
{
    let b = e.modes[m];
    assert(proper(b));
    if s.len() == 0 {
        assert(s =~= Seq::<Chord>::empty());
    }
    let n = s.len() as int;
    assert forall|j: int| 0 <= j < n - 1 implies outcome(b, #[trigger] s.take(j + 1))
        == Outcome::Pending by {
        let p = s.take(j + 1);
        assert(p.is_prefix_of(s));
        assert(p.len() != s.len());
        assert(goes_on(b, p));
    }
    lemma_feed_pending(e, m, s, n - 1);
    let before = e.feed(s.take(n - 1));
    assert(s.drop_last() =~= s.take(n - 1));
    assert(before.partial().push(s.last()) =~= s);
}

/// Binding and then unbinding a sequence brings back what was there before
/// the binding. Where neither the sequence nor one that starts with it was
/// bound before, the matcher is exactly as it was: every earlier binding is
/// there with its action, one with which the sequence starts too, and
/// whatever is entered comes to what it came to before. In any case the
/// bindings of the mode are those from before without the ones that start
/// with the sequence, nothing starts with the sequence any more, and every
/// other mode is as it was.
pub proof fn lemma_bind_unbind_restores(
    e: Engine,
    s: Seq<Chord>,
    a: Action,
    mode: Option<Seq<char>>,
)
    requires
        e.wf(),
        e.modes.contains_key(mode_or_default(mode)),
        s.len() > 0,
    ensures
        e.register(s, a, mode).1 is Ok,
        e.register(s, a, mode).0.unregister(s, mode).1 is Ok,
        ({
            let m = mode_or_default(mode);
            let after = e.register(s, a, mode).0.unregister(s, mode).0;
            &&& after.wf()
            &&& after.state == e.state
            &&& after.modes == e.modes.insert(m, unbound(e.modes[m], s))
            &&& !reaches(after.modes[m], s)
            &&& !reaches(e.modes[m], s) ==> after == e
            &&& !reaches(e.modes[m], s) ==> forall|t: Seq<Chord>|
                outcome(after.modes[m], t) == outcome(e.modes[m], t)
        }),
{
    let m = mode_or_default(mode);
    let b0 = e.modes[m];
    let b1 = bound(b0, s, a);
    let e1 = e.register(s, a, mode).0;
    assert(e1.modes[m] == b1);
    assert(!blocked(b1, s)) by {
        if blocked(b1, s) {
            let j = choose|j: int| 0 <= j < s.len() - 1 && #[trigger] leaves_at(b1, s, j);
            assert(b1.contains_key(s));
            assert(s.take(j + 1).is_prefix_of(s));
            assert(reaches(b1, s.take(j + 1)));
        }
    }
    let e2 = e1.unregister(s, mode).0;
    let b2 = unbound(b1, s);
    assert(e2.modes =~= e.modes.insert(m, b2));
    lemma_bound_proper(b0, s, a);
    lemma_unbound_proper(b1, s);
    lemma_unbound_bound(b0, s, a);
    if !reaches(b0, s) {
        assert(e2.modes =~= e.modes);
    }
}

/// Whether some chord of `s` before the last ends a sequence that gives an
/// action under the bindings `b`: entering `s` then comes to that action
/// before it comes to its end.
pub open spec fn cut_short(b: Bindings, s: Seq<Chord>) -> bool {
    exists|i: int| 0 <= i < s.len() - 1 && active(b, #[trigger] s.take(i + 1))
}

/// After a sequence was bound and unbound again, entering it fails where it
/// first leaves the bindings that are left: the chords before that place are
/// taken with no action, and the chord at that place is not found, together
/// with the chords before it. This is so unless a start of the sequence is
/// bound and gives its action again now that the sequence is unbound.
/// (The sequence must hold no chord of no modifier and no key, which the
/// matcher would pass over.)
pub proof fn lemma_unbound_sequence_fails(
    e: Engine,
    s: Seq<Chord>,
    a: Action,
    mode: Option<Seq<char>>,
)
    requires
        e.wf(),
        e.modes.contains_key(mode_or_default(mode)),
        s.len() > 0,
        enterable(s),
        !cut_short(unbound(e.modes[mode_or_default(mode)], s), s),
    ensures
        ({
            let m = mode_or_default(mode);
            let after = e.register(s, a, mode).0.unregister(s, mode).0.at_start(m);
            exists|j: int|
                {
                    &&& 0 <= j < s.len()
                    &&& #[trigger] leaves_at(after.modes[m], s, j)
                    &&& forall|i: int| 0 <= i < j ==> after.answer(#[trigger] s.take(i + 1))
                        == Ok::<Option<Action>, Failure>(None)
                    &&& after.answer(s.take(j + 1)) == Err::<Option<Action>, Failure>(
                        Failure::KeyNotFound(s.take(j), s[j]),
                    )
                    &&& after.feed(s.take(j + 1)) == after.feed(s.take(j))
                }
        }),
{
    let m = mode_or_default(mode);
    lemma_bind_unbind_restores(e, s, a, mode);
    let after = e.register(s, a, mode).0.unregister(s, mode).0.at_start(m);
    let b = after.modes[m];
    assert(b == unbound(e.modes[m], s));
    assert(!reaches(b, s));
    assert(s.take(s.len() as int) =~= s);
    lemma_first_gap(b, s, s.len() as int - 1);
    let j = choose|j: int| 0 <= j < s.len() && #[trigger] leaves_at(b, s, j);
    assert(s.take(j + 1).is_prefix_of(s));
    if j == s.len() - 1 {
        assert(s.take(j + 1) =~= s);
    }
    assert forall|i: int| 0 <= i < j implies outcome(b, #[trigger] s.take(i + 1))
        == Outcome::Pending by {
        let p = s.take(i + 1);
        assert(reaches(b, p));
        let q = choose|q: Seq<Chord>| #[trigger] b.contains_key(q) && p.is_prefix_of(q);
        if q == p {
            assert(!active(b, p));
        }
    }
    lemma_feed_pending(after, m, s, j);
    let before = after.feed(s.take(j));
    assert(s.take(j + 1).drop_last() =~= s.take(j));
    assert(s.take(j + 1).last() == s[j]);
    assert(before.partial().push(s[j]) =~= s.take(j + 1));
    assert(!goes_on(b, s.take(j + 1))) by {
        if goes_on(b, s.take(j + 1)) {
            let q = choose|q: Seq<Chord>| #[trigger]
                b.contains_key(q) && s.take(j + 1).is_prefix_of(q) && q != s.take(j + 1);
            assert(reaches(b, s.take(j + 1)));
        }
    }
    assert(!b.contains_key(s.take(j + 1))) by {
        if b.contains_key(s.take(j + 1)) {
            assert(s.take(j + 1).is_prefix_of(s.take(j + 1)));
        }
    }
    assert(outcome(b, s.take(j + 1)) == Outcome::Unbound);
}

/// A sequence that leads nowhere when cut after place `k` leaves the bindings
/// at some place up to `k`.
proof fn lemma_first_gap(b: Bindings, s: Seq<Chord>, k: int)
    requires
        0 <= k < s.len(),
        !reaches(b, s.take(k + 1)),
    ensures
        exists|j: int| 0 <= j <= k && #[trigger] leaves_at(b, s, j),
    decreases k,
{
    if forall|m: int| 0 <= m < k ==> reaches(b, #[trigger] s.take(m + 1)) {
        assert(leaves_at(b, s, k));
    } else {
        let m = choose|m: int| 0 <= m < k && !reaches(b, #[trigger] s.take(m + 1));
        lemma_first_gap(b, s, m);
    }
}

/// Two sequences that share a start resolve each to its own action: after
/// `s1` was bound to `a1` and `s2` to `a2` in one mode, neither sequence
/// starting with the other, entering `s1` gives `a1` at its last chord, and,
/// after a reset, entering `s2` gives `a2` at its last chord.
pub proof fn lemma_shared_prefix_independent(
    e: Engine,
    mode: Option<Seq<char>>,
    s1: Seq<Chord>,
    a1: Action,
    s2: Seq<Chord>,
    a2: Action,
)
    requires
        e.wf(),
        e.modes.contains_key(mode_or_default(mode)),
        s1.len() > 0,
        s2.len() > 0,
        !comparable(s1, s2),
        enterable(s1),
        enterable(s2),
    ensures
        ({
            let m = mode_or_default(mode);
            let ready = e.register(s1, a1, mode).0.register(s2, a2, mode).0.at_start(m);
            let first = ready.feed(s1);
            let again = first.reset().0;
            &&& ready.answer(s1) == Ok::<Option<Action>, Failure>(Some(a1))
            &&& forall|j: int| 0 <= j < s1.len() - 1 ==> ready.answer(#[trigger] s1.take(j + 1))
                == Ok::<Option<Action>, Failure>(None)
            &&& again.answer(s2) == Ok::<Option<Action>, Failure>(Some(a2))
            &&& forall|j: int| 0 <= j < s2.len() - 1 ==> again.answer(#[trigger] s2.take(j + 1))
                == Ok::<Option<Action>, Failure>(None)
        }),
{
    let m = mode_or_default(mode);
    let e1 = e.register(s1, a1, mode).0;
    let b1 = bound(e.modes[m], s1, a1);
    lemma_bound_proper(e.modes[m], s1, a1);
    assert(e1.modes[m] == b1);
    assert(e1.wf());
    let e2 = e1.register(s2, a2, mode).0;
    let b2 = bound(b1, s2, a2);
    lemma_bound_proper(b1, s2, a2);
    assert(e2.modes[m] == b2);
    assert(e2.wf());
    lemma_bound_active(e.modes[m], s1, a1);
    lemma_bound_active(b1, s2, a2);
    assert(s1.is_prefix_of(s1) && s2.is_prefix_of(s2));
    assert(b2.contains_key(s1) && b2[s1] == a1);
    assert(!goes_on(b2, s1)) by {
        if goes_on(b2, s1) {
            let q = choose|q: Seq<Chord>| #[trigger]
                b2.contains_key(q) && s1.is_prefix_of(q) && q != s1;
            assert(b1.contains_key(q));
        }
    }
    let ready = e2.at_start(m);
    assert(ready.wf());
    lemma_bound_sequence_resolves(ready, m, s1, a1);
    let again = ready.feed(s1).reset().0;
    assert(again.wf());
    lemma_bound_sequence_resolves(again, m, s2, a2);
}

/// The loop around the matcher never leaves it in the middle of a sequence
/// that cannot go on: after a turn that reports a chord as not found, nothing
/// is pending, and a mode is chosen.
pub proof fn lemma_not_found_resets(e: Engine, key: Chord)
    requires
        e.dispatch(key).1 matches Order::Report(Failure::KeyNotFound(entered, missing)),
    ensures
        e.dispatch(key).0.partial() == Seq::<Chord>::empty(),
        e.dispatch(key).0.mode() is Some,
        e.dispatch(key).0.modes == e.modes,
{
}

/// The chord of no modifier and no key changes nothing and gives no action,
/// wherever the matcher stands.
pub proof fn lemma_sentinel_is_passed_over(e: Engine, key: Chord)
    requires
        key.is_sentinel(),
    ensures
        e.step(key) == (e, Ok::<Option<Action>, Failure>(None)),
{
}

/// The request to go over to a mode that is not there changes nothing and
/// says which mode is missing.
pub proof fn lemma_unknown_mode_changes_nothing(e: Engine, name: Seq<char>)
    requires
        !e.modes.contains_key(name),
    ensures
        e.switch_mode(name) == (e, Err::<(), Failure>(Failure::NoSuchMode(name))),
{
}

} // verus!
