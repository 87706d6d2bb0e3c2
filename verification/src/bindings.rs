use crate::keys::{Action, Chord};
use vstd::prelude::*;

verus! {

/// The bindings of one mode: each bound key sequence with its action.
pub type Bindings = Map<Seq<Chord>, Action>;

/// Whether one of the two sequences starts with the other.
pub open spec fn comparable(p: Seq<Chord>, q: Seq<Chord>) -> bool {
    p.is_prefix_of(q) || q.is_prefix_of(p)
}

/// Whether some bound sequence starts with `p`: entering `p` leads somewhere.
pub open spec fn reaches(b: Bindings, p: Seq<Chord>) -> bool {
    exists|q: Seq<Chord>| #[trigger] b.contains_key(q) && p.is_prefix_of(q)
}

/// Whether some bound sequence starts with `p` and goes on after it: once
/// `p` has been entered, more chords are awaited.
pub open spec fn goes_on(b: Bindings, p: Seq<Chord>) -> bool {
    exists|q: Seq<Chord>| #[trigger] b.contains_key(q) && p.is_prefix_of(q) && q != p
}

/// Whether `b` can be the bindings of a mode: the empty sequence is not
/// bound. A bound sequence may be the start of a longer one. It is then
/// overlaid: entering it awaits more chords, and its action is given again
/// once every longer one has been unbound.
pub open spec fn proper(b: Bindings) -> bool {
    !b.contains_key(Seq::<Chord>::empty())
}

/// Whether entering `s` gives an action: `s` is bound, and not overlaid by a
/// longer bound sequence.
pub open spec fn active(b: Bindings, s: Seq<Chord>) -> bool {
    b.contains_key(s) && !goes_on(b, s)
}

/// What is left to enter once `p` has been entered: the bindings that start
/// with `p`, without that start.
pub open spec fn below(b: Bindings, p: Seq<Chord>) -> Bindings {
    Map::new(|q: Seq<Chord>| q.len() > 0 && b.contains_key(p + q), |q: Seq<Chord>| b[p + q])
}

/// The bindings after `s` was bound to `a`: `s` leads to `a`, and every binding
/// that started with `s` has made way for it. A binding with which `s` starts
/// stays, overlaid.
pub open spec fn bound(b: Bindings, s: Seq<Chord>, a: Action) -> Bindings {
    Map::new(
        |p: Seq<Chord>| p == s || (b.contains_key(p) && !s.is_prefix_of(p)),
        |p: Seq<Chord>|
            if p == s {
                a
            } else {
                b[p]
            },
    )
}

/// The bindings after `s` was unbound: every binding that starts with `s` is
/// gone.
pub open spec fn unbound(b: Bindings, s: Seq<Chord>) -> Bindings {
    Map::new(|p: Seq<Chord>| b.contains_key(p) && !s.is_prefix_of(p), |p: Seq<Chord>| b[p])
}

/// What entering a sequence of chords comes to.
pub enum Outcome {
    /// The sequence is bound to this action, and no longer one overlays it.
    Bound(Action),
    /// The sequence is the start of at least one longer binding.
    Pending,
    /// No binding starts with the sequence.
    Unbound,
}

/// What entering the chords `q` comes to under the bindings `b`.
pub open spec fn outcome(b: Bindings, q: Seq<Chord>) -> Outcome {
    if goes_on(b, q) {
        Outcome::Pending
    } else if b.contains_key(q) {
        Outcome::Bound(b[q])
    } else {
        Outcome::Unbound
    }
}

/// Whether the chord at place `j` of `s` is the first with which `s` leaves
/// the bindings: the chords before it lead somewhere, and it leads nowhere.
pub open spec fn leaves_at(b: Bindings, s: Seq<Chord>, j: int) -> bool {
    &&& 0 <= j < s.len()
    &&& !reaches(b, s.take(j + 1))
    &&& forall|m: int| 0 <= m < j ==> reaches(b, #[trigger] s.take(m + 1))
}

/// A sequence that starts another agrees with it place by place.
pub proof fn lemma_prefix_index(p: Seq<Chord>, q: Seq<Chord>)
    requires
        p.is_prefix_of(q),
    ensures
        p.len() <= q.len(),
        forall|i: int| 0 <= i < p.len() ==> p[i] == q[i],
{
    assert forall|i: int| 0 <= i < p.len() implies p[i] == q[i] by {
        assert(q.subrange(0, p.len() as int)[i] == q[i]);
    }
}

/// A sequence leaves the bindings at one place at most.
pub proof fn lemma_leaves_at_unique(b: Bindings, s: Seq<Chord>, i: int, j: int)
    requires
        leaves_at(b, s, i),
        leaves_at(b, s, j),
    ensures
        i == j,
{
    if i < j {
        assert(reaches(b, s.take(i + 1)));
    }
    if j < i {
        assert(reaches(b, s.take(j + 1)));
    }
}

/// More chords are awaited after `p` exactly if something is left to enter
/// once `p` has been entered.
pub proof fn lemma_goes_on_below(b: Bindings, p: Seq<Chord>)
    ensures
        goes_on(b, p) == !below(b, p).dom().is_empty(),
{
    if goes_on(b, p) {
        let q = choose|q: Seq<Chord>| #[trigger] b.contains_key(q) && p.is_prefix_of(q) && q != p;
        let t = q.skip(p.len() as int);
        lemma_prefix_index(p, q);
        assert(p + t =~= q);
        if t.len() == 0 {
            assert(p =~= q);
        }
        assert(below(b, p).dom().contains(t));
    }
    if !below(b, p).dom().is_empty() {
        let t = choose|t: Seq<Chord>| below(b, p).dom().contains(t);
        assert(b.contains_key(p + t));
        assert(p.is_prefix_of(p + t));
        assert((p + t).len() != p.len());
    }
}

/// Unbinding what was bound takes away what the binding brought, and what it
/// made way for: left are the bindings from before that do not start with
/// the sequence. Where there were none that do, the bindings are as before:
/// every earlier binding is there, a start of the sequence too.
pub proof fn lemma_unbound_bound(b: Bindings, s: Seq<Chord>, a: Action)
    ensures
        unbound(bound(b, s, a), s) == unbound(b, s),
        !reaches(unbound(bound(b, s, a), s), s),
        !reaches(b, s) ==> unbound(bound(b, s, a), s) == b,
{
    let after = unbound(bound(b, s, a), s);
    assert(s.is_prefix_of(s));
    assert(after =~= unbound(b, s));
    if reaches(after, s) {
        let q = choose|q: Seq<Chord>| #[trigger] after.contains_key(q) && s.is_prefix_of(q);
        assert(false);
    }
    if !reaches(b, s) {
        assert forall|p: Seq<Chord>|
            #![trigger after.contains_key(p)]
            #![trigger b.contains_key(p)]
            after.contains_key(p) == b.contains_key(p) && (after.contains_key(p) ==> after[p]
                == b[p]) by {
            if b.contains_key(p) && s.is_prefix_of(p) {
                assert(reaches(b, s));
            }
        }
        assert(after =~= b);
    }
}

/// A sequence that was just bound gives its action: it is bound, and nothing
/// overlays it.
pub proof fn lemma_bound_active(b: Bindings, s: Seq<Chord>, a: Action)
    ensures
        active(bound(b, s, a), s),
        bound(b, s, a)[s] == a,
{
    let after = bound(b, s, a);
    if goes_on(after, s) {
        let q = choose|q: Seq<Chord>| #[trigger]
            after.contains_key(q) && s.is_prefix_of(q) && q != s;
        assert(false);
    }
}

/// Binding keeps bindings fit for a mode.
pub proof fn lemma_bound_proper(b: Bindings, s: Seq<Chord>, a: Action)
    requires
        proper(b),
        s.len() > 0,
    ensures
        proper(bound(b, s, a)),
{
}

/// Unbinding keeps bindings fit for a mode.
pub proof fn lemma_unbound_proper(b: Bindings, s: Seq<Chord>)
    requires
        proper(b),
    ensures
        proper(unbound(b, s)),
{
}

} // verus!
