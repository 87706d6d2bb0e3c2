use crate::bindings::{
    below, bound, goes_on, leaves_at, outcome, reaches, unbound, Bindings, Outcome,
};
use crate::error::{Failure, KeymapError, KeymapResult};
use crate::keycode::KeyCode;
use crate::keys::{chords, Action, Chord, KeyAction, KeyBinding, KeySequence, KeySpec};
use vstd::prelude::*;

verus! {

/// A node of the tree in which the bindings of one mode are kept. The root
/// stands for "nothing entered yet"; every other node stands for the chords
/// on the way from the root to it, of which `key` is the last. A node without
/// children is a leaf, and its `action` is what that way is bound to. The
/// action of a node with children is not given while it has them: where the
/// way to the node was bound before a longer one was, the node keeps that
/// action, and gives it again once it is a leaf again.
#[derive(Debug)]
pub struct ActionNode {
    pub key: KeySpec,
    pub action: KeyAction,
    pub children: Children,
}

/// What a node keeps below its key and action: its children, and whether the
/// way to the node is itself bound. No chord leads to two of the children; a
/// child to which the way is not bound is a step on the way to a binding, and
/// has children of its own; and the same holds below each child.
#[derive(Debug)]
pub struct Children {
    nodes: Vec<ActionNode>,
    own: bool,
}

/// What entering a key sequence comes to in a tree of bindings.
#[derive(Debug, PartialEq, Eq)]
pub enum Resolution {
    /// The sequence is bound to this action, and no longer one overlays it.
    Bound(KeyAction),
    /// The sequence is the start of at least one longer binding.
    Pending,
    /// No binding starts with the sequence.
    Unbound,
}

impl View for Resolution {
    type V = Outcome;

    open spec fn view(&self) -> Outcome {
        match self {
            Resolution::Bound(action) => Outcome::Bound(action@),
            Resolution::Pending => Outcome::Pending,
            Resolution::Unbound => Outcome::Unbound,
        }
    }
}

/// What stands at a place of a tree: the chords that lead on from it, in the
/// order of the children of the node, the action of the node, and whether the
/// way to the node is bound to that action. Where no chord leads on, the node
/// is a leaf. Where the way is not bound, the node is but a step on the way
/// to a binding.
pub type Stand = (Seq<Chord>, Action, bool);

/// The keys of the nodes, in their order.
spec fn keys_of(nodes: Seq<ActionNode>) -> Seq<Chord> {
    nodes.map_values(|n: ActionNode| n.key@)
}

/// No two of the nodes have the same chord as their key.
spec fn distinct_keys(nodes: Seq<ActionNode>) -> bool {
    forall|i: int, j: int| 0 <= i < j < nodes.len() ==> nodes[i].key@ != nodes[j].key@
}

/// One of the nodes has the chord `k` as its key.
spec fn has_key(nodes: Seq<ActionNode>, k: Chord) -> bool {
    exists|i: int| 0 <= i < nodes.len() && (#[trigger] nodes[i]).key@ == k
}

/// The place of the node whose key is the chord `k`.
spec fn index_of_key(nodes: Seq<ActionNode>, k: Chord) -> int {
    choose|i: int| 0 <= i < nodes.len() && (#[trigger] nodes[i]).key@ == k
}

/// The node among `nodes` whose key is the chord `k`.
spec fn child_in(nodes: Seq<ActionNode>, k: Chord) -> Option<ActionNode> {
    if has_key(nodes, k) {
        Some(nodes[index_of_key(nodes, k)])
    } else {
        None
    }
}

/// Whether the node may be the child of another: the way to it is bound, or
/// it has children.
spec fn kept(n: ActionNode) -> bool {
    n.children.own || n.children.nodes@.len() > 0
}

impl Children {
    /// No chord leads to two of the children, each child is bound or has
    /// children, and the same holds below each of them.
    #[verifier::type_invariant]
    spec fn ok(self) -> bool
        decreases self,
    {
        &&& distinct_keys(self.nodes@)
        &&& forall|i: int|
            0 <= i < self.nodes@.len() ==> (#[trigger] self.nodes@[i]).children.ok() && kept(
                self.nodes@[i],
            )
    }
}

impl ActionNode {
    /// The key of the node.
    pub open spec fn spec_key(self) -> KeySpec {
        self.key
    }

    /// The action of the node.
    pub open spec fn spec_action(self) -> KeyAction {
        self.action
    }

    /// Whether the way to the node is bound to its action. A node that `new`
    /// made is bound; a node that was made as a step on the way to a longer
    /// binding is not, and neither is the root that `default` makes. Of a
    /// node that is used as the root of a tree this says nothing: the empty
    /// sequence is never bound.
    pub closed spec fn holds_binding(self) -> bool {
        self.children.own
    }

    /// Whether the tree is in order: below every node, no chord leads to two
    /// children, and every child is bound or has children. This holds of
    /// every tree at all times.
    pub closed spec fn wf(self) -> bool {
        self.children.ok()
    }

    /// Whether the node has no children.
    pub closed spec fn spec_is_leaf(self) -> bool {
        self.children.nodes@.len() == 0
    }

    /// The child to which the chord `k` leads.
    pub closed spec fn child(self, k: Chord) -> Option<ActionNode> {
        child_in(self.children.nodes@, k)
    }

    /// The node to which the chords of `p`, entered one after the other, lead
    /// from this node.
    pub closed spec fn walk(self, p: Seq<Chord>) -> Option<ActionNode>
        decreases p.len(),
    {
        if p.len() == 0 {
            Some(self)
        } else {
            match self.child(p[0]) {
                Some(c) => c.walk(p.drop_first()),
                None => None,
            }
        }
    }

    /// What stands at the end of the way `p`: the chords that lead on from
    /// there, in the order of the children, the action of the node, and
    /// whether the way is bound to it.
    pub closed spec fn probe(self, p: Seq<Chord>) -> Option<Stand> {
        match self.walk(p) {
            Some(n) => Some((keys_of(n.children.nodes@), n.action@, n.children.own)),
            None => None,
        }
    }
}

impl View for ActionNode {
    type V = Bindings;

    /// The bindings kept in the tree below this node: the ways that are
    /// bound, each with the action of the node at its end.
    open spec fn view(&self) -> Bindings {
        Map::new(
            |p: Seq<Chord>| p.len() > 0 && self.probe(p) is Some && self.probe(p).unwrap().2,
            |p: Seq<Chord>| self.probe(p).unwrap().1,
        )
    }
}

proof fn lemma_child_in_at(nodes: Seq<ActionNode>, i: int)
    requires
        distinct_keys(nodes),
        0 <= i < nodes.len(),
    ensures
        child_in(nodes, nodes[i].key@) == Some(nodes[i]),
{
    let k = nodes[i].key@;
    assert(has_key(nodes, k));
    let j = index_of_key(nodes, k);
    assert(0 <= j < nodes.len() && nodes[j].key@ == k);
    if i < j {
        assert(nodes[i].key@ != nodes[j].key@);
    }
    if j < i {
        assert(nodes[j].key@ != nodes[i].key@);
    }
}

proof fn lemma_step(n: ActionNode, i: int, p: Seq<Chord>)
    requires
        distinct_keys(n.children.nodes@),
        0 <= i < n.children.nodes@.len(),
        p.len() > 0,
        p[0] == n.children.nodes@[i].key@,
    ensures
        n.walk(p) == n.children.nodes@[i].walk(p.drop_first()),
        n.probe(p) == n.children.nodes@[i].probe(p.drop_first()),
{
    lemma_child_in_at(n.children.nodes@, i);
}

proof fn lemma_miss(n: ActionNode, p: Seq<Chord>)
    requires
        p.len() > 0,
        !has_key(n.children.nodes@, p[0]),
    ensures
        n.walk(p) is None,
        n.probe(p) is None,
{
}

proof fn lemma_leaf_walk(n: ActionNode, p: Seq<Chord>)
    requires
        n.spec_is_leaf(),
        p.len() > 0,
    ensures
        n.walk(p) is None,
        n.probe(p) is None,
{
    assert(!has_key(n.children.nodes@, p[0]));
}

proof fn lemma_walk_wf(n: ActionNode, p: Seq<Chord>)
    requires
        n.wf(),
        n.walk(p) is Some,
    ensures
        n.walk(p).unwrap().wf(),
        p.len() > 0 ==> kept(n.walk(p).unwrap()),
    decreases p.len(),
{
    if p.len() > 0 {
        let c = n.child(p[0]).unwrap();
        let i = index_of_key(n.children.nodes@, p[0]);
        assert(c == n.children.nodes@[i]);
        lemma_walk_wf(c, p.drop_first());
        if p.len() == 1 {
            assert(p.drop_first() =~= Seq::<Chord>::empty());
        }
    }
}

proof fn lemma_walk_append(n: ActionNode, p: Seq<Chord>, q: Seq<Chord>)
    ensures
        n.walk(p + q) == match n.walk(p) {
            Some(m) => m.walk(q),
            None => None,
        },
    decreases p.len(),
{
    if p.len() == 0 {
        assert(p + q =~= q);
    } else {
        assert((p + q)[0] == p[0]);
        assert((p + q).drop_first() =~= p.drop_first() + q);
        match n.child(p[0]) {
            Some(c) => {
                lemma_walk_append(c, p.drop_first(), q);
            },
            None => {},
        }
    }
}

proof fn lemma_has_binding(n: ActionNode)
    requires
        n.wf(),
        !n.spec_is_leaf(),
    ensures
        exists|q: Seq<Chord>| #[trigger] n@.contains_key(q),
    decreases n,
{
    let c = n.children.nodes@[0];
    assert(c.wf() && kept(c));
    if c.children.own {
        let q = seq![c.key@];
        lemma_step(n, 0, q);
        assert(q.drop_first() =~= Seq::<Chord>::empty());
        assert(n@.contains_key(q));
    } else {
        lemma_has_binding(c);
        let t = choose|t: Seq<Chord>| #[trigger] c@.contains_key(t);
        let q = seq![c.key@] + t;
        lemma_step(n, 0, q);
        assert(q.drop_first() =~= t);
        assert(n@.contains_key(q));
    }
}

impl ActionNode {
    /// The bindings of a tree can be those of a mode: the empty sequence is
    /// not bound.
    pub proof fn lemma_view_proper(self)
        ensures
            crate::bindings::proper(self@),
    {
    }

    /// A way leads to a node exactly if some bound sequence starts with it.
    pub proof fn lemma_reaches_walk(self, p: Seq<Chord>)
        requires
            self.wf(),
            p.len() > 0,
        ensures
            reaches(self@, p) == (self.walk(p) is Some),
            reaches(self@, p) == (self.probe(p) is Some),
    {
        if self.walk(p) is Some {
            let m = self.walk(p).unwrap();
            lemma_walk_wf(self, p);
            if m.children.own {
                assert(self@.contains_key(p));
                assert(p.is_prefix_of(p));
            } else {
                lemma_has_binding(m);
                let q = choose|q: Seq<Chord>| #[trigger] m@.contains_key(q);
                lemma_walk_append(self, p, q);
                assert(self@.contains_key(p + q));
                assert(p.is_prefix_of(p + q));
            }
        }
        if reaches(self@, p) {
            let r = choose|r: Seq<Chord>| #[trigger] self@.contains_key(r) && p.is_prefix_of(r);
            let t = r.skip(p.len() as int);
            crate::bindings::lemma_prefix_index(p, r);
            assert(p + t =~= r);
            lemma_walk_append(self, p, t);
        }
    }

    /// The bindings below a node that is reached by the way `p` are what is
    /// left of the bindings of the tree once `p` has been entered.
    pub proof fn lemma_view_below(self, p: Seq<Chord>)
        requires
            self.walk(p) is Some,
        ensures
            self.walk(p).unwrap()@ == below(self@, p),
    {
        let m = self.walk(p).unwrap();
        let b = below(self@, p);
        assert forall|q: Seq<Chord>|
            #![trigger m@.contains_key(q)]
            #![trigger b.contains_key(q)]
            m@.contains_key(q) == b.contains_key(q) && (m@.contains_key(q) ==> m@[q] == b[q]) by {
            lemma_walk_append(self, p, q);
        }
        assert(m@ =~= b);
    }

    /// At the end of the empty way stands the node itself: with its action,
    /// with chords that lead on unless it is a leaf, and bound or not as it
    /// is.
    pub proof fn lemma_probe_here(self)
        ensures
            self.probe(Seq::<Chord>::empty()) is Some,
            self.probe(Seq::<Chord>::empty()).unwrap().1 == self.spec_action()@,
            self.probe(Seq::<Chord>::empty()).unwrap().2 == self.holds_binding(),
            (self.probe(Seq::<Chord>::empty()).unwrap().0.len() == 0) == self.spec_is_leaf(),
    {
    }

    /// How the node at the end of the way `p` stands to the bindings of the
    /// tree: it is a leaf exactly if no bound sequence goes on after `p`, the
    /// way to it is bound exactly if `p` is bound, and then to its action. A
    /// node that is not the root and is a leaf is bound.
    pub proof fn lemma_node_at(self, p: Seq<Chord>)
        requires
            self.wf(),
            self.walk(p) is Some,
        ensures
            self.walk(p).unwrap().spec_is_leaf() == !goes_on(self@, p),
            p.len() > 0 ==> self.walk(p).unwrap().holds_binding() == self@.contains_key(p),
            p.len() > 0 && self@.contains_key(p) ==> self.walk(p).unwrap().spec_action()@
                == self@[p],
            p.len() > 0 && self.walk(p).unwrap().spec_is_leaf() ==> self@.contains_key(p),
    {
        let m = self.walk(p).unwrap();
        lemma_walk_wf(self, p);
        self.lemma_view_below(p);
        m.lemma_leaf_no_bindings();
        crate::bindings::lemma_goes_on_below(self@, p);
    }

    /// What stands at the end of a way from a node that is reached by the way
    /// `p` stands at the end of the way that goes on from `p`.
    pub proof fn lemma_probe_below(self, p: Seq<Chord>, q: Seq<Chord>)
        requires
            self.walk(p) is Some,
        ensures
            self.walk(p).unwrap().probe(q) == self.probe(p + q),
    {
        lemma_walk_append(self, p, q);
    }

    /// A leaf holds no bindings below it, and only a leaf does.
    pub proof fn lemma_leaf_no_bindings(self)
        requires
            self.wf(),
        ensures
            self.spec_is_leaf() == self@.dom().is_empty(),
    {
        if self.spec_is_leaf() {
            assert forall|p: Seq<Chord>| !self@.contains_key(p) by {
                if p.len() > 0 {
                    lemma_leaf_walk(self, p);
                }
            }
            assert(self@.dom() =~= Set::<Seq<Chord>>::empty());
        } else {
            lemma_has_binding(self);
        }
    }
}

/// The place among the nodes of the one whose key is `key`.
fn find(nodes: &Vec<ActionNode>, key: &KeySpec) -> (place: Option<usize>)
    ensures
        match place {
            Some(i) => i < nodes@.len() && nodes@[i as int].key@ == key@,
            None => !has_key(nodes@, key@),
        },
{
    let mut i: usize = 0;
    while i < nodes.len()
        invariant
            i <= nodes@.len(),
            forall|j: int| 0 <= j < i ==> nodes@[j].key@ != key@,
        decreases nodes@.len() - i,
    {
        if nodes[i].key == *key {
            return Some(i);
        }
        i += 1;
    }
    None
}

impl ActionNode {
    /// A node with the given key, bound to the given action, and with no
    /// children.
    pub fn new(key: KeySpec, action: KeyAction) -> (node: ActionNode)
        ensures
            node.wf(),
            node.spec_is_leaf(),
            node.spec_key() == key,
            node.spec_action() == action,
            node.holds_binding(),
            node@ == Map::<Seq<Chord>, Action>::empty(),
            forall|p: Seq<Chord>| #[trigger]
                node.probe(p) == if p.len() == 0 {
                    Some((Seq::<Chord>::empty(), action@, true))
                } else {
                    None
                },
    {
        let node = ActionNode { key, action, children: Children { nodes: Vec::new(), own: true } };
        proof {
            assert(node.wf());
            assert(keys_of(node.children.nodes@) =~= Seq::<Chord>::empty());
            assert forall|p: Seq<Chord>| #[trigger]
                node.probe(p) == if p.len() == 0 {
                    Some((Seq::<Chord>::empty(), action@, true))
                } else {
                    None
                } by {
                if p.len() > 0 {
                    lemma_leaf_walk(node, p);
                }
            }
            assert(node@ =~= Map::<Seq<Chord>, Action>::empty());
        }
        node
    }

    /// Whether the node has no children: reaching it ends a key sequence.
    pub fn is_leaf(&self) -> (b: bool)
        ensures
            self.wf(),
            b == self.spec_is_leaf(),
            b == self@.dom().is_empty(),
    {
        proof {
            use_type_invariant(&self.children);
            self.lemma_leaf_no_bindings();
        }
        self.children.nodes.is_empty()
    }

    /// The child to which the chord `key` leads: one step of matching.
    pub fn get(&self, key: &KeySpec) -> (r: KeymapResult<&ActionNode>)
        ensures
            self.wf(),
            match r {
                Ok(next) => {
                    &&& self.child(key@) == Some(*next)
                    &&& next.wf()
                    &&& next.spec_key()@ == key@
                    &&& reaches(self@, seq![key@])
                    &&& next@ == below(self@, seq![key@])
                    &&& next.spec_is_leaf() == !goes_on(self@, seq![key@])
                    &&& next.holds_binding() == self@.contains_key(seq![key@])
                    &&& next.holds_binding() ==> next.spec_action()@ == self@[seq![key@]]
                    &&& next.spec_is_leaf() ==> next.holds_binding()
                    &&& forall|q: Seq<Chord>| #[trigger]
                        next.probe(q) == self.probe(seq![key@] + q)
                },
                Err(e) => {
                    &&& self.child(key@) is None
                    &&& !reaches(self@, seq![key@])
                    &&& e@ == Failure::KeyNotFound(Seq::<Chord>::empty(), key@)
                },
            },
    {
        let ghost p = seq![key@];
        proof {
            use_type_invariant(&self.children);
            assert(p.drop_first() =~= Seq::<Chord>::empty());
            self.lemma_reaches_walk(p);
        }
        match find(&self.children.nodes, key) {
            Some(i) => {
                let next = &self.children.nodes[i];
                proof {
                    lemma_step(*self, i as int, p);
                    self.lemma_view_below(p);
                    self.lemma_node_at(p);
                    assert forall|q: Seq<Chord>| #[trigger]
                        next.probe(q) == self.probe(seq![key@] + q) by {
                        self.lemma_probe_below(p, q);
                    }
                }
                Ok(next)
            },
            None => {
                proof {
                    lemma_miss(*self, p);
                }
                Err(KeymapError::KeyNotFound(KeySequence::new(), key.clone()))
            },
        }
    }

    /// The node to which the chords of `sequence` lead from this one, if they
    /// lead anywhere.
    pub fn lookup(&self, sequence: &KeySequence) -> (r: Option<&ActionNode>)
        ensures
            self.wf(),
            r == match self.walk(sequence@) {
                Some(n) => Some(&n),
                None => None,
            },
            sequence@.len() > 0 ==> r.is_some() == reaches(self@, sequence@),
            r matches Some(n) ==> {
                &&& n.wf()
                &&& n@ == below(self@, sequence@)
                &&& n.spec_is_leaf() == !goes_on(self@, sequence@)
                &&& sequence@.len() > 0 ==> n.holds_binding() == self@.contains_key(sequence@)
                &&& sequence@.len() > 0 && n.holds_binding() ==> n.spec_action()@
                    == self@[sequence@]
                &&& sequence@.len() > 0 && n.spec_is_leaf() ==> n.holds_binding()
                &&& forall|q: Seq<Chord>| #[trigger] n.probe(q) == self.probe(sequence@ + q)
            },
    {
        let ghost s = sequence@;
        let mut node: &ActionNode = self;
        let mut i: usize = 0;
        proof {
            use_type_invariant(&self.children);
            assert(s.take(0) =~= Seq::<Chord>::empty());
        }
        while i < sequence.0.len()
            invariant
                i <= s.len(),
                s == sequence@,
                s.len() == sequence.0@.len(),
                self.wf(),
                node.wf(),
                self.walk(s.take(i as int)) == Some(*node),
            decreases s.len() - i,
        {
            let ghost k = s[i as int];
            proof {
                assert(k == sequence.0@[i as int]@);
                assert(s.take(i as int + 1) =~= s.take(i as int) + seq![k]);
                assert(s =~= s.take(i as int + 1) + s.skip(i as int + 1));
                assert(seq![k].drop_first() =~= Seq::<Chord>::empty());
                lemma_walk_append(*self, s.take(i as int), seq![k]);
                lemma_walk_append(*self, s.take(i as int + 1), s.skip(i as int + 1));
            }
            match find(&node.children.nodes, &sequence.0[i]) {
                Some(c) => {
                    proof {
                        lemma_step(*node, c as int, seq![k]);
                    }
                    node = &node.children.nodes[c];
                },
                None => {
                    proof {
                        lemma_miss(*node, seq![k]);
                        if s.len() > 0 {
                            self.lemma_reaches_walk(s);
                        }
                    }
                    return None;
                },
            }
            i += 1;
        }
        proof {
            assert(s.take(i as int) =~= s);
            self.lemma_view_below(s);
            self.lemma_node_at(s);
            if s.len() > 0 {
                self.lemma_reaches_walk(s);
            }
            assert forall|q: Seq<Chord>| #[trigger] node.probe(q) == self.probe(s + q) by {
                self.lemma_probe_below(s, q);
            }
        }
        Some(node)
    }

    /// Takes the children out of the node, to work on them.
    fn take_children(&mut self) -> (nodes: Vec<ActionNode>)
        ensures
            nodes@ == old(self).children.nodes@,
            old(self).wf(),
            distinct_keys(nodes@),
            all_wf(nodes@),
            final(self).key == old(self).key,
            final(self).action == old(self).action,
            final(self).children.own == old(self).children.own,
            final(self).children.nodes@ == Seq::<ActionNode>::empty(),
    {
        proof {
            use_type_invariant(&self.children);
        }
        let mut nodes: Vec<ActionNode> = Vec::new();
        core::mem::swap(&mut self.children.nodes, &mut nodes);
        nodes
    }
}

/// Whether every tree of the row is in order, and may be a child.
spec fn all_wf(nodes: Seq<ActionNode>) -> bool {
    forall|i: int| 0 <= i < nodes.len() ==> (#[trigger] nodes[i]).wf() && kept(nodes[i])
}

/// Whether every tree of the row is in order, and all but the one at place
/// `c` may be a child.
spec fn all_wf_but(nodes: Seq<ActionNode>, c: int) -> bool {
    forall|i: int|
        0 <= i < nodes.len() ==> (#[trigger] nodes[i]).wf() && (i != c ==> kept(nodes[i]))
}

proof fn lemma_all_wf_update(x: Seq<ActionNode>, c: int, n: ActionNode)
    requires
        all_wf_but(x, c),
        0 <= c < x.len(),
        n.wf(),
        kept(n),
    ensures
        all_wf(x.update(c, n)),
{
    let y = x.update(c, n);
    assert forall|i: int| 0 <= i < y.len() implies (#[trigger] y[i]).wf() && kept(y[i]) by {
        if i != c {
            assert(y[i] == x[i]);
        }
    }
}

proof fn lemma_all_wf_push(x: Seq<ActionNode>, n: ActionNode)
    requires
        all_wf(x),
        n.wf(),
        kept(n),
    ensures
        all_wf(x.push(n)),
{
    let y = x.push(n);
    assert forall|i: int| 0 <= i < y.len() implies (#[trigger] y[i]).wf() && kept(y[i]) by {
        if i < x.len() {
            assert(y[i] == x[i]);
        }
    }
}

proof fn lemma_all_wf_remove(x: Seq<ActionNode>, c: int)
    requires
        all_wf_but(x, c),
        0 <= c < x.len(),
    ensures
        all_wf(x.remove(c)),
{
    let y = x.remove(c);
    assert forall|i: int| 0 <= i < y.len() implies (#[trigger] y[i]).wf() && kept(y[i]) by {
        let j = if i < c {
            i
        } else {
            i + 1
        };
        assert(y[i] == x[j]);
    }
}

/// Whether every chord but `k` leads to the same node in both rows of nodes.
spec fn agree_off(x: Seq<ActionNode>, y: Seq<ActionNode>, k: Chord) -> bool {
    forall|h: Chord| h != k ==> #[trigger] child_in(x, h) == child_in(y, h)
}

proof fn lemma_agree_update(x: Seq<ActionNode>, c: int, n: ActionNode)
    requires
        distinct_keys(x),
        0 <= c < x.len(),
        n.key@ == x[c].key@,
    ensures
        distinct_keys(x.update(c, n)),
        agree_off(x, x.update(c, n), n.key@),
{
    let y = x.update(c, n);
    let k = n.key@;
    assert forall|i: int, j: int| 0 <= i < j < y.len() implies y[i].key@ != y[j].key@ by {
        assert(x[i].key@ != x[j].key@);
    }
    assert(distinct_keys(y));
    assert forall|h: Chord| h != k implies #[trigger] child_in(x, h) == child_in(y, h) by {
        if has_key(x, h) {
            let i = index_of_key(x, h);
            assert(y[i] == x[i]);
            lemma_child_in_at(x, i);
            lemma_child_in_at(y, i);
        } else if has_key(y, h) {
            let j = index_of_key(y, h);
            assert(x[j] == y[j]);
            assert(has_key(x, h));
        }
    }
}

proof fn lemma_agree_push(x: Seq<ActionNode>, n: ActionNode)
    requires
        distinct_keys(x),
        !has_key(x, n.key@),
    ensures
        distinct_keys(x.push(n)),
        agree_off(x, x.push(n), n.key@),
{
    let y = x.push(n);
    let k = n.key@;
    assert forall|i: int, j: int| 0 <= i < j < y.len() implies y[i].key@ != y[j].key@ by {
        if j < x.len() {
            assert(x[i].key@ != x[j].key@);
        } else {
            assert(x[i].key@ != k);
        }
    }
    assert(distinct_keys(y));
    assert forall|h: Chord| h != k implies #[trigger] child_in(x, h) == child_in(y, h) by {
        if has_key(x, h) {
            let i = index_of_key(x, h);
            assert(y[i] == x[i]);
            lemma_child_in_at(x, i);
            lemma_child_in_at(y, i);
        } else if has_key(y, h) {
            let j = index_of_key(y, h);
            assert(x[j] == y[j]);
            assert(has_key(x, h));
        }
    }
}

proof fn lemma_agree_remove(x: Seq<ActionNode>, c: int)
    requires
        distinct_keys(x),
        0 <= c < x.len(),
    ensures
        distinct_keys(x.remove(c)),
        agree_off(x, x.remove(c), x[c].key@),
        !has_key(x.remove(c), x[c].key@),
{
    let y = x.remove(c);
    let k = x[c].key@;
    assert forall|j: int| 0 <= j < y.len() implies #[trigger] y[j] == x[if j < c {
        j
    } else {
        j + 1
    }] by {}
    assert forall|i: int, j: int| 0 <= i < j < y.len() implies y[i].key@ != y[j].key@ by {
        let a = if i < c {
            i
        } else {
            i + 1
        };
        let b = if j < c {
            j
        } else {
            j + 1
        };
        assert(x[a].key@ != x[b].key@);
    }
    assert(distinct_keys(y));
    if has_key(y, k) {
        let j = index_of_key(y, k);
        let b = if j < c {
            j
        } else {
            j + 1
        };
        assert(y[j] == x[b]);
        if b < c {
            assert(x[b].key@ != x[c].key@);
        } else {
            assert(x[c].key@ != x[b].key@);
        }
    }
    assert forall|h: Chord| h != k implies #[trigger] child_in(x, h) == child_in(y, h) by {
        if has_key(x, h) {
            let i = index_of_key(x, h);
            let j = if i < c {
                i
            } else {
                i - 1
            };
            assert(y[j] == x[i]);
            lemma_child_in_at(x, i);
            lemma_child_in_at(y, j);
        } else if has_key(y, h) {
            let j = index_of_key(y, h);
            let b = if j < c {
                j
            } else {
                j + 1
            };
            assert(y[j] == x[b]);
            assert(has_key(x, h));
        }
    }
}

proof fn lemma_agree_same(x: Seq<ActionNode>, k: Chord)
    ensures
        agree_off(x, x, k),
{
}

proof fn lemma_agree_trans(x: Seq<ActionNode>, y: Seq<ActionNode>, z: Seq<ActionNode>, k: Chord)
    requires
        agree_off(x, y, k),
        agree_off(y, z, k),
    ensures
        agree_off(x, z, k),
{
    assert forall|h: Chord| h != k implies #[trigger] child_in(x, h) == child_in(z, h) by {
        assert(child_in(x, h) == child_in(y, h));
        assert(child_in(y, h) == child_in(z, h));
    }
}

proof fn lemma_frame(x: ActionNode, y: ActionNode, k: Chord, p: Seq<Chord>)
    requires
        agree_off(x.children.nodes@, y.children.nodes@, k),
        p.len() > 0,
        p[0] != k,
    ensures
        x.walk(p) == y.walk(p),
        x.probe(p) == y.probe(p),
{
    assert(child_in(x.children.nodes@, p[0]) == child_in(y.children.nodes@, p[0]));
}

proof fn lemma_prefix_shift(p: Seq<Chord>, s: Seq<Chord>)
    requires
        p.len() > 0,
        s.len() > 0,
    ensures
        p.is_prefix_of(s) == (p[0] == s[0] && p.drop_first().is_prefix_of(s.drop_first())),
        (p == s) == (p[0] == s[0] && p.drop_first() == s.drop_first()),
{
    let pt = p.drop_first();
    let st = s.drop_first();
    if p.is_prefix_of(s) {
        crate::bindings::lemma_prefix_index(p, s);
        assert forall|i: int| 0 <= i < pt.len() implies pt[i] == st[i] by {
            assert(p[i + 1] == s[i + 1]);
        }
        assert(pt =~= st.subrange(0, pt.len() as int));
    }
    if p[0] == s[0] && pt.is_prefix_of(st) {
        crate::bindings::lemma_prefix_index(pt, st);
        assert forall|i: int| 0 <= i < p.len() implies p[i] == s[i] by {
            if i > 0 {
                assert(pt[i - 1] == st[i - 1]);
            }
        }
        assert(p =~= s.subrange(0, p.len() as int));
    }
    if p[0] == s[0] && pt == st {
        assert(p =~= seq![p[0]] + pt);
        assert(s =~= seq![s[0]] + st);
    }
}

/// The chords `keys` with `k` added at the end, unless it is among them.
pub open spec fn with_key(keys: Seq<Chord>, k: Chord) -> Seq<Chord> {
    if keys.contains(k) {
        keys
    } else {
        keys.push(k)
    }
}

/// The chords `keys` without `k`.
pub open spec fn without_key(keys: Seq<Chord>, k: Chord) -> Seq<Chord> {
    if keys.contains(k) {
        keys.remove(keys.index_of(k))
    } else {
        keys
    }
}

/// What stands at a place, or what a node that is made there starts with: no
/// children, no action, and no binding.
pub open spec fn found_or_new(was: Option<Stand>) -> Stand {
    match was {
        Some(stand) => stand,
        None => (Seq::<Chord>::empty(), Action::Nop, false),
    }
}

/// What stands at the end of the way `p` after the chords `s` were bound to
/// `a`, where `was` stood there before. At the end of `s` stands a leaf bound
/// to the action `a`, and nothing below it. A node on the way to it is as
/// before, with its action and bound if it was, or new and not bound; it has
/// among its children the one that goes on to `s`: where it was there, it
/// keeps its place, and else it is put last. Every other place is as before.
pub open spec fn bound_probe(
    was: Option<Stand>,
    s: Seq<Chord>,
    a: Action,
    p: Seq<Chord>,
) -> Option<Stand> {
    if p == s {
        Some((Seq::<Chord>::empty(), a, true))
    } else if p.is_prefix_of(s) {
        Some(
            (
                with_key(found_or_new(was).0, s[p.len() as int]),
                found_or_new(was).1,
                found_or_new(was).2,
            ),
        )
    } else if s.is_prefix_of(p) {
        None
    } else {
        was
    }
}

/// What stands at the end of the way `p` after the chords `s` were unbound,
/// where `was` stood there before and `left` are the bindings that are left.
/// Nothing stands at the end of `s` or below it. A node on the way to it is
/// gone where no binding that is left starts with `p`: it was but a step on
/// the way to what was unbound. Else it stays, bound if it was, with its
/// action and with its children in their order, but for the one that went on
/// to `s` where that one is gone. Every other place is as before.
pub open spec fn unbound_probe(
    was: Option<Stand>,
    left: Bindings,
    s: Seq<Chord>,
    p: Seq<Chord>,
) -> Option<Stand> {
    if s.is_prefix_of(p) {
        None
    } else if p.is_prefix_of(s) {
        match was {
            None => None,
            Some((keys, action, own)) => if p.len() > 0 && !reaches(left, p) {
                None
            } else if reaches(left, p.push(s[p.len() as int])) {
                Some((keys, action, own))
            } else {
                Some((without_key(keys, s[p.len() as int]), action, own))
            },
        }
    } else {
        was
    }
}

proof fn lemma_keys_has(x: Seq<ActionNode>, k: Chord)
    ensures
        keys_of(x).contains(k) == has_key(x, k),
        keys_of(x).len() == x.len(),
{
    if keys_of(x).contains(k) {
        let i = choose|i: int| 0 <= i < keys_of(x).len() && keys_of(x)[i] == k;
        assert(x[i].key@ == k);
    }
    if has_key(x, k) {
        let i = index_of_key(x, k);
        assert(keys_of(x)[i] == k);
    }
}

proof fn lemma_keys_update(x: Seq<ActionNode>, c: int, n: ActionNode)
    requires
        0 <= c < x.len(),
        n.key@ == x[c].key@,
    ensures
        keys_of(x.update(c, n)) == keys_of(x),
        keys_of(x.update(c, n)) == with_key(keys_of(x), n.key@),
{
    assert(keys_of(x.update(c, n)) =~= keys_of(x));
    lemma_keys_has(x, n.key@);
    assert(has_key(x, n.key@));
}

proof fn lemma_keys_push(x: Seq<ActionNode>, n: ActionNode)
    requires
        !has_key(x, n.key@),
    ensures
        keys_of(x.push(n)) == with_key(keys_of(x), n.key@),
{
    assert(keys_of(x.push(n)) =~= keys_of(x).push(n.key@));
    lemma_keys_has(x, n.key@);
}

proof fn lemma_keys_remove(x: Seq<ActionNode>, c: int)
    requires
        distinct_keys(x),
        0 <= c < x.len(),
    ensures
        keys_of(x.remove(c)) == without_key(keys_of(x), x[c].key@),
{
    let k = x[c].key@;
    let keys = keys_of(x);
    assert(keys[c] == k);
    assert(keys.contains(k));
    let i = keys.index_of(k);
    assert(0 <= i < keys.len() && keys[i] == k);
    if i < c {
        assert(x[i].key@ != x[c].key@);
    }
    if c < i {
        assert(x[c].key@ != x[i].key@);
    }
    assert(keys_of(x.remove(c)) =~= keys.remove(c));
}

proof fn lemma_keys_same(x: Seq<ActionNode>, k: Chord)
    requires
        !has_key(x, k),
    ensures
        without_key(keys_of(x), k) == keys_of(x),
{
    lemma_keys_has(x, k);
}

/// What binding the chords `s` to `a` does to the way `p` through a tree.
spec fn bound_path(
    before: ActionNode,
    after: ActionNode,
    s: Seq<Chord>,
    a: Action,
    p: Seq<Chord>,
) -> bool {
    after.probe(p) == bound_probe(before.probe(p), s, a, p)
}

spec fn bound_tree(before: ActionNode, after: ActionNode, s: Seq<Chord>, a: Action) -> bool {
    forall|p: Seq<Chord>| #[trigger] bound_path(before, after, s, a, p)
}

proof fn lemma_bound_last(before: ActionNode, after: ActionNode, c: int, k: Chord, a: Action)
    requires
        distinct_keys(after.children.nodes@),
        agree_off(before.children.nodes@, after.children.nodes@, k),
        keys_of(after.children.nodes@) == with_key(keys_of(before.children.nodes@), k),
        after.action@ == before.action@,
        after.children.own == before.children.own,
        0 <= c < after.children.nodes@.len(),
        after.children.nodes@[c].key@ == k,
        after.children.nodes@[c].spec_is_leaf(),
        after.children.nodes@[c].children.own,
        after.children.nodes@[c].action@ == a,
    ensures
        bound_tree(before, after, seq![k], a),
{
    let s = seq![k];
    assert forall|p: Seq<Chord>| #[trigger] bound_path(before, after, s, a, p) by {
        if p.len() == 0 {
            assert(p.is_prefix_of(s));
        } else {
            lemma_prefix_shift(p, s);
            lemma_prefix_shift(s, p);
            if p[0] == k {
                lemma_step(after, c, p);
                if p.len() == 1 {
                    assert(p =~= s);
                    assert(keys_of(after.children.nodes@[c].children.nodes@) =~= Seq::<
                        Chord,
                    >::empty());
                } else {
                    lemma_leaf_walk(after.children.nodes@[c], p.drop_first());
                    assert(s.drop_first() =~= Seq::<Chord>::empty());
                    assert(s.drop_first().is_prefix_of(p.drop_first()));
                }
            } else {
                lemma_frame(before, after, k, p);
            }
        }
    }
}

proof fn lemma_bound_inner(
    before: ActionNode,
    after: ActionNode,
    c: int,
    below_before: ActionNode,
    s: Seq<Chord>,
    a: Action,
)
    requires
        distinct_keys(after.children.nodes@),
        s.len() > 1,
        agree_off(before.children.nodes@, after.children.nodes@, s[0]),
        keys_of(after.children.nodes@) == with_key(keys_of(before.children.nodes@), s[0]),
        after.action@ == before.action@,
        after.children.own == before.children.own,
        0 <= c < after.children.nodes@.len(),
        after.children.nodes@[c].key@ == s[0],
        bound_tree(below_before, after.children.nodes@[c], s.drop_first(), a),
        below_before.probe(Seq::<Chord>::empty()) == Some(found_or_new(before.probe(seq![s[0]]))),
        forall|q: Seq<Chord>|
            q.len() > 0 ==> #[trigger] below_before.probe(q) == before.probe(seq![s[0]] + q),
    ensures
        bound_tree(before, after, s, a),
{
    let k = s[0];
    let st = s.drop_first();
    assert forall|p: Seq<Chord>| #[trigger] bound_path(before, after, s, a, p) by {
        if p.len() == 0 {
            assert(p.is_prefix_of(s));
        } else {
            lemma_prefix_shift(p, s);
            lemma_prefix_shift(s, p);
            if p[0] == k {
                let pt = p.drop_first();
                lemma_step(after, c, p);
                assert(bound_path(below_before, after.children.nodes@[c], st, a, pt));
                if p.is_prefix_of(s) && p.len() == s.len() {
                    assert(p =~= s);
                }
                if p.len() < s.len() {
                    assert(s[p.len() as int] == st[pt.len() as int]);
                }
                if pt.len() == 0 {
                    assert(pt.is_prefix_of(st));
                    assert(pt =~= Seq::<Chord>::empty());
                    assert(p =~= seq![k]);
                } else {
                    assert(p =~= seq![k] + pt);
                    assert(below_before.probe(pt) == before.probe(seq![k] + pt));
                }
            } else {
                lemma_frame(before, after, k, p);
            }
        }
    }
}

proof fn lemma_bound_view(before: ActionNode, after: ActionNode, s: Seq<Chord>, a: Action)
    requires
        s.len() > 0,
        bound_tree(before, after, s, a),
    ensures
        after@ == bound(before@, s, a),
{
    let b = bound(before@, s, a);
    assert forall|p: Seq<Chord>|
        #![trigger after@.contains_key(p)]
        #![trigger b.contains_key(p)]
        after@.contains_key(p) == b.contains_key(p) && (after@.contains_key(p) ==> after@[p]
            == b[p]) by {
        assert(bound_path(before, after, s, a, p));
        if p.is_prefix_of(s) && s.is_prefix_of(p) {
            assert(p =~= s);
        }
    }
    assert(after@ =~= b);
}

/// What unbinding the chords `s` does to the way `p` through a tree.
spec fn unbound_path(before: ActionNode, after: ActionNode, s: Seq<Chord>, p: Seq<Chord>) -> bool {
    if s.is_prefix_of(p) {
        after.probe(p) is None
    } else if p.is_prefix_of(s) {
        let k = s[p.len() as int];
        &&& before.probe(p) is Some
        &&& after.probe(p) is None ==> p.len() > 0 && !before.probe(p).unwrap().2
        &&& after.probe(p) is Some ==> {
            &&& after.probe(p).unwrap().1 == before.probe(p).unwrap().1
            &&& after.probe(p).unwrap().2 == before.probe(p).unwrap().2
            &&& after.probe(p).unwrap().0 == if after.probe(p.push(k)) is Some {
                before.probe(p).unwrap().0
            } else {
                without_key(before.probe(p).unwrap().0, k)
            }
        }
    } else {
        after.probe(p) == before.probe(p)
    }
}

spec fn unbound_tree(before: ActionNode, after: ActionNode, s: Seq<Chord>) -> bool {
    forall|p: Seq<Chord>| #[trigger] unbound_path(before, after, s, p)
}

proof fn lemma_unbound_last(before: ActionNode, after: ActionNode, k: Chord)
    requires
        agree_off(before.children.nodes@, after.children.nodes@, k),
        !has_key(after.children.nodes@, k),
        keys_of(after.children.nodes@) == without_key(keys_of(before.children.nodes@), k),
        after.action@ == before.action@,
        after.children.own == before.children.own,
    ensures
        unbound_tree(before, after, seq![k]),
{
    let s = seq![k];
    assert forall|p: Seq<Chord>| #[trigger] unbound_path(before, after, s, p) by {
        if p.len() == 0 {
            assert(p.is_prefix_of(s));
            assert(p.push(k) =~= s);
            lemma_miss(after, s);
        } else {
            lemma_prefix_shift(p, s);
            lemma_prefix_shift(s, p);
            if p[0] == k {
                lemma_miss(after, p);
                assert(s.drop_first() =~= Seq::<Chord>::empty());
                assert(s.drop_first().is_prefix_of(p.drop_first()));
            } else {
                lemma_frame(before, after, k, p);
            }
        }
    }
}

proof fn lemma_unbound_kept(before: ActionNode, after: ActionNode, c: int, s: Seq<Chord>)
    requires
        distinct_keys(before.children.nodes@),
        distinct_keys(after.children.nodes@),
        s.len() > 1,
        agree_off(before.children.nodes@, after.children.nodes@, s[0]),
        keys_of(after.children.nodes@) == keys_of(before.children.nodes@),
        after.action@ == before.action@,
        after.children.own == before.children.own,
        0 <= c < before.children.nodes@.len(),
        before.children.nodes@.len() == after.children.nodes@.len(),
        before.children.nodes@[c].key@ == s[0],
        after.children.nodes@[c].key@ == s[0],
        unbound_tree(before.children.nodes@[c], after.children.nodes@[c], s.drop_first()),
    ensures
        unbound_tree(before, after, s),
{
    let k = s[0];
    let st = s.drop_first();
    assert forall|p: Seq<Chord>| #[trigger] unbound_path(before, after, s, p) by {
        if p.len() == 0 {
            assert(p.is_prefix_of(s));
            assert(p.push(k) =~= seq![k]);
            assert(seq![k].drop_first() =~= Seq::<Chord>::empty());
            lemma_step(after, c, seq![k]);
        } else {
            lemma_prefix_shift(p, s);
            lemma_prefix_shift(s, p);
            if p[0] == k {
                let pt = p.drop_first();
                lemma_step(after, c, p);
                lemma_step(before, c, p);
                assert(unbound_path(before.children.nodes@[c], after.children.nodes@[c], st, pt));
                if pt.is_prefix_of(st) && pt != st {
                    if pt.len() == st.len() {
                        assert(pt =~= st);
                    }
                    let h = s[p.len() as int];
                    assert(h == st[pt.len() as int]);
                    assert(p.push(h).drop_first() =~= pt.push(h));
                    lemma_step(after, c, p.push(h));
                }
            } else {
                lemma_frame(before, after, k, p);
            }
        }
    }
}

proof fn lemma_unbound_pruned(
    before: ActionNode,
    after: ActionNode,
    c: int,
    emptied: ActionNode,
    s: Seq<Chord>,
)
    requires
        distinct_keys(before.children.nodes@),
        s.len() > 1,
        agree_off(before.children.nodes@, after.children.nodes@, s[0]),
        !has_key(after.children.nodes@, s[0]),
        keys_of(after.children.nodes@) == without_key(keys_of(before.children.nodes@), s[0]),
        after.action@ == before.action@,
        after.children.own == before.children.own,
        0 <= c < before.children.nodes@.len(),
        before.children.nodes@[c].key@ == s[0],
        !emptied.children.own,
        emptied.spec_is_leaf(),
        unbound_tree(before.children.nodes@[c], emptied, s.drop_first()),
    ensures
        unbound_tree(before, after, s),
{
    let k = s[0];
    let st = s.drop_first();
    assert forall|p: Seq<Chord>| #[trigger] unbound_path(before, after, s, p) by {
        if p.len() == 0 {
            assert(p.is_prefix_of(s));
            assert(p.push(k) =~= seq![k]);
            lemma_miss(after, seq![k]);
        } else {
            lemma_prefix_shift(p, s);
            lemma_prefix_shift(s, p);
            if p[0] == k {
                let pt = p.drop_first();
                lemma_miss(after, p);
                lemma_step(before, c, p);
                assert(unbound_path(before.children.nodes@[c], emptied, st, pt));
                if pt.len() == 0 {
                    assert(pt.is_prefix_of(st));
                    assert(pt =~= Seq::<Chord>::empty());
                } else {
                    lemma_leaf_walk(emptied, pt);
                }
            } else {
                lemma_frame(before, after, k, p);
            }
        }
    }
}

proof fn lemma_unbound_view(before: ActionNode, after: ActionNode, s: Seq<Chord>)
    requires
        s.len() > 0,
        unbound_tree(before, after, s),
    ensures
        after@ == unbound(before@, s),
{
    let b = unbound(before@, s);
    assert forall|p: Seq<Chord>|
        #![trigger after@.contains_key(p)]
        #![trigger b.contains_key(p)]
        after@.contains_key(p) == b.contains_key(p) && (after@.contains_key(p) ==> after@[p]
            == b[p]) by {
        if p.len() > 0 {
            assert(unbound_path(before, after, s, p));
        }
    }
    assert(after@ =~= b);
}

proof fn lemma_unbound_probe(before: ActionNode, after: ActionNode, s: Seq<Chord>)
    requires
        s.len() > 0,
        after.wf(),
        unbound_tree(before, after, s),
    ensures
        forall|p: Seq<Chord>| #[trigger]
            after.probe(p) == unbound_probe(before.probe(p), after@, s, p),
{
    assert forall|p: Seq<Chord>| #[trigger]
        after.probe(p) == unbound_probe(before.probe(p), after@, s, p) by {
        assert(unbound_path(before, after, s, p));
        if p.is_prefix_of(s) && !s.is_prefix_of(p) {
            let k = s[p.len() as int];
            after.lemma_reaches_walk(p.push(k));
            if p.len() > 0 {
                after.lemma_reaches_walk(p);
            }
        }
    }
}

/// Whether every way comes to the same in both trees.
spec fn same_tree(before: ActionNode, after: ActionNode) -> bool {
    forall|p: Seq<Chord>| #[trigger] after.probe(p) == before.probe(p)
}

proof fn lemma_same_tree_same(before: ActionNode, after: ActionNode)
    requires
        after.children.nodes@ == before.children.nodes@,
        after.action@ == before.action@,
        after.children.own == before.children.own,
    ensures
        same_tree(before, after),
{
    assert forall|p: Seq<Chord>| #[trigger] after.probe(p) == before.probe(p) by {
        if p.len() > 0 {
            assert(after.walk(p) == before.walk(p));
        }
    }
}

proof fn lemma_same_tree_kept(before: ActionNode, after: ActionNode, c: int, k: Chord)
    requires
        distinct_keys(before.children.nodes@),
        distinct_keys(after.children.nodes@),
        agree_off(before.children.nodes@, after.children.nodes@, k),
        keys_of(after.children.nodes@) == keys_of(before.children.nodes@),
        after.action@ == before.action@,
        after.children.own == before.children.own,
        0 <= c < before.children.nodes@.len(),
        before.children.nodes@.len() == after.children.nodes@.len(),
        before.children.nodes@[c].key@ == k,
        after.children.nodes@[c].key@ == k,
        same_tree(before.children.nodes@[c], after.children.nodes@[c]),
    ensures
        same_tree(before, after),
{
    assert forall|p: Seq<Chord>| #[trigger] after.probe(p) == before.probe(p) by {
        if p.len() > 0 {
            if p[0] == k {
                lemma_step(after, c, p);
                lemma_step(before, c, p);
                assert(after.children.nodes@[c].probe(p.drop_first())
                    == before.children.nodes@[c].probe(p.drop_first()));
            } else {
                lemma_frame(before, after, k, p);
            }
        }
    }
}

proof fn lemma_same_view(before: ActionNode, after: ActionNode)
    requires
        same_tree(before, after),
    ensures
        after@ == before@,
{
    assert forall|p: Seq<Chord>|
        #![trigger after@.contains_key(p)]
        #![trigger before@.contains_key(p)]
        after@.contains_key(p) == before@.contains_key(p) && (after@.contains_key(p) ==> after@[p]
            == before@[p]) by {
        assert(after.probe(p) == before.probe(p));
    }
    assert(after@ =~= before@);
}

/// The place among the nodes of the one whose key is `key`. Where there is
/// none, a node with that key and the given action, without children and not
/// bound, is put last, and its place is given: a step on the way to a
/// binding, which is not fit to stay before it has a child.
fn get_or_insert(nodes: &mut Vec<ActionNode>, key: &KeySpec, action: KeyAction) -> (place: usize)
    requires
        distinct_keys(old(nodes)@),
        all_wf(old(nodes)@),
    ensures
        place < final(nodes)@.len(),
        final(nodes)@[place as int].key@ == key@,
        distinct_keys(final(nodes)@),
        all_wf_but(final(nodes)@, place as int),
        agree_off(old(nodes)@, final(nodes)@, key@),
        keys_of(final(nodes)@) == with_key(keys_of(old(nodes)@), key@),
        if has_key(old(nodes)@, key@) {
            final(nodes)@ == old(nodes)@
        } else {
            &&& final(nodes)@ == old(nodes)@.push(final(nodes)@[place as int])
            &&& place == old(nodes)@.len()
            &&& final(nodes)@[place as int].spec_is_leaf()
            &&& final(nodes)@[place as int].action@ == action@
            &&& !final(nodes)@[place as int].children.own
        },
{
    match find(nodes, key) {
        Some(place) => {
            proof {
                lemma_agree_same(nodes@, key@);
                lemma_keys_has(nodes@, key@);
            }
            place
        },
        None => {
            let fresh = ActionNode {
                key: key.clone(),
                action,
                children: Children { nodes: Vec::new(), own: false },
            };
            proof {
                lemma_agree_push(nodes@, fresh);
                lemma_keys_push(nodes@, fresh);
                assert(fresh.wf());
                let y = nodes@.push(fresh);
                assert forall|i: int| 0 <= i < y.len() implies (#[trigger] y[i]).wf() && (i
                    != nodes@.len() ==> kept(y[i])) by {
                    if i < nodes@.len() {
                        assert(y[i] == nodes@[i]);
                    }
                }
            }
            nodes.push(fresh);
            nodes.len() - 1
        },
    }
}

/// The first `n` of the keys, as a sequence of its own.
fn entered(keys: &Vec<KeySpec>, n: usize) -> (sequence: KeySequence)
    requires
        n <= keys@.len(),
    ensures
        sequence@ == chords(keys@).take(n as int),
{
    let mut sequence = KeySequence::new();
    let mut i: usize = 0;
    while i < n
        invariant
            i <= n <= keys@.len(),
            sequence@ == chords(keys@).take(i as int),
        decreases n - i,
    {
        sequence.push(keys[i].clone());
        assert(chords(keys@).take(i as int + 1) =~= chords(keys@).take(i as int).push(
            keys@[i as int]@,
        ));
        i += 1;
    }
    sequence
}

impl ActionNode {
    /// Binds the chords of `keys` from place `at` on, seen from this node, to
    /// `action`.
    fn bind_at(&mut self, keys: &Vec<KeySpec>, at: usize, action: KeyAction)
        requires
            at < keys@.len(),
        ensures
            old(self).wf(),
            final(self).wf(),
            final(self).key == old(self).key,
            final(self).action == old(self).action,
            final(self).children.own == old(self).children.own,
            bound_tree(*old(self), *final(self), chords(keys@).skip(at as int), action@),
        decreases keys@.len() - at,
    {
        let ghost s = chords(keys@).skip(at as int);
        let ghost k = keys@[at as int]@;
        let ghost a = action@;
        let mut nodes = self.take_children();
        let ghost before = nodes@;
        proof {
            assert(s[0] == k);
            assert(s.drop_first() =~= chords(keys@).skip(at as int + 1));
        }
        if at == keys.len() - 1 {
            let leaf = ActionNode::new(keys[at].clone(), action);
            let ghost c: int;
            match find(&nodes, &keys[at]) {
                Some(i) => {
                    proof {
                        c = i as int;
                        lemma_agree_update(before, c, leaf);
                        lemma_all_wf_update(before, c, leaf);
                        lemma_keys_update(before, c, leaf);
                    }
                    nodes[i] = leaf;
                },
                None => {
                    proof {
                        c = before.len() as int;
                        lemma_agree_push(before, leaf);
                        lemma_all_wf_push(before, leaf);
                        lemma_keys_push(before, leaf);
                    }
                    nodes.push(leaf);
                },
            }
            self.children.nodes = nodes;
            proof {
                assert(s =~= seq![k]);
                assert(self.children.nodes@[c] == leaf);
                lemma_bound_last(*old(self), *self, c, k, a);
            }
        } else {
            let c = get_or_insert(&mut nodes, &keys[at], KeyAction::Nop);
            let ghost middle = nodes@;
            let ghost below_before = middle[c as int];
            proof {
                assert(below_before.wf());
                assert(all_wf_but(before, c as int));
                assert(seq![k].drop_first() =~= Seq::<Chord>::empty());
                if has_key(before, k) {
                    lemma_step(*old(self), c as int, seq![k]);
                } else {
                    lemma_miss(*old(self), seq![k]);
                    assert(keys_of(below_before.children.nodes@) =~= Seq::<Chord>::empty());
                }
                assert(below_before.probe(Seq::<Chord>::empty()) == Some(
                    found_or_new(old(self).probe(seq![k])),
                ));
                assert forall|q: Seq<Chord>| q.len() > 0 implies #[trigger] below_before.probe(q)
                    == old(self).probe(seq![s[0]] + q) by {
                    let p = seq![k] + q;
                    assert(p.drop_first() =~= q);
                    if has_key(before, k) {
                        lemma_step(*old(self), c as int, p);
                    } else {
                        lemma_miss(*old(self), p);
                        lemma_leaf_walk(below_before, q);
                    }
                }
            }
            let child = &mut nodes[c];
            child.bind_at(keys, at + 1, action);
            proof {
                let after_child = nodes@[c as int];
                assert(nodes@ =~= middle.update(c as int, after_child));
                assert(bound_path(
                    below_before,
                    after_child,
                    s.drop_first(),
                    a,
                    Seq::<Chord>::empty(),
                ));
                assert(Seq::<Chord>::empty().is_prefix_of(s.drop_first()));
                lemma_keys_has(after_child.children.nodes@, s[1]);
                assert(kept(after_child));
                lemma_agree_update(middle, c as int, after_child);
                lemma_agree_trans(before, middle, nodes@, k);
                lemma_all_wf_update(middle, c as int, after_child);
                lemma_keys_update(middle, c as int, after_child);
            }
            self.children.nodes = nodes;
            proof {
                lemma_bound_inner(*old(self), *self, c as int, below_before, s, a);
            }
        }
        proof {
            use_type_invariant(&self.children);
        }
    }

    /// Binds a key sequence to an action. Where the sequence, or one that
    /// starts with it, was bound before, the new binding takes the place of
    /// the old one. Where a sequence with which it starts was bound before,
    /// that binding is overlaid: it gives no action while the longer one is
    /// there, and is kept for the time when it is gone. A binding without
    /// chords is turned down.
    pub fn bind(&mut self, binding: KeyBinding) -> (r: KeymapResult<()>)
        ensures
            final(self).wf(),
            final(self).spec_key() == old(self).spec_key(),
            final(self).spec_action() == old(self).spec_action(),
            match r {
                Ok(()) => {
                    &&& binding.sequences@.len() > 0
                    &&& final(self)@ == bound(old(self)@, binding.sequences@, binding.action@)
                    &&& forall|p: Seq<Chord>| #[trigger]
                        final(self).probe(p) == bound_probe(
                            old(self).probe(p),
                            binding.sequences@,
                            binding.action@,
                            p,
                        )
                },
                Err(e) => {
                    &&& binding.sequences@.len() == 0
                    &&& e@ == Failure::InvalidSequence
                    &&& final(self)@ == old(self)@
                    &&& forall|p: Seq<Chord>| #[trigger] final(self).probe(p) == old(self).probe(p)
                },
            },
    {
        let KeyBinding { sequences, action } = binding;
        if sequences.0.len() == 0 {
            proof {
                use_type_invariant(&self.children);
            }
            return Err(KeymapError::InvalidSequence);
        }
        self.bind_at(&sequences.0, 0, action);
        proof {
            assert(chords(sequences.0@).skip(0) =~= sequences@);
            lemma_bound_view(*old(self), *self, sequences@, action@);
            assert forall|p: Seq<Chord>| #[trigger]
                self.probe(p) == bound_probe(old(self).probe(p), sequences@, action@, p) by {
                assert(bound_path(*old(self), *self, sequences@, action@, p));
            }
        }
        Ok(())
    }

    /// Unbinds the chords of `keys` from place `at` on, seen from this node.
    fn unbind_at(&mut self, keys: &Vec<KeySpec>, at: usize) -> (r: Result<(), KeymapError>)
        requires
            at < keys@.len(),
        ensures
            old(self).wf(),
            final(self).wf(),
            final(self).key == old(self).key,
            final(self).action == old(self).action,
            final(self).children.own == old(self).children.own,
            match r {
                Ok(()) => {
                    &&& unbound_tree(*old(self), *final(self), chords(keys@).skip(at as int))
                    &&& old(self).walk(chords(keys@).skip(at as int).drop_last()) is Some
                },
                Err(e) => {
                    &&& same_tree(*old(self), *final(self))
                    &&& final(self).children.nodes@.len() == old(self).children.nodes@.len()
                    &&& e@ is KeyNotFound
                    &&& at <= e@->KeyNotFound_0.len() < keys@.len() - 1
                    &&& e@->KeyNotFound_0 == chords(keys@).take(e@->KeyNotFound_0.len() as int)
                    &&& e@->KeyNotFound_1 == chords(keys@)[e@->KeyNotFound_0.len() as int]
                    &&& old(self).walk(
                        chords(keys@).subrange(at as int, e@->KeyNotFound_0.len() as int),
                    ) is Some
                    &&& old(self).walk(
                        chords(keys@).subrange(at as int, e@->KeyNotFound_0.len() as int + 1),
                    ) is None
                },
            },
        decreases keys@.len() - at,
    {
        let ghost all = chords(keys@);
        let ghost s = all.skip(at as int);
        let ghost k = keys@[at as int]@;
        let mut nodes = self.take_children();
        let ghost before = nodes@;
        let found = find(&nodes, &keys[at]);
        proof {
            assert(s[0] == k);
            assert(s.drop_first() =~= all.skip(at as int + 1));
        }
        let r = if at == keys.len() - 1 {
            proof {
                assert(s =~= seq![k]);
                assert(s.drop_last() =~= Seq::<Chord>::empty());
            }
            match found {
                Some(c) => {
                    proof {
                        lemma_agree_remove(before, c as int);
                        lemma_all_wf_remove(before, c as int);
                        lemma_keys_remove(before, c as int);
                    }
                    nodes.remove(c);
                    self.children.nodes = nodes;
                    proof {
                        lemma_unbound_last(*old(self), *self, k);
                    }
                    Ok(())
                },
                None => {
                    self.children.nodes = nodes;
                    proof {
                        lemma_agree_same(before, k);
                        lemma_keys_same(before, k);
                        lemma_unbound_last(*old(self), *self, k);
                    }
                    Ok(())
                },
            }
        } else {
            match found {
                None => {
                    self.children.nodes = nodes;
                    proof {
                        assert(all.subrange(at as int, at as int) =~= Seq::<Chord>::empty());
                        assert(all.subrange(at as int, at as int + 1) =~= seq![k]);
                        lemma_miss(*old(self), seq![k]);
                        lemma_same_tree_same(*old(self), *self);
                    }
                    Err(KeymapError::KeyNotFound(entered(keys, at), keys[at].clone()))
                },
                Some(c) => {
                    let ghost before_child = before[c as int];
                    proof {
                        assert(before_child.wf());
                    }
                    let child = &mut nodes[c];
                    let below = child.unbind_at(keys, at + 1);
                    let ghost after_child = nodes@[c as int];
                    let ghost middle = nodes@;
                    proof {
                        assert(middle =~= before.update(c as int, after_child));
                        assert(all_wf_but(before, c as int));
                        assert(all_wf_but(middle, c as int));
                        lemma_agree_update(before, c as int, after_child);
                        lemma_keys_update(before, c as int, after_child);
                    }
                    match below {
                        Err(e) => {
                            proof {
                                assert(kept(before_child));
                                lemma_all_wf_update(before, c as int, after_child);
                            }
                            self.children.nodes = nodes;
                            proof {
                                let j = e@->KeyNotFound_0.len() as int;
                                lemma_same_tree_kept(*old(self), *self, c as int, k);
                                assert(all.subrange(at as int, j) =~= seq![k] + all.subrange(
                                    at as int + 1,
                                    j,
                                ));
                                assert(all.subrange(at as int, j + 1) =~= seq![k] + all.subrange(
                                    at as int + 1,
                                    j + 1,
                                ));
                                lemma_step(*old(self), c as int, all.subrange(at as int, j));
                                lemma_step(*old(self), c as int, all.subrange(at as int, j + 1));
                                assert(all.subrange(at as int, j).drop_first() =~= all.subrange(
                                    at as int + 1,
                                    j,
                                ));
                                assert(all.subrange(at as int, j + 1).drop_first()
                                    =~= all.subrange(at as int + 1, j + 1));
                            }
                            Err(e)
                        },
                        Ok(()) => {
                            proof {
                                lemma_step(*old(self), c as int, s.drop_last());
                                assert(s.drop_last().drop_first() =~= s.drop_first().drop_last());
                            }
                            if nodes[c].is_leaf() && !nodes[c].children.own {
                                proof {
                                    lemma_agree_remove(middle, c as int);
                                    lemma_all_wf_remove(middle, c as int);
                                    lemma_keys_remove(middle, c as int);
                                    lemma_agree_trans(before, middle, middle.remove(c as int), k);
                                }
                                nodes.remove(c);
                                self.children.nodes = nodes;
                                proof {
                                    lemma_unbound_pruned(
                                        *old(self),
                                        *self,
                                        c as int,
                                        after_child,
                                        s,
                                    );
                                }
                                Ok(())
                            } else {
                                proof {
                                    lemma_all_wf_update(before, c as int, after_child);
                                }
                                self.children.nodes = nodes;
                                proof {
                                    lemma_unbound_kept(*old(self), *self, c as int, s);
                                }
                                Ok(())
                            }
                        },
                    }
                },
            }
        };
        proof {
            use_type_invariant(&self.children);
        }
        r
    }
}

proof fn lemma_walk_prefix(n: ActionNode, p: Seq<Chord>, q: Seq<Chord>)
    requires
        n.walk(q) is Some,
        p.is_prefix_of(q),
    ensures
        n.walk(p) is Some,
{
    let t = q.skip(p.len() as int);
    crate::bindings::lemma_prefix_index(p, q);
    assert(p + t =~= q);
    lemma_walk_append(n, p, t);
}

impl ActionNode {
    /// Takes the binding of a key sequence, and every binding that starts with
    /// the sequence, out of the tree. Nodes that were but steps on the way to
    /// what is taken out, and are left without a child by this, go away as
    /// well. A node on the way that is itself bound stays: where it is left
    /// without a child, it is a leaf again and gives its action. Nothing
    /// changes where no binding starts with the sequence. The chords before
    /// the last have to lead somewhere: the first that does not is reported,
    /// with the chords before it, and the tree stays as it was. A sequence
    /// without chords is turned down.
    pub fn unbind(&mut self, sequences: KeySequence) -> (r: KeymapResult<()>)
        ensures
            final(self).wf(),
            final(self).spec_key() == old(self).spec_key(),
            final(self).spec_action() == old(self).spec_action(),
            match r {
                Ok(()) => {
                    &&& sequences@.len() > 0
                    &&& forall|j: int|
                        0 <= j < sequences@.len() - 1 ==> reaches(
                            old(self)@,
                            #[trigger] sequences@.take(j + 1),
                        )
                    &&& final(self)@ == unbound(old(self)@, sequences@)
                    &&& forall|p: Seq<Chord>| #[trigger]
                        final(self).probe(p) == unbound_probe(
                            old(self).probe(p),
                            final(self)@,
                            sequences@,
                            p,
                        )
                },
                Err(e) => {
                    &&& final(self)@ == old(self)@
                    &&& forall|p: Seq<Chord>| #[trigger] final(self).probe(p) == old(self).probe(p)
                    &&& if sequences@.len() == 0 {
                        e@ == Failure::InvalidSequence
                    } else {
                        exists|j: int|
                            0 <= j < sequences@.len() - 1 && #[trigger] leaves_at(
                                old(self)@,
                                sequences@,
                                j,
                            ) && e@ == Failure::KeyNotFound(sequences@.take(j), sequences@[j])
                    }
                },
            },
    {
        if sequences.0.len() == 0 {
            proof {
                use_type_invariant(&self.children);
            }
            return Err(KeymapError::InvalidSequence);
        }
        let ghost s = sequences@;
        proof {
            assert(chords(sequences.0@).skip(0) =~= s);
        }
        match self.unbind_at(&sequences.0, 0) {
            Ok(_) => {
                proof {
                    lemma_unbound_view(*old(self), *self, s);
                    lemma_unbound_probe(*old(self), *self, s);
                    assert forall|j: int| 0 <= j < s.len() - 1 implies reaches(
                        old(self)@,
                        #[trigger] s.take(j + 1),
                    ) by {
                        assert(s.take(j + 1) =~= s.drop_last().subrange(0, j + 1));
                        lemma_walk_prefix(*old(self), s.take(j + 1), s.drop_last());
                        old(self).lemma_reaches_walk(s.take(j + 1));
                    }
                }
                Ok(())
            },
            Err(e) => {
                proof {
                    lemma_same_view(*old(self), *self);
                    let j = e@->KeyNotFound_0.len() as int;
                    assert(s.subrange(0, j) =~= s.take(j));
                    assert(s.subrange(0, j + 1) =~= s.take(j + 1));
                    old(self).lemma_reaches_walk(s.take(j + 1));
                    assert forall|m: int| 0 <= m < j implies reaches(
                        old(self)@,
                        #[trigger] s.take(m + 1),
                    ) by {
                        assert(s.take(m + 1) =~= s.take(j).subrange(0, m + 1));
                        lemma_walk_prefix(*old(self), s.take(m + 1), s.take(j));
                        old(self).lemma_reaches_walk(s.take(m + 1));
                    }
                    assert(leaves_at(old(self)@, s, j));
                }
                Err(e)
            },
        }
    }

    /// What entering the chords of `sequence`, starting at this node, comes
    /// to: the action the sequence is bound to, or that more chords are
    /// awaited, or that no binding starts with them.
    pub fn resolve(&self, sequence: &KeySequence) -> (m: Resolution)
        ensures
            self.wf(),
            m@ == outcome(self@, sequence@),
    {
        match self.lookup(sequence) {
            None => {
                proof {
                    if sequence@.len() == 0 {
                        assert(sequence@ =~= Seq::<Chord>::empty());
                    }
                    assert(sequence@.is_prefix_of(sequence@));
                }
                Resolution::Unbound
            },
            Some(node) => {
                if node.is_leaf() {
                    if sequence.0.len() > 0 {
                        Resolution::Bound(node.action.clone())
                    } else {
                        proof {
                            assert(sequence@ =~= Seq::<Chord>::empty());
                        }
                        Resolution::Unbound
                    }
                } else {
                    Resolution::Pending
                }
            },
        }
    }
}

proof fn lemma_walk_push(n: ActionNode, p: Seq<Chord>, k: Chord)
    ensures
        n.probe(p.push(k)) is Some <==> n.probe(p) is Some && n.probe(p).unwrap().0.contains(k),
{
    assert(p.push(k) =~= p + seq![k]);
    lemma_walk_append(n, p, seq![k]);
    if n.walk(p) is Some {
        let m = n.walk(p).unwrap();
        let q = seq![k];
        lemma_keys_has(m.children.nodes@, k);
        assert(q.drop_first() =~= Seq::<Chord>::empty());
        assert(q[0] == k);
        match m.child(k) {
            Some(c) => {
                assert(c.walk(q.drop_first()) == Some(c));
                assert(m.walk(q) == Some(c));
            },
            None => {
                assert(m.walk(q) is None);
            },
        }
    }
}

impl ActionNode {
    /// Binding a sequence and then unbinding it leaves the tree as it was,
    /// place by place, where neither the sequence nor one that starts with it
    /// was bound before: every node that was there is there, with its
    /// children in their order, its action and its binding, a node on the way
    /// to the sequence too, and no other node is. Here `self` is the tree
    /// before, `bound_tree` the tree after the binding and `after` the tree
    /// after the unbinding.
    pub proof fn lemma_bind_unbind_restores_tree(
        self,
        bound_tree: ActionNode,
        after: ActionNode,
        s: Seq<Chord>,
        a: Action,
    )
        requires
            self.wf(),
            s.len() > 0,
            !reaches(self@, s),
            forall|p: Seq<Chord>| #[trigger]
                bound_tree.probe(p) == bound_probe(self.probe(p), s, a, p),
            after@ == unbound(bound(self@, s, a), s),
            forall|p: Seq<Chord>| #[trigger]
                after.probe(p) == unbound_probe(bound_tree.probe(p), after@, s, p),
        ensures
            after@ == self@,
            forall|p: Seq<Chord>| #[trigger] after.probe(p) == self.probe(p),
    {
        crate::bindings::lemma_unbound_bound(self@, s, a);
        self.lemma_reaches_walk(s);
        assert forall|p: Seq<Chord>| #[trigger] after.probe(p) == self.probe(p) by {
            assert(bound_tree.probe(p) == bound_probe(self.probe(p), s, a, p));
            assert(after.probe(p) == unbound_probe(bound_tree.probe(p), after@, s, p));
            if s.is_prefix_of(p) {
                if self.walk(p) is Some {
                    lemma_walk_prefix(self, s, p);
                }
            } else if p.is_prefix_of(s) {
                let k = s[p.len() as int];
                lemma_walk_push(self, p, k);
                self.lemma_reaches_walk(p.push(k));
                if p.len() > 0 {
                    self.lemma_reaches_walk(p);
                }
                if self.probe(p) is Some {
                    let keys = self.probe(p).unwrap().0;
                    if !keys.contains(k) {
                        let more = keys.push(k);
                        assert(more[keys.len() as int] == k);
                        assert(more.contains(k));
                        let i = more.index_of(k);
                        assert(0 <= i < more.len() && more[i] == k);
                        if i < keys.len() {
                            assert(keys[i] == k);
                        }
                        assert(more.remove(i) =~= keys);
                    }
                }
            }
        }
    }
}

impl Default for ActionNode {
    /// The root of an empty tree.
    fn default() -> (node: ActionNode)
        ensures
            node.wf(),
            node.spec_is_leaf(),
            node@ == Map::<Seq<Chord>, Action>::empty(),
            node.spec_key()@.is_sentinel(),
            node.spec_action()@ == Action::Nop,
            !node.holds_binding(),
            forall|p: Seq<Chord>| #[trigger]
                node.probe(p) == if p.len() == 0 {
                    Some((Seq::<Chord>::empty(), Action::Nop, false))
                } else {
                    None
                },
    {
        let key = KeySpec(Vec::new(), KeyCode::Null);
        assert(key@.modifiers =~= Set::<crate::keys::KeyModifier>::empty());
        let node = ActionNode {
            key,
            action: KeyAction::Nop,
            children: Children { nodes: Vec::new(), own: false },
        };
        proof {
            assert(node.wf());
            assert(keys_of(node.children.nodes@) =~= Seq::<Chord>::empty());
            assert forall|p: Seq<Chord>| #[trigger]
                node.probe(p) == if p.len() == 0 {
                    Some((Seq::<Chord>::empty(), Action::Nop, false))
                } else {
                    None
                } by {
                if p.len() > 0 {
                    lemma_leaf_walk(node, p);
                }
            }
            assert(node@ =~= Map::<Seq<Chord>, Action>::empty());
        }
        node
    }
}

} // verus!
