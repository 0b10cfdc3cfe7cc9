//! An append-only registry of externally-contributed elements.
//!
//! Many independent call sites each build one [`CollectionNode`] around their
//! element and push it into a shared [`Collection`]. The collection never
//! removes anything: nodes form a chain, newest first, anchored at the head,
//! and each node keeps a predecessor link that is set exactly once, at the
//! moment it is pushed, and never mutated again. Iteration walks the chain
//! from a snapshot of the head, so a traversal begun before a push still sees
//! exactly the chain that existed when it started.
//!
//! Nodes live in an arena owned by the collection and are linked by index, so
//! the chain is well-formed by construction: every predecessor link points
//! strictly earlier in the arena, and walking it always terminates.

use vstd::prelude::*;

verus! {

/// One entry of a [`Collection`]: the contributed element together with the
/// link to the node that was head just before this one was pushed.
pub struct CollectionNode<E> {
    elem: E,
    pred: Option<usize>,
}

impl<E> CollectionNode<E> {
    /// The element this node carries.
    pub closed spec fn element(self) -> E {
        self.elem
    }

    /// The arena index of the node pushed just before this one, or `None` if
    /// this node was pushed into an empty collection (or not pushed yet).
    pub closed spec fn predecessor(self) -> Option<usize> {
        self.pred
    }

    /// Builds a node around `elem`, with its predecessor slot in the empty,
    /// just-constructed state that `Collection::push` requires.
    pub fn new(elem: E) -> (r: CollectionNode<E>)
        ensures
            r.element() == elem,
            r.predecessor() is None,
    {
        CollectionNode { elem, pred: None }
    }
}

/// An append-only collection of nodes. The arena holds every node ever
/// pushed, in insertion order; `head` is the arena index of the most recently
/// pushed node, the anchor of the chain.
pub struct Collection<E> {
    nodes: Vec<CollectionNode<E>>,
    head: Option<usize>,
}

impl<E> Collection<E> {
    /// How many nodes have been pushed.
    pub closed spec fn node_count(self) -> nat {
        self.nodes@.len()
    }

    /// The node stored at arena index `i`.
    pub closed spec fn node_at(self, i: int) -> CollectionNode<E> {
        self.nodes@[i]
    }

    /// The arena index of the chain's head, or `None` if nothing was pushed.
    pub closed spec fn head_index(self) -> Option<usize> {
        self.head
    }

    /// The elements in insertion order, oldest first.
    pub closed spec fn pushed(self) -> Seq<E> {
        self.nodes@.map(|i: int, n: CollectionNode<E>| n.element())
    }

    /// Well-formedness: the head is the most recently pushed node, and every
    /// node's predecessor is exactly the node pushed just before it. This
    /// holds after construction and is preserved by every push.
    pub open spec fn wf(self) -> bool {
        &&& (self.head_index() is Some <==> self.node_count() > 0)
        &&& (self.node_count() > 0 ==> self.head_index() == Some((self.node_count() - 1) as usize))
        &&& (forall|i: int|
            0 <= i < self.node_count() ==> #[trigger] self.node_at(i).predecessor() == (if i == 0 {
                Option::<usize>::None
            } else {
                Some((i - 1) as usize)
            }))
    }

    /// The elements of the chain anchored at `cur`, newest first. A link that
    /// does not point strictly earlier in the arena ends the walk, so the
    /// sequence is finite for every argument; under `wf` no such link exists.
    pub open spec fn chain_from(self, cur: Option<usize>) -> Seq<E>
        decreases (match cur {
            Some(i) => i as int + 1,
            None => 0int,
        }),
    {
        match cur {
            None => Seq::empty(),
            Some(i) => {
                if (i as int) < self.node_count() {
                    let n = self.node_at(i as int);
                    match n.predecessor() {
                        None => seq![n.element()],
                        Some(p) => {
                            if p < i {
                                seq![n.element()] + self.chain_from(Some(p))
                            } else {
                                seq![n.element()]
                            }
                        },
                    }
                } else {
                    Seq::empty()
                }
            },
        }
    }

    /// Builds an empty collection: no nodes, empty head.
    pub fn new() -> (r: Collection<E>)
        ensures
            r.wf(),
            r@ == Seq::<E>::empty(),
            r.pushed() == Seq::<E>::empty(),
            r.node_count() == 0,
    {
        Collection { nodes: Vec::new(), head: None }
    }

    /// Links `node` in as the new head. The node must be in its
    /// just-constructed state: its predecessor slot is still empty, so it is
    /// not already linked into this or any other collection. Taking the node
    /// by value makes pushing it twice impossible.
    ///
    /// The predecessor slot is written exactly once, here, with the old head;
    /// every node already linked is left untouched, so a chain snapshot taken
    /// before this push still walks to the same elements afterwards (the
    /// final `ensures` clause).
    pub fn push(&mut self, node: CollectionNode<E>)
        requires
            old(self).wf(),
            node.predecessor() is None,
        ensures
            final(self).wf(),
            final(self).node_count() == old(self).node_count() + 1,
            final(self)@ == seq![node.element()] + old(self)@,
            final(self).pushed() == old(self).pushed().push(node.element()),
            forall|it: CollectionIter| it.valid_for(*old(self))
                ==> #[trigger] it.remaining(*final(self)) == it.remaining(*old(self)),
    {
        let ghost oldc = *self;
        let mut node = node;
        node.pred = self.head;
        self.nodes.push(node);
        self.head = Some(self.nodes.len() - 1);
        proof {
            let newc = *self;
            let n: int = oldc.node_count() as int;
            assert forall|i: int| 0 <= i < newc.node_count()
                implies #[trigger] newc.node_at(i).predecessor() == (if i == 0 {
                    Option::<usize>::None
                } else {
                    Some((i - 1) as usize)
                }) by {
                if i < n {
                    assert(oldc.node_at(i).predecessor() == (if i == 0 {
                        Option::<usize>::None
                    } else {
                        Some((i - 1) as usize)
                    }));
                }
            }
            assert forall|it: CollectionIter| it.valid_for(oldc)
                implies #[trigger] it.remaining(newc) == it.remaining(oldc) by {
                lemma_chain_from_stable(oldc, newc, it.cursor());
            }
            assert(newc.pushed() =~= oldc.pushed().push(newc.node_at(n).element()));
            if n > 0 {
                lemma_chain_from_stable(oldc, newc, Some((n - 1) as usize));
            }
            assert(newc@ =~= seq![newc.node_at(n).element()] + oldc@);
        }
    }

    /// Snapshots the current head and returns an iterator that will walk the
    /// chain from there, yielding the elements newest first. The snapshot is
    /// private to the iterator: later pushes do not disturb it.
    pub fn iter(&self) -> (r: CollectionIter)
        requires
            self.wf(),
        ensures
            r.cursor() == self.head_index(),
            r.valid_for(*self),
            r.remaining(*self) == self@,
    {
        CollectionIter { cursor: self.head }
    }
}

/// The chain a collection presents to iteration: the elements reachable from
/// the head, newest first.
impl<E> View for Collection<E> {
    type V = Seq<E>;

    open spec fn view(&self) -> Seq<E> {
        self.chain_from(self.head_index())
    }
}

/// A cursor over a collection's chain. It holds the arena index where its
/// walk stands, initially a snapshot of the head, so it is unaffected by
/// pushes made after it was created.
pub struct CollectionIter {
    cursor: Option<usize>,
}

impl CollectionIter {
    /// The arena index the walk stands at, or `None` once (or if) the chain
    /// is exhausted.
    pub closed spec fn cursor(self) -> Option<usize> {
        self.cursor
    }

    /// Whether the cursor points into `c`'s arena (or is exhausted).
    pub open spec fn valid_for<E>(self, c: Collection<E>) -> bool {
        match self.cursor() {
            None => true,
            Some(i) => (i as int) < c.node_count(),
        }
    }

    /// The elements this iterator has yet to yield over `c`.
    pub open spec fn remaining<E>(self, c: Collection<E>) -> Seq<E> {
        c.chain_from(self.cursor())
    }

    /// One step of the walk: yields a reference to the element at the cursor
    /// and advances the cursor to its predecessor, or returns `None`, exactly
    /// when the walk is exhausted. The collection is only read; an iterator
    /// created before later pushes may still step over the same collection,
    /// since its part of the arena is unchanged.
    pub fn next<'a, E>(&mut self, collection: &'a Collection<E>) -> (r: Option<&'a E>)
        requires
            collection.wf(),
            old(self).valid_for(*collection),
        ensures
            final(self).valid_for(*collection),
            match r {
                None => {
                    &&& old(self).remaining(*collection).len() == 0
                    &&& *final(self) == *old(self)
                },
                Some(e) => {
                    &&& old(self).remaining(*collection).len() > 0
                    &&& *e == old(self).remaining(*collection)[0]
                    &&& final(self).remaining(*collection) == old(self).remaining(
                        *collection,
                    ).drop_first()
                },
            },
    {
        match self.cursor {
            None => None,
            Some(i) => {
                let node = &collection.nodes[i];
                self.cursor = node.pred;
                proof {
                    let rem = old(self).remaining(*collection);
                    assert(rem == seq![node.element()] + collection.chain_from(
                        node.predecessor(),
                    ));
                    assert(rem.drop_first() =~= collection.chain_from(node.predecessor()));
                }
                Some(&node.elem)
            },
        }
    }
}

/// In a well-formed collection the chain anchored at arena index `i` is
/// exactly the first `i + 1` pushed elements, newest first.
proof fn lemma_chain_prefix_reverse<E>(c: Collection<E>, i: usize)
    requires
        c.wf(),
        (i as int) < c.node_count(),
    ensures
        c.chain_from(Some(i)).len() == i + 1,
        forall|k: int| 0 <= k <= i ==> #[trigger] c.chain_from(Some(i))[k] == c.pushed()[i - k],
    decreases i,
{
    assert(c.pushed()[i as int] == c.node_at(i as int).element());
    assert(c.node_at(i as int).predecessor() == (if i == 0 {
        Option::<usize>::None
    } else {
        Some((i - 1) as usize)
    }));
    if i > 0 {
        lemma_chain_prefix_reverse(c, (i - 1) as usize);
        assert(c.chain_from(Some(i)) == seq![c.node_at(i as int).element()] + c.chain_from(
            Some((i - 1) as usize),
        ));
    }
}

/// Iterating yields every pushed element exactly once, in exact reverse order
/// of insertion; in particular the walk takes as many steps as there were
/// pushes, and it terminates (the chain from the head has no cycle: its
/// length is finite and equal to the node count).
pub proof fn lemma_iteration_reverses_pushes<E>(c: Collection<E>)
    requires
        c.wf(),
    ensures
        c@ == c.pushed().reverse(),
        c@.len() == c.node_count(),
{
    match c.head_index() {
        None => {
            assert(c@ =~= c.pushed().reverse());
        },
        Some(h) => {
            assert(c.nodes.len() == c.node_count());
            lemma_chain_prefix_reverse(c, h);
            assert(c.pushed().reverse().len() == c.node_count());
            assert(c@ =~= c.pushed().reverse());
        },
    }
}

/// No element is lost and none is duplicated: what iteration yields is, as a
/// multiset, exactly what was pushed.
pub proof fn lemma_iteration_complete<E>(c: Collection<E>)
    requires
        c.wf(),
    ensures
        c@.to_multiset() == c.pushed().to_multiset(),
{
    lemma_iteration_reverses_pushes(c);
    c.pushed().lemma_reverse_to_multiset();
}

/// Iteration is repeatable: what an iterator will yield depends only on where
/// its cursor stands, so two iterators taken from the same collection with no
/// intervening push (both cursors snapshot the same head) yield identical
/// sequences, in content and in order.
pub proof fn lemma_iteration_deterministic<E>(c: Collection<E>, a: CollectionIter, b: CollectionIter)
    requires
        a.cursor() == b.cursor(),
    ensures
        a.remaining(c) == b.remaining(c),
{
}

/// A chain walk reads only the arena entries before `c1`'s end, so it is
/// unaffected by anything a larger collection `c2` holds beyond them.
proof fn lemma_chain_from_stable<E>(c1: Collection<E>, c2: Collection<E>, cur: Option<usize>)
    requires
        c1.node_count() <= c2.node_count(),
        forall|i: int| 0 <= i < c1.node_count() ==> #[trigger] c2.node_at(i) == c1.node_at(i),
        match cur {
            None => true,
            Some(i) => (i as int) < c1.node_count(),
        },
    ensures
        c2.chain_from(cur) == c1.chain_from(cur),
    decreases (match cur {
        Some(i) => i as int + 1,
        None => 0int,
    }),
{
    match cur {
        None => {},
        Some(i) => {
            let n = c1.node_at(i as int);
            assert(c2.node_at(i as int) == n);
            match n.predecessor() {
                None => {},
                Some(p) => {
                    if p < i {
                        lemma_chain_from_stable(c1, c2, Some(p));
                    }
                },
            }
        },
    }
}

} // verus!
