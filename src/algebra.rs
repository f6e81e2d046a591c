//! The two contracts every node and event type satisfies: nodes are in
//! bijection with dense indices, events form a join semilattice with the null
//! event as its bottom.
use vstd::prelude::*;

verus! {

/// A node identifier: totally determined by its dense index.
pub trait GraphNode: Copy + Sized {
    /// The dense index of the node.
    spec fn index(&self) -> usize;

    fn to_index(&self) -> (r: usize)
        ensures
            r == self.index(),
    ;

    fn from_index(idx: usize) -> (r: Self)
        ensures
            r.index() == idx,
    ;

    /// Two nodes with the same index are the same node.
    proof fn lemma_index_injective(a: Self, b: Self)
        ensures
            a.index() == b.index() ==> a == b,
    ;
}

/// A change payload: `merge` is a commutative, associative and idempotent
/// join, and the null event is its identity.
pub trait GraphEvent: Copy + Sized {
    spec fn merged(self, other: Self) -> Self;

    spec fn null_event() -> Self;

    /// `self`'s information is already implied by `other`.
    spec fn subsumed(self, other: Self) -> bool;

    fn merge(&self, rhs: Self) -> (r: Self)
        ensures
            r == self.merged(rhs),
    ;

    fn is_null(&self) -> (r: bool)
        ensures
            r == (*self == Self::null_event()),
    ;

    fn null() -> (r: Self)
        ensures
            r == Self::null_event(),
    ;

    /// Reads the event and resets it to null.
    fn nullify(&mut self) -> (r: Self)
        ensures
            r == *old(self),
            *final(self) == Self::null_event(),
    ;

    fn is_subsumed_under(&self, other: &Self) -> (r: bool)
        ensures
            r == self.subsumed(*other),
    ;

    /// Merging does not depend on the order of its operands.
    proof fn lemma_merge_commutative(a: Self, b: Self)
        ensures
            a.merged(b) == b.merged(a),
    ;

    /// Merging does not depend on how the operands are grouped.
    proof fn lemma_merge_associative(a: Self, b: Self, c: Self)
        ensures
            a.merged(b.merged(c)) == a.merged(b).merged(c),
    ;

    /// Merging the same information twice adds nothing.
    proof fn lemma_merge_idempotent(a: Self)
        ensures
            a.merged(a) == a,
    ;

    /// The null event is the identity of merge.
    proof fn lemma_merge_null(a: Self)
        ensures
            a.merged(Self::null_event()) == a,
    ;
}

/// Merging two events gives null only when both are null: the null event is
/// the bottom of the join.
pub proof fn lemma_merge_null_bottom<E: GraphEvent>(a: E, b: E)
    ensures
        a.merged(b) == E::null_event() ==> a == E::null_event() && b == E::null_event(),
{
    if a.merged(b) == E::null_event() {
        E::lemma_merge_null(a);
        E::lemma_merge_associative(a, a, b);
        E::lemma_merge_idempotent(a);
        E::lemma_merge_commutative(a, b);
        E::lemma_merge_null(b);
        E::lemma_merge_associative(b, b, a);
        E::lemma_merge_idempotent(b);
    }
}

impl GraphNode for usize {
    open spec fn index(&self) -> usize {
        *self
    }

    fn to_index(&self) -> (r: usize) {
        *self
    }

    fn from_index(idx: usize) -> (r: usize) {
        idx
    }

    proof fn lemma_index_injective(a: usize, b: usize) {
    }
}

/// An event made of independent change flags: merge is the union of the
/// flags, and one event is subsumed under another when its flags are a
/// subset of the other's.
#[derive(Clone, Copy, Debug, PartialEq, Eq, Structural)]
pub struct BitEvent {
    pub bits: u64,
}

impl BitEvent {
    pub fn new(bits: u64) -> (r: BitEvent)
        ensures
            r.bits == bits,
    {
        BitEvent { bits }
    }
}

impl GraphEvent for BitEvent {
    open spec fn merged(self, other: BitEvent) -> BitEvent {
        BitEvent { bits: self.bits | other.bits }
    }

    open spec fn null_event() -> BitEvent {
        BitEvent { bits: 0 }
    }

    open spec fn subsumed(self, other: BitEvent) -> bool {
        self.bits & !other.bits == 0
    }

    fn merge(&self, rhs: BitEvent) -> (r: BitEvent) {
        BitEvent { bits: self.bits | rhs.bits }
    }

    fn is_null(&self) -> (r: bool) {
        self.bits == 0
    }

    fn null() -> (r: BitEvent) {
        BitEvent { bits: 0 }
    }

    fn nullify(&mut self) -> (r: BitEvent) {
        let prev = *self;
        *self = BitEvent { bits: 0 };
        prev
    }

    fn is_subsumed_under(&self, other: &BitEvent) -> (r: bool) {
        self.bits & !other.bits == 0
    }

    proof fn lemma_merge_commutative(a: BitEvent, b: BitEvent) {
        let (x, y) = (a.bits, b.bits);
        assert(x | y == y | x) by (bit_vector);
    }

    proof fn lemma_merge_associative(a: BitEvent, b: BitEvent, c: BitEvent) {
        let (x, y, z) = (a.bits, b.bits, c.bits);
        assert(x | (y | z) == (x | y) | z) by (bit_vector);
    }

    proof fn lemma_merge_idempotent(a: BitEvent) {
        let x = a.bits;
        assert(x | x == x) by (bit_vector);
    }

    proof fn lemma_merge_null(a: BitEvent) {
        let x = a.bits;
        assert(x | 0 == x) by (bit_vector);
    }
}

} // verus!
