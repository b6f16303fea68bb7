//! A small set of values kept in insertion order, each found again by its position.
use vstd::prelude::*;
use vstd::std_specs::cmp::PartialEqSpec;

verus! {

/// Values in the order they were first pushed; a value equal to one already present is not
/// pushed again.
pub struct PileMap<T: PartialEq> {
    pile: Vec<T>,
}

/// The first position in `pile` of a value equal to `t`, if there is one.
pub open spec fn first_equal<T: PartialEq>(pile: Seq<T>, t: T, j: int) -> bool {
    &&& 0 <= j < pile.len()
    &&& pile[j].eq_spec(&t)
    &&& forall|i: int| 0 <= i < j ==> !(#[trigger] pile[i]).eq_spec(&t)
}

/// What pushing `t` onto `pile` gives, where `==` on the values follows its specification:
/// the pile unchanged and the position of the first value equal to `t`, or, where there is
/// none, the pile with `t` appended and the position of `t`.
pub open spec fn spec_push<T: PartialEq>(pile: Seq<T>, t: T) -> (Seq<T>, nat) {
    if exists|j: int| first_equal(pile, t, j) {
        (pile, (choose|j: int| first_equal(pile, t, j)) as nat)
    } else {
        (pile.push(t), pile.len())
    }
}

/// There is only one first position.
proof fn lemma_first_equal_unique<T: PartialEq>(pile: Seq<T>, t: T, j: int, k: int)
    requires
        first_equal(pile, t, j),
        first_equal(pile, t, k),
    ensures
        j == k,
{
    if j < k {
        assert(!pile[j].eq_spec(&t));
    } else if k < j {
        assert(!pile[k].eq_spec(&t));
    }
}

/// A value equal to `t` at `i` means there is a first one.
proof fn lemma_first_equal_exists<T: PartialEq>(pile: Seq<T>, t: T, i: int)
    requires
        0 <= i < pile.len(),
        pile[i].eq_spec(&t),
    ensures
        exists|j: int| first_equal(pile, t, j),
    decreases i,
{
    if exists|k: int| 0 <= k < i && (#[trigger] pile[k]).eq_spec(&t) {
        let k = choose|k: int| 0 <= k < i && (#[trigger] pile[k]).eq_spec(&t);
        lemma_first_equal_exists(pile, t, k);
    } else {
        assert(first_equal(pile, t, i));
    }
}

/// Pushing a value a second time gives the same index as the first time and leaves the pile
/// as the first push left it, for a value equal to itself.
pub proof fn lemma_push_twice<T: PartialEq>(pile: Seq<T>, t: T)
    requires
        t.eq_spec(&t),
    ensures
        spec_push(spec_push(pile, t).0, t) == spec_push(pile, t),
{
    if !(exists|j: int| first_equal(pile, t, j)) {
        let p2 = pile.push(t);
        assert forall|i: int| 0 <= i < pile.len() implies !(#[trigger] p2[i]).eq_spec(&t) by {
            assert(p2[i] == pile[i]);
            if pile[i].eq_spec(&t) {
                lemma_first_equal_exists(pile, t, i);
            }
        }
        assert(first_equal(p2, t, pile.len() as int));
        let k = choose|j: int| first_equal(p2, t, j);
        lemma_first_equal_unique(p2, t, k, pile.len() as int);
    }
}

impl<T: PartialEq> PileMap<T> {
    /// The values held, in order.
    pub closed spec fn pile(&self) -> Seq<T> {
        self.pile@
    }

    /// An empty pile with room for `cap` values.
    pub fn with_capacity(cap: usize) -> (map: Self)
        ensures
            map.pile() == Seq::<T>::empty(),
    {
        Self { pile: Vec::with_capacity(cap) }
    }

    /// An empty pile with room for 16 values.
    pub fn new() -> (map: Self)
        ensures
            map.pile() == Seq::<T>::empty(),
    {
        Self::with_capacity(16)
    }

    /// Looks for a value equal to `t`: gives its position where there is one. Otherwise
    /// appends `t` and gives its position, the old number of values. Either way `index` is
    /// where a value equal to `t` now sits, so equal values always get the same index.
    pub fn push(&mut self, t: T) -> (index: usize)
        ensures
            (final(self).pile() == old(self).pile() && index < old(self).pile().len()) || (
            final(self).pile() == old(self).pile().push(t) && index == old(self).pile().len()),
            index < final(self).pile().len(),
            T::obeys_eq_spec() ==> (final(self).pile(), index as nat) == spec_push(old(self).pile(), t),
    {
        let mut index: usize = 0;
        while index < self.pile.len()
            invariant
                index <= self.pile@.len(),
                T::obeys_eq_spec() ==> forall|i: int|
                    0 <= i < index ==> !(#[trigger] self.pile@[i]).eq_spec(&t),
            decreases self.pile@.len() - index,
        {
            if self.pile[index].eq(&t) {
                proof {
                    if T::obeys_eq_spec() {
                        assert(first_equal(self.pile@, t, index as int));
                        let k = choose|j: int| first_equal(self.pile@, t, j);
                        lemma_first_equal_unique(self.pile@, t, k, index as int);
                    }
                }
                return index;
            }
            index = index + 1;
        }
        proof {
            if T::obeys_eq_spec() {
                assert forall|j: int| !first_equal(self.pile@, t, j) by {
                    if 0 <= j < self.pile@.len() {
                        assert(!self.pile@[j].eq_spec(&t));
                    }
                }
            }
        }
        self.pile.push(t);
        index
    }
}

} // verus!
