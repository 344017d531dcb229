//! Coverage bitmaps: one indicator per instrumented location, set once the location
//! has been executed.

use vstd::prelude::*;

verus! {

/// A fixed-size coverage bitmap.
#[derive(Clone, Debug, PartialEq, Eq)]
pub struct CoverageMap {
    pub bits: Vec<bool>,
}

impl View for CoverageMap {
    type V = Seq<bool>;

    open spec fn view(&self) -> Seq<bool> {
        self.bits@
    }
}

/// Every location set in `a` is set in `b`, and both maps have the same size.
pub open spec fn subset_bits(a: Seq<bool>, b: Seq<bool>) -> bool {
    &&& a.len() == b.len()
    &&& forall|i: int| 0 <= i < a.len() ==> (#[trigger] a[i] ==> b[i])
}

/// `a` is covered by `b` and `b` sets at least one location more.
pub open spec fn strict_subset_bits(a: Seq<bool>, b: Seq<bool>) -> bool {
    &&& subset_bits(a, b)
    &&& exists|i: int| 0 <= i < b.len() && #[trigger] b[i] && !a[i]
}

/// `observed` sets a location that `cumulative` has never seen. Maps of different
/// sizes cannot be told apart location by location and count as nothing new.
pub open spec fn novel_bits(cumulative: Seq<bool>, observed: Seq<bool>) -> bool {
    &&& cumulative.len() == observed.len()
    &&& exists|i: int| 0 <= i < observed.len() && #[trigger] observed[i] && !cumulative[i]
}

/// The location-wise union of two maps of one size.
pub open spec fn union_bits(a: Seq<bool>, b: Seq<bool>) -> Seq<bool> {
    Seq::new(a.len(), |i: int| a[i] || b[i])
}

/// The number of locations a map sets.
pub open spec fn count_bits(a: Seq<bool>) -> nat
    decreases a.len(),
{
    if a.len() == 0 {
        0
    } else {
        count_bits(a.drop_last()) + if a.last() {
            1nat
        } else {
            0nat
        }
    }
}

/// The union covers both operands, and sets nothing that neither of them sets.
pub proof fn lemma_union_is_least_upper_bound(a: Seq<bool>, b: Seq<bool>)
    requires
        a.len() == b.len(),
    ensures
        subset_bits(a, union_bits(a, b)),
        subset_bits(b, union_bits(a, b)),
        forall|i: int| 0 <= i < a.len() && union_bits(a, b)[i] ==> a[i] || b[i],
{
}

/// Coverage inclusion is transitive.
pub proof fn lemma_subset_transitive(a: Seq<bool>, b: Seq<bool>, c: Seq<bool>)
    requires
        subset_bits(a, b),
        subset_bits(b, c),
    ensures
        subset_bits(a, c),
{
    assert forall|i: int| 0 <= i < a.len() && #[trigger] a[i] implies c[i] by {
        assert(b[i]);
    }
}

impl CoverageMap {
    /// A map of `size` locations, none of them set.
    pub fn empty(size: usize) -> (map: CoverageMap)
        ensures
            map@.len() == size,
            forall|i: int| 0 <= i < size ==> !map@[i],
    {
        let mut bits: Vec<bool> = Vec::new();
        let mut i: usize = 0;
        while i < size
            invariant
                i <= size,
                bits@.len() == i,
                forall|k: int| 0 <= k < i ==> !bits@[k],
            decreases size - i,
        {
            bits.push(false);
            i = i + 1;
        }
        CoverageMap { bits }
    }

    /// The map of a hit-count table: a location is set exactly if it was hit.
    pub fn from_hits(hits: &Vec<u8>) -> (map: CoverageMap)
        ensures
            map@.len() == hits@.len(),
            forall|i: int| 0 <= i < hits@.len() ==> map@[i] == (hits@[i] != 0),
    {
        let mut bits: Vec<bool> = Vec::new();
        let mut i: usize = 0;
        while i < hits.len()
            invariant
                i <= hits.len(),
                bits@.len() == i,
                forall|k: int| 0 <= k < i ==> bits@[k] == (hits@[k] != 0),
            decreases hits.len() - i,
        {
            bits.push(hits[i] != 0);
            i = i + 1;
        }
        CoverageMap { bits }
    }

    /// The number of locations of the map, set or not.
    pub fn size(&self) -> (n: usize)
        ensures
            n == self@.len(),
    {
        self.bits.len()
    }

    /// Whether location `index` is set. A location outside the map is not.
    pub fn is_set(&self, index: usize) -> (set: bool)
        ensures
            set == (index < self@.len() && self@[index as int]),
    {
        index < self.bits.len() && self.bits[index]
    }

    /// A copy of the map.
    pub fn duplicate(&self) -> (map: CoverageMap)
        ensures
            map@ == self@,
    {
        let mut bits: Vec<bool> = Vec::new();
        let mut i: usize = 0;
        while i < self.bits.len()
            invariant
                i <= self.bits.len(),
                bits@.len() == i,
                forall|k: int| 0 <= k < i ==> bits@[k] == self.bits@[k],
            decreases self.bits.len() - i,
        {
            bits.push(self.bits[i]);
            i = i + 1;
        }
        assert(bits@ =~= self.bits@);
        CoverageMap { bits }
    }

    /// The number of locations set.
    pub fn count(&self) -> (n: usize)
        ensures
            n == count_bits(self@),
    {
        let mut n: usize = 0;
        let mut i: usize = 0;
        proof {
            assert(self.bits@.subrange(0, 0) =~= Seq::<bool>::empty());
        }
        while i < self.bits.len()
            invariant
                i <= self.bits.len(),
                n == count_bits(self.bits@.subrange(0, i as int)),
                n <= i,
            decreases self.bits.len() - i,
        {
            proof {
                let next = self.bits@.subrange(0, i + 1);
                assert(next.drop_last() =~= self.bits@.subrange(0, i as int));
                assert(next.last() == self.bits@[i as int]);
            }
            if self.bits[i] {
                n = n + 1;
            }
            i = i + 1;
        }
        proof {
            assert(self.bits@.subrange(0, i as int) =~= self.bits@);
        }
        n
    }

    /// Whether both maps have one size and set the same locations.
    pub fn same_as(&self, other: &CoverageMap) -> (same: bool)
        ensures
            same == (self@ == other@),
    {
        if self.bits.len() != other.bits.len() {
            return false;
        }
        let mut i: usize = 0;
        while i < self.bits.len()
            invariant
                i <= self.bits.len(),
                self.bits.len() == other.bits.len(),
                forall|k: int| 0 <= k < i ==> self.bits@[k] == other.bits@[k],
            decreases self.bits.len() - i,
        {
            if self.bits[i] != other.bits[i] {
                return false;
            }
            i = i + 1;
        }
        assert(self.bits@ =~= other.bits@);
        true
    }

    /// Whether every location set here is set in `other`, a map of the same size.
    pub fn is_subset_of(&self, other: &CoverageMap) -> (subset: bool)
        ensures
            subset == subset_bits(self@, other@),
    {
        if self.bits.len() != other.bits.len() {
            return false;
        }
        let mut i: usize = 0;
        while i < self.bits.len()
            invariant
                i <= self.bits.len(),
                self.bits.len() == other.bits.len(),
                forall|k: int| 0 <= k < i ==> (#[trigger] self.bits@[k] ==> other.bits@[k]),
            decreases self.bits.len() - i,
        {
            if self.bits[i] && !other.bits[i] {
                return false;
            }
            i = i + 1;
        }
        true
    }

    /// Whether `observed` sets a location that this map has not seen.
    pub fn is_extended_by(&self, observed: &CoverageMap) -> (novel: bool)
        ensures
            novel == novel_bits(self@, observed@),
    {
        if self.bits.len() != observed.bits.len() {
            return false;
        }
        let mut i: usize = 0;
        while i < self.bits.len()
            invariant
                i <= self.bits.len(),
                self.bits.len() == observed.bits.len(),
                forall|k: int| 0 <= k < i ==> !(#[trigger] observed.bits@[k] && !self.bits@[k]),
            decreases self.bits.len() - i,
        {
            if observed.bits[i] && !self.bits[i] {
                return true;
            }
            i = i + 1;
        }
        false
    }

    /// Whether this map is covered by `other` and `other` sets a location more.
    pub fn is_strict_subset_of(&self, other: &CoverageMap) -> (strict: bool)
        ensures
            strict == strict_subset_bits(self@, other@),
    {
        self.is_subset_of(other) && self.is_extended_by(other)
    }

    /// Unions `observed` into this map when it brings a new location, and says whether
    /// it did. A map that brings nothing new, or has another size, changes nothing.
    pub fn absorb(&mut self, observed: &CoverageMap) -> (novel: bool)
        ensures
            novel == novel_bits(old(self)@, observed@),
            novel ==> final(self)@ == union_bits(old(self)@, observed@),
            !novel ==> final(self)@ == old(self)@,
            subset_bits(old(self)@, final(self)@),
    {
        if !self.is_extended_by(observed) {
            return false;
        }
        let mut bits: Vec<bool> = Vec::new();
        let mut i: usize = 0;
        while i < self.bits.len()
            invariant
                i <= self.bits.len(),
                self.bits.len() == observed.bits.len(),
                bits@.len() == i,
                forall|k: int| 0 <= k < i ==> bits@[k] == (self.bits@[k] || observed.bits@[k]),
            decreases self.bits.len() - i,
        {
            bits.push(self.bits[i] || observed.bits[i]);
            i = i + 1;
        }
        assert(bits@ =~= union_bits(self.bits@, observed.bits@));
        self.bits = bits;
        true
    }
}

} // verus!
