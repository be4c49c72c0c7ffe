use vstd::prelude::*;

use fixedbitset::FixedBitSet;

use crate::sparse_set::SparseSetIndex;

verus! {

#[verifier::external_type_specification]
#[verifier::external_body]
pub struct ExFixedBitSet(FixedBitSet);

/// The enabled bits of a bit set.
pub uninterp spec fn bits_of(b: &FixedBitSet) -> Set<usize>;

/// The length, in bits, of a bit set.
pub uninterp spec fn bit_len(b: &FixedBitSet) -> nat;

/// The larger of two lengths.
pub open spec fn max_len(a: nat, b: nat) -> nat {
    if a >= b {
        a
    } else {
        b
    }
}

/// Relies on `FixedBitSet::new`: no bits, length zero.
pub assume_specification[ FixedBitSet::new ]() -> (r: FixedBitSet)
    ensures
        bits_of(&r) == Set::<usize>::empty(),
        bit_len(&r) == 0,
;

/// Relies on `FixedBitSet::grow`: the length becomes at least `bits`; no bit changes.
pub assume_specification[ FixedBitSet::grow ](b: &mut FixedBitSet, bits: usize)
    ensures
        bits_of(final(b)) == bits_of(old(b)),
        bit_len(final(b)) == max_len(bit_len(old(b)), bits as nat),
;

/// Relies on `FixedBitSet::insert`: enables `bit`, which must be below the length (it panics
/// otherwise).
pub assume_specification[ FixedBitSet::insert ](b: &mut FixedBitSet, bit: usize)
    requires
        bit < bit_len(old(b)),
    ensures
        bits_of(final(b)) == bits_of(old(b)).insert(bit),
        bit_len(final(b)) == bit_len(old(b)),
;

/// Relies on `FixedBitSet::contains`: whether `bit` is enabled; bits past the length never are.
pub assume_specification[ FixedBitSet::contains ](b: &FixedBitSet, bit: usize) -> (r: bool)
    ensures
        r == bits_of(b).contains(bit),
;

/// Relies on `FixedBitSet::clear`: disables every bit; the length stays.
pub assume_specification[ FixedBitSet::clear ](b: &mut FixedBitSet)
    ensures
        bits_of(final(b)) == Set::<usize>::empty(),
        bit_len(final(b)) == bit_len(old(b)),
;

/// Relies on `FixedBitSet::union_with`: in-place union, growing to the other's length.
pub assume_specification[ FixedBitSet::union_with ](b: &mut FixedBitSet, other: &FixedBitSet)
    ensures
        bits_of(final(b)) == bits_of(old(b)).union(bits_of(other)),
        bit_len(final(b)) == max_len(bit_len(old(b)), bit_len(other)),
;

/// Relies on `FixedBitSet::intersect_with`: in-place intersection; the length stays.
pub assume_specification[ FixedBitSet::intersect_with ](b: &mut FixedBitSet, other: &FixedBitSet)
    ensures
        bits_of(final(b)) == bits_of(old(b)).intersect(bits_of(other)),
        bit_len(final(b)) == bit_len(old(b)),
;

/// Relies on `FixedBitSet::is_disjoint`: whether no bit is enabled in both.
pub assume_specification[ FixedBitSet::is_disjoint ](b: &FixedBitSet, other: &FixedBitSet) -> (r: bool)
    ensures
        r == bits_of(b).disjoint(bits_of(other)),
;

/// Relies on `FixedBitSet::is_clear`: whether no bit is enabled.
pub assume_specification[ FixedBitSet::is_clear ](b: &FixedBitSet) -> (r: bool)
    ensures
        r == (bits_of(b) == Set::<usize>::empty()),
;

/// Relies on `FixedBitSet::ones`: the enabled bits, in increasing order.
#[verifier::external_body]
fn ones_of(b: &FixedBitSet) -> (r: Vec<usize>)
    ensures
        r@.to_set() == bits_of(b),
        forall|i: int, j: int| 0 <= i < j < r@.len() ==> r@[i] < r@[j],
{
    b.ones().collect()
}

/// Relies on `FixedBitSet::clone`: the same bits and length.
#[verifier::external_body]
fn copy_bits(b: &FixedBitSet) -> (r: FixedBitSet)
    ensures
        bits_of(&r) == bits_of(b),
        bit_len(&r) == bit_len(b),
{
    b.clone()
}

/// Sets `bit` after growing `b` so that it fits.
fn grow_and_set(b: &mut FixedBitSet, bit: usize)
    requires
        bit < usize::MAX,
    ensures
        bits_of(final(b)) == bits_of(old(b)).insert(bit),
{
    b.grow(bit + 1);
    b.insert(bit);
}

/// Whether two accesses, each given by what it reads or writes, what it writes and whether it
/// reads everything, may run at the same time: neither side writes what the other reads or
/// writes, and a side that reads everything conflicts with any write of the other.
pub open spec fn spec_compatible(
    a_rw: Set<usize>,
    a_w: Set<usize>,
    a_all: bool,
    b_rw: Set<usize>,
    b_w: Set<usize>,
    b_all: bool,
) -> bool {
    &&& (a_all ==> b_w == Set::<usize>::empty())
    &&& (b_all ==> a_w == Set::<usize>::empty())
    &&& a_w.disjoint(b_rw)
    &&& b_w.disjoint(a_rw)
}

/// The ids on which two accesses conflict.
pub open spec fn spec_conflicts(
    a_rw: Set<usize>,
    a_w: Set<usize>,
    a_all: bool,
    b_rw: Set<usize>,
    b_w: Set<usize>,
    b_all: bool,
) -> Set<usize> {
    (if a_all { b_w } else { Set::empty() }).union(if b_all { a_w } else { Set::empty() }).union(
        a_w.intersect(b_rw),
    ).union(a_rw.intersect(b_w))
}

/// Read and write tracking over a space of ids.
#[derive(PartialEq, Eq)]
pub struct Access<T> {
    reads_and_writes: FixedBitSet,
    writes: FixedBitSet,
    reads_all: bool,
    marker: core::marker::PhantomData<T>,
}

impl<T: SparseSetIndex> Access<T> {
    /// The ids read or written.
    pub closed spec fn rw(&self) -> Set<usize> {
        bits_of(&self.reads_and_writes)
    }

    /// The ids written.
    pub closed spec fn w(&self) -> Set<usize> {
        bits_of(&self.writes)
    }

    /// Whether every id is read.
    pub closed spec fn all(&self) -> bool {
        self.reads_all
    }

    pub open spec fn wf(&self) -> bool {
        self.w().subset_of(self.rw())
    }

    pub fn new() -> (r: Access<T>)
        ensures
            r.wf(),
            r.rw() == Set::<usize>::empty(),
            r.w() == Set::<usize>::empty(),
            !r.all(),
    {
        Access { reads_and_writes: FixedBitSet::new(), writes: FixedBitSet::new(), reads_all: false, marker: core::marker::PhantomData }
    }

    /// Makes room for ids below `capacity`.
    pub fn grow(&mut self, capacity: usize)
        ensures
            final(self).rw() == old(self).rw(),
            final(self).w() == old(self).w(),
            final(self).all() == old(self).all(),
    {
        self.reads_and_writes.grow(capacity);
        self.writes.grow(capacity);
    }

    pub fn add_read(&mut self, index: T)
        requires
            old(self).wf(),
            index.spec_index() < usize::MAX,
        ensures
            final(self).wf(),
            final(self).rw() == old(self).rw().insert(index.spec_index()),
            final(self).w() == old(self).w(),
            final(self).all() == old(self).all(),
    {
        grow_and_set(&mut self.reads_and_writes, index.sparse_set_index());
    }

    pub fn add_write(&mut self, index: T)
        requires
            old(self).wf(),
            index.spec_index() < usize::MAX,
        ensures
            final(self).wf(),
            final(self).rw() == old(self).rw().insert(index.spec_index()),
            final(self).w() == old(self).w().insert(index.spec_index()),
            final(self).all() == old(self).all(),
    {
        let i = index.sparse_set_index();
        grow_and_set(&mut self.reads_and_writes, i);
        grow_and_set(&mut self.writes, i);
    }

    pub fn has_read(&self, index: T) -> (r: bool)
        ensures
            r == (self.all() || self.rw().contains(index.spec_index())),
    {
        self.reads_all || self.reads_and_writes.contains(index.sparse_set_index())
    }

    pub fn has_write(&self, index: T) -> (r: bool)
        ensures
            r == self.w().contains(index.spec_index()),
    {
        self.writes.contains(index.sparse_set_index())
    }

    /// Marks every id as read.
    pub fn read_all(&mut self)
        ensures
            final(self).rw() == old(self).rw(),
            final(self).w() == old(self).w(),
            final(self).all(),
    {
        self.reads_all = true;
    }

    pub fn has_read_all(&self) -> (r: bool)
        ensures
            r == self.all(),
    {
        self.reads_all
    }

    pub fn clear(&mut self)
        ensures
            final(self).wf(),
            final(self).rw() == Set::<usize>::empty(),
            final(self).w() == Set::<usize>::empty(),
            !final(self).all(),
    {
        self.reads_all = false;
        self.reads_and_writes.clear();
        self.writes.clear();
    }

    /// Adds everything `other` reads and writes.
    pub fn extend(&mut self, other: &Access<T>)
        requires
            old(self).wf(),
            other.wf(),
        ensures
            final(self).wf(),
            final(self).rw() == old(self).rw().union(other.rw()),
            final(self).w() == old(self).w().union(other.w()),
            final(self).all() == (old(self).all() || other.all()),
    {
        self.reads_all = self.reads_all || other.reads_all;
        self.reads_and_writes.union_with(&other.reads_and_writes);
        self.writes.union_with(&other.writes);
    }

    /// Whether this access and `other` may run at the same time.
    pub fn is_compatible(&self, other: &Access<T>) -> (r: bool)
        ensures
            r == spec_compatible(self.rw(), self.w(), self.all(), other.rw(), other.w(), other.all()),
    {
        if self.reads_all && !other.writes.is_clear() {
            return false;
        }
        if other.reads_all && !self.writes.is_clear() {
            return false;
        }
        self.writes.is_disjoint(&other.reads_and_writes) && other.writes.is_disjoint(&self.reads_and_writes)
    }

    /// The ids on which this access and `other` conflict, in increasing order.
    pub fn get_conflicts(&self, other: &Access<T>) -> (r: Vec<T>)
        ensures
            r@.len() == spec_conflicts(self.rw(), self.w(), self.all(), other.rw(), other.w(), other.all()).len(),
            forall|x: usize| #[trigger] spec_conflicts(self.rw(), self.w(), self.all(), other.rw(), other.w(), other.all()).contains(x)
                && T::spec_fits(x) ==> exists|i: int| 0 <= i < r@.len() && r@[i].spec_index() == x,
            (forall|x: usize| #[trigger] spec_conflicts(self.rw(), self.w(), self.all(), other.rw(), other.w(), other.all()).contains(x)
                ==> T::spec_fits(x)) ==> {
                &&& forall|i: int, j: int| 0 <= i < j < r@.len() ==> r@[i].spec_index() < r@[j].spec_index()
                &&& forall|i: int| 0 <= i < r@.len() ==> spec_conflicts(self.rw(), self.w(), self.all(), other.rw(), other.w(), other.all()).contains(
                    #[trigger] r@[i].spec_index(),
                )
            },
    {
        let ones = ones_of(&self.conflict_bits(other));
        let mut out: Vec<T> = Vec::new();
        let mut i: usize = 0;
        while i < ones.len()
            invariant
                i <= ones@.len(),
                out@.len() == i,
                forall|k: int| 0 <= k < i ==> T::spec_fits(ones@[k]) ==> (#[trigger] out@[k]).spec_index() == ones@[k],
            decreases ones@.len() - i,
        {
            out.push(T::get_sparse_set_index(ones[i]));
            i = i + 1;
        }
        proof {
            let c = spec_conflicts(self.rw(), self.w(), self.all(), other.rw(), other.w(), other.all());
            assert(ones@.no_duplicates()) by {
                assert forall|a: int, b: int| 0 <= a < ones@.len() && 0 <= b < ones@.len() && a != b implies ones@[a] != ones@[b] by {
                    if a < b {
                        assert(ones@[a] < ones@[b]);
                    } else {
                        assert(ones@[b] < ones@[a]);
                    }
                }
            }
            ones@.unique_seq_to_set();
            assert forall|x: usize| #[trigger] c.contains(x) && T::spec_fits(x) implies exists|k: int| 0 <= k < out@.len()
                && out@[k].spec_index() == x by {
                assert(ones@.to_set().contains(x));
                let k = choose|k: int| 0 <= k < ones@.len() && ones@[k] == x;
                assert(T::spec_fits(ones@[k]));
                assert(out@[k].spec_index() == ones@[k]);
            }
            if forall|x: usize| #[trigger] c.contains(x) ==> T::spec_fits(x) {
                assert forall|k: int| 0 <= k < out@.len() implies (#[trigger] out@[k]).spec_index() == ones@[k] && c.contains(ones@[k]) by {
                    assert(ones@.to_set().contains(ones@[k]));
                    assert(c.contains(ones@[k]));
                }
                assert forall|i: int, j: int| 0 <= i < j < out@.len() implies out@[i].spec_index() < out@[j].spec_index() by {
                    assert(out@[i].spec_index() == ones@[i]);
                    assert(out@[j].spec_index() == ones@[j]);
                }
            }
        }
        out
    }

    /// The bit set of the ids on which this access and `other` conflict.
    fn conflict_bits(&self, other: &Access<T>) -> (r: FixedBitSet)
        ensures
            bits_of(&r) == spec_conflicts(self.rw(), self.w(), self.all(), other.rw(), other.w(), other.all()),
    {
        let mut conflicts = FixedBitSet::new();
        if self.reads_all {
            conflicts.union_with(&other.writes);
        }
        if other.reads_all {
            conflicts.union_with(&self.writes);
        }
        let mut mine = copy_bits(&self.writes);
        mine.intersect_with(&other.reads_and_writes);
        conflicts.union_with(&mine);
        let mut theirs = copy_bits(&self.reads_and_writes);
        theirs.intersect_with(&other.writes);
        conflicts.union_with(&theirs);
        proof {
            assert(bits_of(&conflicts) =~= spec_conflicts(self.rw(), self.w(), self.all(), other.rw(), other.w(), other.all()));
        }
        conflicts
    }

    /// The ids read or written, in increasing order.
    pub fn reads_and_writes(&self) -> (r: Vec<usize>)
        ensures
            r@.to_set() == self.rw(),
    {
        ones_of(&self.reads_and_writes)
    }

    /// The ids written, in increasing order.
    pub fn writes(&self) -> (r: Vec<usize>)
        ensures
            r@.to_set() == self.w(),
    {
        ones_of(&self.writes)
    }
}

/// Compatibility of two accesses does not depend on their order; two accesses that write
/// nothing are compatible; two accesses that write the same id are not.
pub proof fn lemma_access_compatibility(
    a_rw: Set<usize>,
    a_w: Set<usize>,
    a_all: bool,
    b_rw: Set<usize>,
    b_w: Set<usize>,
    b_all: bool,
)
    ensures
        spec_compatible(a_rw, a_w, a_all, b_rw, b_w, b_all) == spec_compatible(b_rw, b_w, b_all, a_rw, a_w, a_all),
        a_w == Set::<usize>::empty() && b_w == Set::<usize>::empty() ==> spec_compatible(a_rw, a_w, a_all, b_rw, b_w, b_all),
        a_w.subset_of(a_rw) && b_w.subset_of(b_rw) && !a_w.disjoint(b_w) ==> !spec_compatible(a_rw, a_w, a_all, b_rw, b_w, b_all),
{
    if a_w.subset_of(a_rw) && b_w.subset_of(b_rw) && !a_w.disjoint(b_w) {
        let x = choose|x: usize| a_w.contains(x) && b_w.contains(x);
        assert(b_rw.contains(x));
    }
}

/// Whether filter `f` (components required, components excluded) and filter `g` can never
/// match the same archetype.
pub open spec fn ruled_out(f: (Set<usize>, Set<usize>), g: (Set<usize>, Set<usize>)) -> bool {
    !f.0.disjoint(g.1) || !f.1.disjoint(g.0)
}

/// Whether every filter of `a` rules out every filter of `b`.
pub open spec fn all_ruled_out(a: Seq<(Set<usize>, Set<usize>)>, b: Seq<(Set<usize>, Set<usize>)>) -> bool {
    forall|i: int, j: int| 0 <= i < a.len() && 0 <= j < b.len() ==> ruled_out(#[trigger] a[i], #[trigger] b[j])
}

/// A conjunction of presence filters: components an archetype must have, and must not have.
#[derive(PartialEq, Eq)]
pub struct AccessFilters<T> {
    with: FixedBitSet,
    without: FixedBitSet,
    index_type: core::marker::PhantomData<T>,
}

impl<T> AccessFilters<T> {
    /// The required and the excluded components.
    pub closed spec fn view_pair(&self) -> (Set<usize>, Set<usize>) {
        (bits_of(&self.with), bits_of(&self.without))
    }

    /// No requirement.
    pub fn new() -> (r: AccessFilters<T>)
        ensures
            r.view_pair() == (Set::<usize>::empty(), Set::<usize>::empty()),
    {
        AccessFilters { with: FixedBitSet::new(), without: FixedBitSet::new(), index_type: core::marker::PhantomData }
    }

    /// Whether this filter and `other` can never match the same archetype.
    pub fn is_ruled_out_by(&self, other: &AccessFilters<T>) -> (r: bool)
        ensures
            r == ruled_out(self.view_pair(), other.view_pair()),
    {
        !self.with.is_disjoint(&other.without) || !self.without.is_disjoint(&other.with)
    }

    /// A copy of this filter.
    pub fn copy(&self) -> (r: AccessFilters<T>)
        ensures
            r.view_pair() == self.view_pair(),
    {
        AccessFilters { with: copy_bits(&self.with), without: copy_bits(&self.without), index_type: core::marker::PhantomData }
    }

    /// This filter together with `other`: both sets of requirements at once.
    pub fn and(&self, other: &AccessFilters<T>) -> (r: AccessFilters<T>)
        ensures
            r.view_pair() == (self.view_pair().0.union(other.view_pair().0), self.view_pair().1.union(other.view_pair().1)),
    {
        let mut with = copy_bits(&self.with);
        with.union_with(&other.with);
        let mut without = copy_bits(&self.without);
        without.union_with(&other.without);
        AccessFilters { with, without, index_type: core::marker::PhantomData }
    }
}

/// The pairs of a sequence of filters.
pub open spec fn filter_pairs<T>(s: Seq<AccessFilters<T>>) -> Seq<(Set<usize>, Set<usize>)> {
    s.map_values(|f: AccessFilters<T>| f.view_pair())
}

/// An access together with an or-of-ands of presence filters.
#[derive(PartialEq, Eq)]
pub struct FilteredAccess<T> {
    access: Access<T>,
    filter_sets: Vec<AccessFilters<T>>,
}

/// Whether two filtered accesses may run at the same time: their accesses do not conflict, or
/// their filters prove they never touch the same archetype.
pub open spec fn spec_filtered_compatible<T: SparseSetIndex>(a: &FilteredAccess<T>, b: &FilteredAccess<T>) -> bool {
    spec_compatible(a.access_view().rw(), a.access_view().w(), a.access_view().all(), b.access_view().rw(), b.access_view().w(), b.access_view().all())
        || all_ruled_out(a.filters(), b.filters())
}

impl<T: SparseSetIndex> FilteredAccess<T> {
    pub closed spec fn access_view(&self) -> Access<T> {
        self.access
    }

    /// The filters, as (required, excluded) pairs.
    pub closed spec fn filters(&self) -> Seq<(Set<usize>, Set<usize>)> {
        filter_pairs(self.filter_sets@)
    }

    /// No access and one empty filter.
    pub fn new() -> (r: FilteredAccess<T>)
        ensures
            r.access_view().wf(),
            r.access_view().rw() == Set::<usize>::empty(),
            r.access_view().w() == Set::<usize>::empty(),
            !r.access_view().all(),
            r.filters() == seq![(Set::<usize>::empty(), Set::<usize>::empty())],
    {
        let mut filter_sets: Vec<AccessFilters<T>> = Vec::new();
        filter_sets.push(AccessFilters::new());
        let r = FilteredAccess { access: Access::new(), filter_sets };
        proof {
            assert(r.filters() =~= seq![(Set::<usize>::empty(), Set::<usize>::empty())]);
        }
        r
    }

    pub fn access(&self) -> (r: &Access<T>)
        ensures
            *r == self.access_view(),
    {
        &self.access
    }

    /// Reads `index`, and requires it to be present.
    pub fn add_read(&mut self, index: T)
        requires
            old(self).access_view().wf(),
            index.spec_index() < usize::MAX,
        ensures
            final(self).access_view().wf(),
            final(self).access_view().rw() == old(self).access_view().rw().insert(index.spec_index()),
            final(self).access_view().w() == old(self).access_view().w(),
            final(self).access_view().all() == old(self).access_view().all(),
            final(self).filters() == old(self).filters().map_values(|f: (Set<usize>, Set<usize>)| (f.0.insert(index.spec_index()), f.1)),
    {
        self.access.add_read(index);
        self.and_with(index);
    }

    /// Writes `index`, and requires it to be present.
    pub fn add_write(&mut self, index: T)
        requires
            old(self).access_view().wf(),
            index.spec_index() < usize::MAX,
        ensures
            final(self).access_view().wf(),
            final(self).access_view().rw() == old(self).access_view().rw().insert(index.spec_index()),
            final(self).access_view().w() == old(self).access_view().w().insert(index.spec_index()),
            final(self).access_view().all() == old(self).access_view().all(),
            final(self).filters() == old(self).filters().map_values(|f: (Set<usize>, Set<usize>)| (f.0.insert(index.spec_index()), f.1)),
    {
        self.access.add_write(index);
        self.and_with(index);
    }

    /// Requires `index` to be present, in every alternative.
    pub fn and_with(&mut self, index: T)
        requires
            index.spec_index() < usize::MAX,
        ensures
            final(self).access_view() == old(self).access_view(),
            final(self).filters() == old(self).filters().map_values(|f: (Set<usize>, Set<usize>)| (f.0.insert(index.spec_index()), f.1)),
    {
        let i = index.sparse_set_index();
        let n = self.filter_sets.len();
        let mut k: usize = 0;
        while k < n
            invariant
                k <= n,
                n == self.filter_sets@.len(),
                n == old(self).filter_sets@.len(),
                i == index.spec_index(),
                i < usize::MAX,
                self.access == old(self).access,
                forall|q: int| 0 <= q < k ==> (#[trigger] self.filter_sets@[q]).view_pair() == (
                    old(self).filter_sets@[q].view_pair().0.insert(i),
                    old(self).filter_sets@[q].view_pair().1,
                ),
                forall|q: int| k <= q < n ==> #[trigger] self.filter_sets@[q] == old(self).filter_sets@[q],
            decreases n - k,
        {
            grow_and_set(&mut self.filter_sets[k].with, i);
            k = k + 1;
        }
        proof {
            assert(self.filters() =~= old(self).filters().map_values(|f: (Set<usize>, Set<usize>)| (f.0.insert(i), f.1)));
        }
    }

    /// Requires `index` to be absent, in every alternative.
    pub fn and_without(&mut self, index: T)
        requires
            index.spec_index() < usize::MAX,
        ensures
            final(self).access_view() == old(self).access_view(),
            final(self).filters() == old(self).filters().map_values(|f: (Set<usize>, Set<usize>)| (f.0, f.1.insert(index.spec_index()))),
    {
        let i = index.sparse_set_index();
        let n = self.filter_sets.len();
        let mut k: usize = 0;
        while k < n
            invariant
                k <= n,
                n == self.filter_sets@.len(),
                n == old(self).filter_sets@.len(),
                i == index.spec_index(),
                i < usize::MAX,
                self.access == old(self).access,
                forall|q: int| 0 <= q < k ==> (#[trigger] self.filter_sets@[q]).view_pair() == (
                    old(self).filter_sets@[q].view_pair().0,
                    old(self).filter_sets@[q].view_pair().1.insert(i),
                ),
                forall|q: int| k <= q < n ==> #[trigger] self.filter_sets@[q] == old(self).filter_sets@[q],
            decreases n - k,
        {
            grow_and_set(&mut self.filter_sets[k].without, i);
            k = k + 1;
        }
        proof {
            assert(self.filters() =~= old(self).filters().map_values(|f: (Set<usize>, Set<usize>)| (f.0, f.1.insert(i))));
        }
    }

    /// Adds the alternatives of `other` to this one's.
    pub fn append_or(&mut self, other: &FilteredAccess<T>)
        ensures
            final(self).access_view() == old(self).access_view(),
            final(self).filters() == old(self).filters() + other.filters(),
    {
        let n = other.filter_sets.len();
        let mut k: usize = 0;
        while k < n
            invariant
                k <= n,
                n == other.filter_sets@.len(),
                self.access == old(self).access,
                filter_pairs(self.filter_sets@) == filter_pairs(old(self).filter_sets@) + filter_pairs(other.filter_sets@).subrange(0, k as int),
            decreases n - k,
        {
            let c = other.filter_sets[k].copy();
            let ghost prev = self.filter_sets@;
            self.filter_sets.push(c);
            k = k + 1;
            proof {
                assert(filter_pairs(prev.push(c)) =~= filter_pairs(prev).push(c.view_pair()));
                assert(filter_pairs(other.filter_sets@)[k - 1] == other.filter_sets@[k - 1].view_pair());
                assert(filter_pairs(self.filter_sets@) =~= filter_pairs(old(self).filter_sets@) + filter_pairs(other.filter_sets@).subrange(0, k as int));
            }
        }
        proof {
            assert(filter_pairs(other.filter_sets@).subrange(0, n as int) =~= filter_pairs(other.filter_sets@));
        }
    }

    /// Adds everything `other` reads and writes.
    pub fn extend_access(&mut self, other: &FilteredAccess<T>)
        requires
            old(self).access_view().wf(),
            other.access_view().wf(),
        ensures
            final(self).access_view().wf(),
            final(self).access_view().rw() == old(self).access_view().rw().union(other.access_view().rw()),
            final(self).access_view().w() == old(self).access_view().w().union(other.access_view().w()),
            final(self).access_view().all() == (old(self).access_view().all() || other.access_view().all()),
            final(self).filters() == old(self).filters(),
    {
        self.access.extend(&other.access);
    }

    /// Marks every id as read.
    pub fn read_all(&mut self)
        ensures
            final(self).access_view().rw() == old(self).access_view().rw(),
            final(self).access_view().w() == old(self).access_view().w(),
            final(self).access_view().all(),
            final(self).filters() == old(self).filters(),
    {
        self.access.read_all();
    }

    /// Whether this filtered access and `other` may run at the same time.
    pub fn is_compatible(&self, other: &FilteredAccess<T>) -> (r: bool)
        ensures
            r == spec_filtered_compatible(self, other),
    {
        if self.access.is_compatible(&other.access) {
            return true;
        }
        let n = self.filter_sets.len();
        let m = other.filter_sets.len();
        let mut i: usize = 0;
        while i < n
            invariant
                i <= n,
                n == self.filter_sets@.len(),
                m == other.filter_sets@.len(),
                !spec_compatible(self.access_view().rw(), self.access_view().w(), self.access_view().all(), other.access_view().rw(), other.access_view().w(), other.access_view().all()),
                forall|a: int, b: int| 0 <= a < i && 0 <= b < m ==> ruled_out(
                    #[trigger] self.filters()[a],
                    #[trigger] other.filters()[b],
                ),
            decreases n - i,
        {
            let mut j: usize = 0;
            while j < m
                invariant
                    i < n,
                    j <= m,
                    n == self.filter_sets@.len(),
                    m == other.filter_sets@.len(),
                    !spec_compatible(self.access_view().rw(), self.access_view().w(), self.access_view().all(), other.access_view().rw(), other.access_view().w(), other.access_view().all()),
                    forall|b: int| 0 <= b < j ==> ruled_out(self.filters()[i as int], #[trigger] other.filters()[b]),
                decreases m - j,
            {
                let out = self.filter_sets[i].is_ruled_out_by(&other.filter_sets[j]);
                proof {
                    assert(self.filters()[i as int] == self.filter_sets@[i as int].view_pair());
                    assert(other.filters()[j as int] == other.filter_sets@[j as int].view_pair());
                }
                if !out {
                    proof {
                        assert(self.filters().len() == n && other.filters().len() == m);
                        assert(!ruled_out(self.filters()[i as int], other.filters()[j as int]));
                        assert(!all_ruled_out(self.filters(), other.filters()));
                    }
                    return false;
                }
                j = j + 1;
            }
            proof {
                assert forall|a: int, b: int| 0 <= a < i + 1 && 0 <= b < m implies ruled_out(
                    #[trigger] self.filters()[a],
                    #[trigger] other.filters()[b],
                ) by {
                    if a == i {
                        assert(ruled_out(self.filters()[i as int], other.filters()[b]));
                    }
                }
            }
            i = i + 1;
        }
        proof {
            assert(self.filters().len() == n);
            assert(other.filters().len() == m);
            assert forall|a: int, b: int| 0 <= a < self.filters().len() && 0 <= b < other.filters().len() implies ruled_out(
                #[trigger] self.filters()[a],
                #[trigger] other.filters()[b],
            ) by {
            }
        }
        true
    }

    /// The ids on which this filtered access and `other` conflict, when they are not compatible.
    pub fn get_conflicts(&self, other: &FilteredAccess<T>) -> (r: Vec<T>)
        ensures
            spec_filtered_compatible(self, other) ==> r@.len() == 0,
            !spec_filtered_compatible(self, other) ==> r@.len() == spec_conflicts(
                self.access_view().rw(),
                self.access_view().w(),
                self.access_view().all(),
                other.access_view().rw(),
                other.access_view().w(),
                other.access_view().all(),
            ).len(),
    {
        if !self.is_compatible(other) {
            return self.access.get_conflicts(&other.access);
        }
        Vec::new()
    }

    /// The bit set of the ids on which this filtered access and `other` conflict.
    fn conflict_bits_with(&self, other: &FilteredAccess<T>) -> (r: FixedBitSet)
        ensures
            bits_of(&r) == filtered_conflicts(self, other),
    {
        if self.is_compatible(other) {
            FixedBitSet::new()
        } else {
            self.access.conflict_bits(&other.access)
        }
    }

    /// Combines with `other` as a conjunction: the union of the accesses, and each alternative
    /// of this one joined with each alternative of `other`.
    pub fn extend(&mut self, other: &FilteredAccess<T>)
        requires
            old(self).access_view().wf(),
            other.access_view().wf(),
        ensures
            final(self).access_view().wf(),
            final(self).access_view().rw() == old(self).access_view().rw().union(other.access_view().rw()),
            final(self).access_view().w() == old(self).access_view().w().union(other.access_view().w()),
            final(self).access_view().all() == (old(self).access_view().all() || other.access_view().all()),
            final(self).filters() == all_joins(old(self).filters(), other.filters()),
    {
        self.access.extend(&other.access);
        let n = self.filter_sets.len();
        let mut joined: Vec<AccessFilters<T>> = Vec::new();
        let mut i: usize = 0;
        while i < n
            invariant
                i <= n,
                n == self.filter_sets@.len(),
                self.filter_sets@ == old(self).filter_sets@,
                filter_pairs(joined@) == all_joins(filter_pairs(self.filter_sets@).subrange(0, i as int), other.filters()),
            decreases n - i,
        {
            let mut part = join_each(&self.filter_sets[i], &other.filter_sets);
            let ghost prev = joined@;
            let ghost p = part@;
            joined.append(&mut part);
            proof {
                let a = filter_pairs(self.filter_sets@);
                assert(filter_pairs(prev + p) =~= filter_pairs(prev) + filter_pairs(p));
                assert(a.subrange(0, i + 1).drop_last() =~= a.subrange(0, i as int));
                assert(a.subrange(0, i + 1).last() == a[i as int]);
                assert(a[i as int] == self.filter_sets@[i as int].view_pair());
            }
            i = i + 1;
        }
        proof {
            assert(filter_pairs(self.filter_sets@).subrange(0, n as int) =~= filter_pairs(self.filter_sets@));
        }
        self.filter_sets = joined;
    }
}

/// Filter `f` joined with each filter of `b`, in order.
pub open spec fn joins_of(f: (Set<usize>, Set<usize>), b: Seq<(Set<usize>, Set<usize>)>) -> Seq<(Set<usize>, Set<usize>)> {
    b.map_values(|g: (Set<usize>, Set<usize>)| (f.0.union(g.0), f.1.union(g.1)))
}

/// Each filter of `a` joined with each filter of `b`, grouped by the filter of `a`.
pub open spec fn all_joins(a: Seq<(Set<usize>, Set<usize>)>, b: Seq<(Set<usize>, Set<usize>)>) -> Seq<(Set<usize>, Set<usize>)>
    decreases a.len(),
{
    if a.len() == 0 {
        Seq::empty()
    } else {
        all_joins(a.drop_last(), b) + joins_of(a.last(), b)
    }
}

/// `f` joined with each filter of `others`.
fn join_each<T>(f: &AccessFilters<T>, others: &Vec<AccessFilters<T>>) -> (r: Vec<AccessFilters<T>>)
    ensures
        filter_pairs(r@) == joins_of(f.view_pair(), filter_pairs(others@)),
{
    let mut out: Vec<AccessFilters<T>> = Vec::new();
    let mut k: usize = 0;
    while k < others.len()
        invariant
            k <= others@.len(),
            filter_pairs(out@) == joins_of(f.view_pair(), filter_pairs(others@).subrange(0, k as int)),
        decreases others@.len() - k,
    {
        let g = f.and(&others[k]);
        let ghost prev = out@;
        out.push(g);
        k = k + 1;
        proof {
            assert(filter_pairs(prev.push(g)) =~= filter_pairs(prev).push(g.view_pair()));
            assert(filter_pairs(others@)[k - 1] == others@[k - 1].view_pair());
            assert(filter_pairs(out@) =~= joins_of(f.view_pair(), filter_pairs(others@).subrange(0, k as int)));
        }
    }
    proof {
        assert(filter_pairs(others@).subrange(0, others@.len() as int) =~= filter_pairs(others@));
    }
    out
}

/// Compatibility of filtered accesses does not depend on their order.
pub proof fn lemma_filtered_compatibility_symmetric<T: SparseSetIndex>(a: &FilteredAccess<T>, b: &FilteredAccess<T>)
    ensures
        spec_filtered_compatible(a, b) == spec_filtered_compatible(b, a),
{
    let (x, y) = (a.access_view(), b.access_view());
    lemma_access_compatibility(x.rw(), x.w(), x.all(), y.rw(), y.w(), y.all());
    assert(all_ruled_out(a.filters(), b.filters()) == all_ruled_out(b.filters(), a.filters())) by {
        if all_ruled_out(a.filters(), b.filters()) {
            assert forall|i: int, j: int| 0 <= i < b.filters().len() && 0 <= j < a.filters().len() implies ruled_out(
                #[trigger] b.filters()[i],
                #[trigger] a.filters()[j],
            ) by {
                assert(ruled_out(a.filters()[j], b.filters()[i]));
            }
        }
        if all_ruled_out(b.filters(), a.filters()) {
            assert forall|i: int, j: int| 0 <= i < a.filters().len() && 0 <= j < b.filters().len() implies ruled_out(
                #[trigger] a.filters()[i],
                #[trigger] b.filters()[j],
            ) by {
                assert(ruled_out(b.filters()[j], a.filters()[i]));
            }
        }
    }
}

/// The ids on which two filtered accesses conflict: none when they are compatible.
pub open spec fn filtered_conflicts<T: SparseSetIndex>(a: &FilteredAccess<T>, b: &FilteredAccess<T>) -> Set<usize> {
    if spec_filtered_compatible(a, b) {
        Set::empty()
    } else {
        spec_conflicts(a.access_view().rw(), a.access_view().w(), a.access_view().all(), b.access_view().rw(), b.access_view().w(), b.access_view().all())
    }
}

/// The ids on which any of `accesses` conflicts with `f`.
pub open spec fn conflicts_with_one<T: SparseSetIndex>(accesses: Seq<FilteredAccess<T>>, f: FilteredAccess<T>) -> Set<usize>
    decreases accesses.len(),
{
    if accesses.len() == 0 {
        Set::empty()
    } else {
        conflicts_with_one(accesses.drop_last(), f).union(filtered_conflicts(&accesses.last(), &f))
    }
}

/// The ids on which any of `accesses` conflicts with any of `others`.
pub open spec fn conflicts_with_all<T: SparseSetIndex>(accesses: Seq<FilteredAccess<T>>, others: Seq<FilteredAccess<T>>) -> Set<usize>
    decreases others.len(),
{
    if others.len() == 0 {
        Set::empty()
    } else {
        conflicts_with_all(accesses, others.drop_last()).union(conflicts_with_one(accesses, others.last()))
    }
}

/// The accesses of many systems, with their combined access.
pub struct FilteredAccessSet<T> {
    combined_access: Access<T>,
    filtered_accesses: Vec<FilteredAccess<T>>,
}

impl<T: SparseSetIndex> FilteredAccessSet<T> {
    pub closed spec fn combined(&self) -> Access<T> {
        self.combined_access
    }

    /// The filtered accesses, in the order they were added.
    pub closed spec fn accesses(&self) -> Seq<FilteredAccess<T>> {
        self.filtered_accesses@
    }

    pub open spec fn wf(&self) -> bool {
        &&& self.combined().wf()
        &&& forall|i: int| 0 <= i < self.accesses().len() ==> (#[trigger] self.accesses()[i]).access_view().wf()
    }

    pub fn new() -> (r: FilteredAccessSet<T>)
        ensures
            r.wf(),
            r.accesses().len() == 0,
            r.combined().rw() == Set::<usize>::empty(),
            r.combined().w() == Set::<usize>::empty(),
            !r.combined().all(),
    {
        FilteredAccessSet { combined_access: Access::new(), filtered_accesses: Vec::new() }
    }

    pub fn combined_access(&self) -> (r: &Access<T>)
        ensures
            *r == self.combined(),
    {
        &self.combined_access
    }

    /// Whether this set and `other` may run at the same time: their combined accesses do not
    /// conflict, or every pair of their filtered accesses is compatible.
    pub fn is_compatible(&self, other: &FilteredAccessSet<T>) -> (r: bool)
        ensures
            r == (spec_compatible(self.combined().rw(), self.combined().w(), self.combined().all(), other.combined().rw(), other.combined().w(), other.combined().all())
                || forall|i: int, j: int| 0 <= i < self.accesses().len() && 0 <= j < other.accesses().len()
                    ==> spec_filtered_compatible(#[trigger] &self.accesses()[i], #[trigger] &other.accesses()[j])),
    {
        if self.combined_access.is_compatible(&other.combined_access) {
            return true;
        }
        let n = self.filtered_accesses.len();
        let m = other.filtered_accesses.len();
        let mut i: usize = 0;
        while i < n
            invariant
                i <= n,
                n == self.accesses().len(),
                m == other.accesses().len(),
                !spec_compatible(self.combined().rw(), self.combined().w(), self.combined().all(), other.combined().rw(), other.combined().w(), other.combined().all()),
                forall|a: int, b: int| 0 <= a < i && 0 <= b < m ==> spec_filtered_compatible(#[trigger] &self.accesses()[a], #[trigger] &other.accesses()[b]),
            decreases n - i,
        {
            let mut j: usize = 0;
            while j < m
                invariant
                    i < n,
                    j <= m,
                    n == self.accesses().len(),
                    m == other.accesses().len(),
                    !spec_compatible(self.combined().rw(), self.combined().w(), self.combined().all(), other.combined().rw(), other.combined().w(), other.combined().all()),
                    forall|a: int, b: int| 0 <= a < i && 0 <= b < m ==> spec_filtered_compatible(#[trigger] &self.accesses()[a], #[trigger] &other.accesses()[b]),
                    forall|b: int| 0 <= b < j ==> spec_filtered_compatible(&self.accesses()[i as int], #[trigger] &other.accesses()[b]),
                decreases m - j,
            {
                if !self.filtered_accesses[i].is_compatible(&other.filtered_accesses[j]) {
                    proof {
                        assert(!spec_filtered_compatible(&self.accesses()[i as int], &other.accesses()[j as int]));
                    }
                    return false;
                }
                j = j + 1;
            }
            proof {
                assert forall|a: int, b: int| 0 <= a < i + 1 && 0 <= b < m implies spec_filtered_compatible(
                    #[trigger] &self.accesses()[a],
                    #[trigger] &other.accesses()[b],
                ) by {
                    if a == i {
                        assert(spec_filtered_compatible(&self.accesses()[i as int], &other.accesses()[b]));
                    }
                }
            }
            i = i + 1;
        }
        true
    }

    /// The bit set of the ids on which any access of this set conflicts with `filtered_access`.
    fn conflict_bits_single(&self, filtered_access: &FilteredAccess<T>) -> (r: FixedBitSet)
        ensures
            bits_of(&r) == conflicts_with_one(self.accesses(), *filtered_access),
    {
        let mut bits = FixedBitSet::new();
        let n = self.filtered_accesses.len();
        let mut i: usize = 0;
        while i < n
            invariant
                i <= n,
                n == self.accesses().len(),
                bits_of(&bits) == conflicts_with_one(self.accesses().subrange(0, i as int), *filtered_access),
            decreases n - i,
        {
            let more = self.filtered_accesses[i].conflict_bits_with(filtered_access);
            bits.union_with(&more);
            proof {
                let s = self.accesses().subrange(0, i + 1);
                assert(s.drop_last() =~= self.accesses().subrange(0, i as int));
                assert(s.last() == self.accesses()[i as int]);
            }
            i = i + 1;
        }
        proof {
            assert(self.accesses().subrange(0, n as int) =~= self.accesses());
        }
        bits
    }

    /// The ids on which this set conflicts with `filtered_access`, in increasing order; none when
    /// the combined accesses do not conflict.
    pub fn get_conflicts_single(&self, filtered_access: &FilteredAccess<T>) -> (r: Vec<usize>)
        ensures
            r@.to_set() == if spec_compatible(self.combined().rw(), self.combined().w(), self.combined().all(),
                filtered_access.access_view().rw(), filtered_access.access_view().w(), filtered_access.access_view().all()) {
                Set::<usize>::empty()
            } else {
                conflicts_with_one(self.accesses(), *filtered_access)
            },
            forall|i: int, j: int| 0 <= i < j < r@.len() ==> r@[i] < r@[j],
    {
        if self.combined_access.is_compatible(&filtered_access.access) {
            let r: Vec<usize> = Vec::new();
            proof {
                assert(r@.to_set() =~= Set::<usize>::empty());
            }
            return r;
        }
        ones_of(&self.conflict_bits_single(filtered_access))
    }

    /// The ids on which this set conflicts with `other`, in increasing order; none when the
    /// combined accesses do not conflict.
    pub fn get_conflicts(&self, other: &FilteredAccessSet<T>) -> (r: Vec<usize>)
        ensures
            r@.to_set() == if spec_compatible(self.combined().rw(), self.combined().w(), self.combined().all(),
                other.combined().rw(), other.combined().w(), other.combined().all()) {
                Set::<usize>::empty()
            } else {
                conflicts_with_all(self.accesses(), other.accesses())
            },
            forall|i: int, j: int| 0 <= i < j < r@.len() ==> r@[i] < r@[j],
    {
        if self.combined_access.is_compatible(&other.combined_access) {
            let r: Vec<usize> = Vec::new();
            proof {
                assert(r@.to_set() =~= Set::<usize>::empty());
            }
            return r;
        }
        let mut bits = FixedBitSet::new();
        let m = other.filtered_accesses.len();
        let mut j: usize = 0;
        while j < m
            invariant
                j <= m,
                m == other.accesses().len(),
                bits_of(&bits) == conflicts_with_all(self.accesses(), other.accesses().subrange(0, j as int)),
            decreases m - j,
        {
            let more = self.conflict_bits_single(&other.filtered_accesses[j]);
            bits.union_with(&more);
            proof {
                let s = other.accesses().subrange(0, j + 1);
                assert(s.drop_last() =~= other.accesses().subrange(0, j as int));
                assert(s.last() == other.accesses()[j as int]);
            }
            j = j + 1;
        }
        proof {
            assert(other.accesses().subrange(0, m as int) =~= other.accesses());
        }
        ones_of(&bits)
    }

    /// Adds a filtered access.
    pub fn add(&mut self, filtered_access: FilteredAccess<T>)
        requires
            old(self).wf(),
            filtered_access.access_view().wf(),
        ensures
            final(self).wf(),
            final(self).accesses() == old(self).accesses().push(filtered_access),
            final(self).combined().rw() == old(self).combined().rw().union(filtered_access.access_view().rw()),
            final(self).combined().w() == old(self).combined().w().union(filtered_access.access_view().w()),
            final(self).combined().all() == (old(self).combined().all() || filtered_access.access_view().all()),
    {
        self.combined_access.extend(&filtered_access.access);
        self.filtered_accesses.push(filtered_access);
    }

    /// Adds an unfiltered read of `index`.
    pub fn add_unfiltered_read(&mut self, index: T)
        requires
            old(self).wf(),
            index.spec_index() < usize::MAX,
        ensures
            final(self).wf(),
            final(self).accesses().len() == old(self).accesses().len() + 1,
            final(self).accesses().drop_last() == old(self).accesses(),
            final(self).accesses().last().access_view().rw() == set![index.spec_index()],
            final(self).accesses().last().access_view().w() == Set::<usize>::empty(),
            !final(self).accesses().last().access_view().all(),
            final(self).accesses().last().filters() == seq![(set![index.spec_index()], Set::<usize>::empty())],
            final(self).combined().rw() == old(self).combined().rw().insert(index.spec_index()),
            final(self).combined().w() == old(self).combined().w(),
    {
        let mut filter = FilteredAccess::new();
        filter.add_read(index);
        proof {
            assert(filter.access_view().rw() =~= set![index.spec_index()]);
            assert(filter.access_view().w() =~= Set::<usize>::empty());
            assert(filter.filters() =~= seq![(set![index.spec_index()], Set::<usize>::empty())]);
        }
        self.add(filter);
        proof {
            assert(self.combined().rw() =~= old(self).combined().rw().insert(index.spec_index()));
            assert(self.combined().w() =~= old(self).combined().w());
        }
    }

    /// Adds an unfiltered write of `index`.
    pub fn add_unfiltered_write(&mut self, index: T)
        requires
            old(self).wf(),
            index.spec_index() < usize::MAX,
        ensures
            final(self).wf(),
            final(self).accesses().len() == old(self).accesses().len() + 1,
            final(self).accesses().drop_last() == old(self).accesses(),
            final(self).accesses().last().access_view().rw() == set![index.spec_index()],
            final(self).accesses().last().access_view().w() == set![index.spec_index()],
            !final(self).accesses().last().access_view().all(),
            final(self).accesses().last().filters() == seq![(set![index.spec_index()], Set::<usize>::empty())],
            final(self).combined().rw() == old(self).combined().rw().insert(index.spec_index()),
            final(self).combined().w() == old(self).combined().w().insert(index.spec_index()),
    {
        let mut filter = FilteredAccess::new();
        filter.add_write(index);
        proof {
            assert(filter.access_view().rw() =~= set![index.spec_index()]);
            assert(filter.access_view().w() =~= set![index.spec_index()]);
            assert(filter.filters() =~= seq![(set![index.spec_index()], Set::<usize>::empty())]);
        }
        self.add(filter);
        proof {
            assert(self.combined().rw() =~= old(self).combined().rw().insert(index.spec_index()));
            assert(self.combined().w() =~= old(self).combined().w().insert(index.spec_index()));
        }
    }

    /// Adds every access of `filtered_access_set`.
    pub fn extend(&mut self, filtered_access_set: FilteredAccessSet<T>)
        requires
            old(self).wf(),
            filtered_access_set.wf(),
        ensures
            final(self).wf(),
            final(self).accesses() == old(self).accesses() + filtered_access_set.accesses(),
            final(self).combined().rw() == old(self).combined().rw().union(filtered_access_set.combined().rw()),
            final(self).combined().w() == old(self).combined().w().union(filtered_access_set.combined().w()),
    {
        let mut other = filtered_access_set;
        self.combined_access.extend(&other.combined_access);
        self.filtered_accesses.append(&mut other.filtered_accesses);
    }

    /// Removes every access.
    pub fn clear(&mut self)
        ensures
            final(self).wf(),
            final(self).accesses().len() == 0,
            final(self).combined().rw() == Set::<usize>::empty(),
            final(self).combined().w() == Set::<usize>::empty(),
    {
        self.combined_access.clear();
        self.filtered_accesses.clear();
    }
}

} // verus!
