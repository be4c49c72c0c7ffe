use vstd::prelude::*;

use crate::component::{ComponentId, ComponentInfo, ComponentTicks, Tick};
use crate::entity::Entity;

verus! {

/// A value that names a slot of a sparse array.
pub trait SparseSetIndex: Sized + Copy {
    /// The slot this value names.
    spec fn spec_index(&self) -> usize;

    /// Whether `value` names a slot that some value of this type names.
    spec fn spec_fits(value: usize) -> bool;

    fn sparse_set_index(&self) -> (r: usize)
        ensures
            r == self.spec_index(),
    ;

    fn get_sparse_set_index(value: usize) -> (r: Self)
        ensures
            Self::spec_fits(value) ==> r.spec_index() == value,
    ;
}

impl SparseSetIndex for usize {
    open spec fn spec_index(&self) -> usize {
        *self
    }

    open spec fn spec_fits(value: usize) -> bool {
        true
    }

    fn sparse_set_index(&self) -> (r: usize) {
        *self
    }

    fn get_sparse_set_index(value: usize) -> (r: usize) {
        value
    }
}

impl SparseSetIndex for u32 {
    open spec fn spec_index(&self) -> usize {
        *self as usize
    }

    open spec fn spec_fits(value: usize) -> bool {
        value <= u32::MAX
    }

    fn sparse_set_index(&self) -> (r: usize) {
        *self as usize
    }

    fn get_sparse_set_index(value: usize) -> (r: u32) {
        value as u32
    }
}

impl SparseSetIndex for ComponentId {
    open spec fn spec_index(&self) -> usize {
        self.0
    }

    open spec fn spec_fits(value: usize) -> bool {
        true
    }

    fn sparse_set_index(&self) -> (r: usize) {
        self.0
    }

    fn get_sparse_set_index(value: usize) -> (r: ComponentId) {
        ComponentId(value)
    }
}

impl SparseSetIndex for Entity {
    open spec fn spec_index(&self) -> usize {
        self.index as usize
    }

    open spec fn spec_fits(value: usize) -> bool {
        value <= u32::MAX
    }

    fn sparse_set_index(&self) -> (r: usize) {
        self.index as usize
    }

    fn get_sparse_set_index(value: usize) -> (r: Entity) {
        Entity::from_raw(value as u32)
    }
}

/// The value in slot `i` of `values`, `None` past the end.
pub open spec fn slot<V>(values: Seq<Option<V>>, i: int) -> Option<V> {
    if 0 <= i < values.len() {
        values[i]
    } else {
        None
    }
}

/// A growable array of optional values addressed by an index type.
pub struct SparseArray<I, V> {
    values: Vec<Option<V>>,
    marker: core::marker::PhantomData<I>,
}

/// A frozen `SparseArray`.
pub struct ImmutableSparseArray<I, V> {
    values: Vec<Option<V>>,
    marker: core::marker::PhantomData<I>,
}

impl<I: SparseSetIndex, V> SparseArray<I, V> {
    /// The slots, in order.
    pub closed spec fn slots(&self) -> Seq<Option<V>> {
        self.values@
    }

    /// The value stored for `index`.
    pub open spec fn spec_get(&self, index: I) -> Option<V> {
        slot(self.slots(), index.spec_index() as int)
    }

    pub fn new() -> (r: Self)
        ensures
            r.slots().len() == 0,
    {
        SparseArray { values: Vec::new(), marker: core::marker::PhantomData }
    }

    pub fn contains(&self, index: I) -> (r: bool)
        ensures
            r == self.spec_get(index).is_some(),
    {
        let i = index.sparse_set_index();
        if i < self.values.len() {
            self.values[i].is_some()
        } else {
            false
        }
    }

    pub fn get(&self, index: I) -> (r: Option<&V>)
        ensures
            r == (match self.spec_get(index) {
                Some(v) => Some(&v),
                None => None,
            }),
    {
        let i = index.sparse_set_index();
        if i < self.values.len() {
            self.values[i].as_ref()
        } else {
            None
        }
    }

    /// Stores `value` for `index`, growing the array with empty slots as needed.
    pub fn insert(&mut self, index: I, value: V)
        requires
            index.spec_index() < usize::MAX,
        ensures
            final(self).slots().len() == if index.spec_index() < old(self).slots().len() {
                old(self).slots().len() as int
            } else {
                index.spec_index() + 1
            },
            forall|i: int| 0 <= i < final(self).slots().len() ==> #[trigger] final(self).slots()[i] == if i
                == index.spec_index() {
                Some(value)
            } else {
                slot(old(self).slots(), i)
            },
    {
        let i = index.sparse_set_index();
        while self.values.len() <= i
            invariant
                i < usize::MAX,
                old(self).values@.len() <= self.values@.len(),
                self.values@.len() <= if i < old(self).values@.len() {
                    old(self).values@.len() as int
                } else {
                    i + 1
                },
                forall|k: int| 0 <= k < self.values@.len() ==> #[trigger] self.values@[k] == slot(
                    old(self).values@,
                    k,
                ),
            decreases i + 1 - self.values@.len(),
        {
            self.values.push(None);
        }
        self.values.set(i, Some(value));
    }

    /// The value stored for `index`, to be changed in place.
    pub fn get_mut(&mut self, index: I) -> (r: Option<&mut V>)
        ensures
            old(self).spec_get(index).is_none() ==> r.is_none() && final(self).slots() == old(self).slots(),
            old(self).spec_get(index) matches Some(v) ==> (r matches Some(x) && *x == v && final(self).slots()
                == old(self).slots().update(index.spec_index() as int, Some(*final(x)))),
    {
        let i = index.sparse_set_index();
        if i < self.values.len() {
            self.values[i].as_mut()
        } else {
            None
        }
    }

    /// Removes and returns the value stored for `index`; the array keeps its length.
    pub fn remove(&mut self, index: I) -> (r: Option<V>)
        ensures
            r == old(self).spec_get(index),
            final(self).slots().len() == old(self).slots().len(),
            forall|i: int| 0 <= i < final(self).slots().len() ==> #[trigger] final(self).slots()[i] == if i
                == index.spec_index() {
                None
            } else {
                old(self).slots()[i]
            },
    {
        let i = index.sparse_set_index();
        if i < self.values.len() {
            self.values[i].take()
        } else {
            None
        }
    }

    pub fn clear(&mut self)
        ensures
            final(self).slots().len() == 0,
    {
        self.values.clear();
    }

    pub fn into_immutable(self) -> (r: ImmutableSparseArray<I, V>)
        ensures
            r.slots() == self.slots(),
    {
        ImmutableSparseArray { values: self.values, marker: core::marker::PhantomData }
    }
}

impl<I: SparseSetIndex, V> ImmutableSparseArray<I, V> {
    /// The slots, in order.
    pub closed spec fn slots(&self) -> Seq<Option<V>> {
        self.values@
    }

    /// The value stored for `index`.
    pub open spec fn spec_get(&self, index: I) -> Option<V> {
        slot(self.slots(), index.spec_index() as int)
    }

    pub fn contains(&self, index: I) -> (r: bool)
        ensures
            r == self.spec_get(index).is_some(),
    {
        let i = index.sparse_set_index();
        if i < self.values.len() {
            self.values[i].is_some()
        } else {
            false
        }
    }

    pub fn get(&self, index: I) -> (r: Option<&V>)
        ensures
            r == (match self.spec_get(index) {
                Some(v) => Some(&v),
                None => None,
            }),
    {
        let i = index.sparse_set_index();
        if i < self.values.len() {
            self.values[i].as_ref()
        } else {
            None
        }
    }
}

/// A dense vector of values with a sparse index from keys to positions.
pub struct SparseSet<I, V> {
    dense: Vec<V>,
    indices: Vec<I>,
    sparse: SparseArray<I, usize>,
}

/// A frozen `SparseSet`.
pub struct ImmutableSparseSet<I, V> {
    dense: Vec<V>,
    indices: Vec<I>,
    sparse: ImmutableSparseArray<I, usize>,
}

/// The sparse index of a set agrees with its dense keys.
pub open spec fn index_consistent<I: SparseSetIndex>(keys: Seq<I>, slots: Seq<Option<usize>>) -> bool {
    &&& forall|k: int| 0 <= k < keys.len() ==> slot(slots, (#[trigger] keys[k]).spec_index() as int) == Some(k as usize)
    &&& forall|i: int| 0 <= i < slots.len() ==> (#[trigger] slots[i] matches Some(k) ==> k < keys.len()
        && keys[k as int].spec_index() == i)
}

impl<I: SparseSetIndex, V> SparseSet<I, V> {
    /// The keys, in dense order.
    pub closed spec fn keys(&self) -> Seq<I> {
        self.indices@
    }

    /// The values, in dense order.
    pub closed spec fn values_seq(&self) -> Seq<V> {
        self.dense@
    }

    /// The dense position of the value stored for slot `i`.
    pub closed spec fn position(&self, i: usize) -> Option<usize> {
        slot(self.sparse.slots(), i as int)
    }

    pub closed spec fn wf(&self) -> bool {
        &&& self.dense@.len() == self.indices@.len()
        &&& index_consistent(self.indices@, self.sparse.slots())
        &&& self.sparse.slots().len() <= usize::MAX
    }

    /// The value stored for `index`.
    pub open spec fn spec_get(&self, index: I) -> Option<V> {
        match self.position(index.spec_index()) {
            Some(k) => Some(self.values_seq()[k as int]),
            None => None,
        }
    }

    proof fn lemma_position(&self, index: I)
        requires
            self.wf(),
        ensures
            self.position(index.spec_index()) matches Some(k) ==> k < self.keys().len()
                && self.keys()[k as int].spec_index() == index.spec_index(),
            self.position(index.spec_index()).is_none() ==> forall|k: int| 0 <= k < self.keys().len()
                ==> (#[trigger] self.keys()[k]).spec_index() != index.spec_index(),
    {
        if self.position(index.spec_index()).is_none() {
            assert forall|k: int| 0 <= k < self.keys().len() implies (#[trigger] self.keys()[k]).spec_index()
                != index.spec_index() by {
                assert(slot(self.sparse.slots(), self.indices@[k].spec_index() as int) == Some(k as usize));
            }
        }
    }

    pub fn new() -> (r: Self)
        ensures
            r.wf(),
            r.keys().len() == 0,
            r.values_seq().len() == 0,
    {
        SparseSet { dense: Vec::new(), indices: Vec::new(), sparse: SparseArray::new() }
    }

    pub fn with_capacity(capacity: usize) -> (r: Self)
        ensures
            r.wf(),
            r.keys().len() == 0,
            r.values_seq().len() == 0,
    {
        SparseSet { dense: Vec::with_capacity(capacity), indices: Vec::with_capacity(capacity), sparse: SparseArray::new() }
    }

    pub fn capacity(&self) -> (r: usize)
        ensures
            r >= self.values_seq().len(),
    {
        crate::vec_capacity(&self.dense)
    }

    pub fn len(&self) -> (r: usize)
        requires
            self.wf(),
        ensures
            r == self.keys().len(),
    {
        self.dense.len()
    }

    pub fn is_empty(&self) -> (r: bool)
        requires
            self.wf(),
        ensures
            r == (self.keys().len() == 0),
    {
        self.dense.len() == 0
    }

    pub fn contains(&self, index: I) -> (r: bool)
        requires
            self.wf(),
        ensures
            r == self.spec_get(index).is_some(),
    {
        self.sparse.contains(index)
    }

    pub fn get(&self, index: I) -> (r: Option<&V>)
        requires
            self.wf(),
        ensures
            r == (match self.spec_get(index) {
                Some(v) => Some(&v),
                None => None,
            }),
    {
        proof {
            self.lemma_position(index);
        }
        match self.sparse.get(index) {
            Some(k) => Some(&self.dense[*k]),
            None => None,
        }
    }

    /// Stores `value` for `index`, replacing the value already there.
    pub fn insert(&mut self, index: I, value: V)
        requires
            old(self).wf(),
            index.spec_index() < usize::MAX,
        ensures
            final(self).wf(),
            final(self).spec_get(index) == Some(value),
            forall|j: I| j.spec_index() != index.spec_index() ==> final(self).spec_get(j) == old(self).spec_get(j),
            old(self).spec_get(index).is_some() ==> final(self).keys() == old(self).keys(),
            old(self).spec_get(index).is_none() ==> final(self).keys() == old(self).keys().push(index),
    {
        proof {
            self.lemma_position(index);
        }
        match self.sparse.get(index) {
            Some(k) => {
                let k = *k;
                self.dense.set(k, value);
            },
            None => {
                let ghost old_slots = self.sparse.slots();
                let n = self.dense.len();
                self.sparse.insert(index, n);
                self.indices.push(index);
                self.dense.push(value);
                proof {
                    let keys = self.indices@;
                    let slots = self.sparse.slots();
                    assert forall|k: int| 0 <= k < keys.len() implies slot(slots, (#[trigger] keys[k]).spec_index() as int)
                        == Some(k as usize) by {
                        if k < n {
                            assert(keys[k] == old(self).indices@[k]);
                        }
                    }
                    assert forall|i: int| 0 <= i < slots.len() implies (#[trigger] slots[i] matches Some(k) ==> k
                        < keys.len() && keys[k as int].spec_index() == i) by {
                        if i != index.spec_index() {
                            assert(slots[i] == slot(old_slots, i));
                        }
                    }
                }
            },
        }
        proof {
            assert forall|j: I| j.spec_index() != index.spec_index() implies final(self).spec_get(j) == old(self).spec_get(j) by {
                old(self).lemma_position(j);
            }
        }
    }

    /// Removes the value stored for `index`. The last value moves into its dense position and
    /// the sparse index of the moved key is updated.
    pub fn remove(&mut self, index: I) -> (r: Option<V>)
        requires
            old(self).wf(),
        ensures
            final(self).wf(),
            r == old(self).spec_get(index),
            final(self).spec_get(index).is_none(),
            final(self).keys().len() == old(self).keys().len() - (if r.is_some() { 1int } else { 0int }),
            forall|j: I| j.spec_index() != index.spec_index() ==> final(self).spec_get(j) == old(self).spec_get(j),
    {
        proof {
            self.lemma_position(index);
        }
        match self.sparse.remove(index) {
            None => {
                proof {
                    assert(self.sparse.slots() =~= old(self).sparse.slots());
                }
                None
            },
            Some(k) => {
                let ghost keys = self.indices@;
                let ghost slots = self.sparse.slots();
                let last = self.dense.len() - 1;
                let value = self.dense.swap_remove(k);
                self.indices.swap_remove(k);
                if k != last {
                    let moved = self.indices[k];
                    let mi = moved.sparse_set_index();
                    proof {
                        assert(keys[last as int] == moved);
                        assert(slot(old(self).sparse.slots(), mi as int) == Some(last));
                        assert(mi != index.spec_index());
                        assert(mi < old(self).sparse.slots().len());
                    }
                    self.sparse.insert(moved, k);
                }
                proof {
                    let nk = self.indices@;
                    let ns = self.sparse.slots();
                    assert forall|p: int| 0 <= p < nk.len() implies slot(ns, (#[trigger] nk[p]).spec_index() as int)
                        == Some(p as usize) by {
                        if p != k {
                            assert(nk[p] == keys[p]);
                            assert(keys[p].spec_index() != index.spec_index());
                        }
                    }
                    assert forall|i: int| 0 <= i < ns.len() implies (#[trigger] ns[i] matches Some(q) ==> q < nk.len()
                        && nk[q as int].spec_index() == i) by {
                        if ns[i] is Some && i != index.spec_index() {
                            if k != last && i == keys[last as int].spec_index() {
                            } else {
                                assert(ns[i] == slot(old(self).sparse.slots(), i));
                            }
                        }
                    }
                    assert forall|j: I| j.spec_index() != index.spec_index() implies final(self).spec_get(j)
                        == old(self).spec_get(j) by {
                        old(self).lemma_position(j);
                    }
                }
                Some(value)
            },
        }
    }

    pub fn clear(&mut self)
        ensures
            final(self).wf(),
            final(self).keys().len() == 0,
            forall|j: I| final(self).spec_get(j).is_none(),
    {
        self.dense.clear();
        self.indices.clear();
        self.sparse.clear();
    }

    /// The keys, in dense order.
    pub fn indices(&self) -> (r: &[I])
        ensures
            r@ == self.keys(),
    {
        self.indices.as_slice()
    }

    /// The values, in dense order.
    pub fn values(&self) -> (r: &[V])
        ensures
            r@ == self.values_seq(),
    {
        self.dense.as_slice()
    }

    pub fn into_immutable(self) -> (r: ImmutableSparseSet<I, V>)
        requires
            self.wf(),
        ensures
            r.wf(),
            r.keys() == self.keys(),
            r.values_seq() == self.values_seq(),
            forall|j: I| r.spec_get(j) == self.spec_get(j),
    {
        ImmutableSparseSet { dense: self.dense, indices: self.indices, sparse: self.sparse.into_immutable() }
    }
}

impl<I: SparseSetIndex, V> ImmutableSparseSet<I, V> {
    /// The keys, in dense order.
    pub closed spec fn keys(&self) -> Seq<I> {
        self.indices@
    }

    /// The values, in dense order.
    pub closed spec fn values_seq(&self) -> Seq<V> {
        self.dense@
    }

    /// The dense position of the value stored for slot `i`.
    pub closed spec fn position(&self, i: usize) -> Option<usize> {
        slot(self.sparse.slots(), i as int)
    }

    pub closed spec fn wf(&self) -> bool {
        &&& self.dense@.len() == self.indices@.len()
        &&& index_consistent(self.indices@, self.sparse.slots())
        &&& self.sparse.slots().len() <= usize::MAX
    }

    /// The value stored for `index`.
    pub open spec fn spec_get(&self, index: I) -> Option<V> {
        match self.position(index.spec_index()) {
            Some(k) => Some(self.values_seq()[k as int]),
            None => None,
        }
    }

    pub fn len(&self) -> (r: usize)
        requires
            self.wf(),
        ensures
            r == self.keys().len(),
    {
        self.dense.len()
    }

    pub fn contains(&self, index: I) -> (r: bool)
        requires
            self.wf(),
        ensures
            r == self.spec_get(index).is_some(),
    {
        self.sparse.contains(index)
    }

    pub fn get(&self, index: I) -> (r: Option<&V>)
        requires
            self.wf(),
        ensures
            r == (match self.spec_get(index) {
                Some(v) => Some(&v),
                None => None,
            }),
    {
        match self.sparse.get(index) {
            Some(k) => Some(&self.dense[*k]),
            None => None,
        }
    }

    /// The keys, in dense order.
    pub fn indices(&self) -> (r: &[I])
        ensures
            r@ == self.keys(),
    {
        self.indices.as_slice()
    }

    /// The values, in dense order.
    pub fn values(&self) -> (r: &[V])
        ensures
            r@ == self.values_seq(),
    {
        self.dense.as_slice()
    }
}

/// One stored sparse component value and its stamps.
pub struct SparseValue {
    pub data: Vec<u8>,
    pub ticks: ComponentTicks,
}

/// The values of one sparse-stored component type, keyed by entity index.
pub struct ComponentSparseSet {
    set: SparseSet<u32, SparseValue>,
}

impl ComponentSparseSet {
    /// The value stored for the entity with index `index`, with its stamps.
    pub closed spec fn value_of(&self, index: u32) -> Option<(Seq<u8>, ComponentTicks)> {
        match self.set.spec_get(index) {
            Some(v) => Some((v.data@, v.ticks)),
            None => None,
        }
    }

    pub closed spec fn wf(&self) -> bool {
        self.set.wf()
    }

    pub fn new() -> (r: ComponentSparseSet)
        ensures
            r.wf(),
            forall|i: u32| r.value_of(i).is_none(),
    {
        ComponentSparseSet { set: SparseSet::new() }
    }

    /// Stores `data` for `entity`: a new value is stamped added and changed at `tick`; a
    /// replaced value keeps its added stamp.
    pub fn insert(&mut self, entity: Entity, data: Vec<u8>, tick: Tick)
        requires
            old(self).wf(),
            entity.index < u32::MAX,
        ensures
            final(self).wf(),
            final(self).value_of(entity.index) == Some((
                data@,
                match old(self).value_of(entity.index) {
                    Some(v) => ComponentTicks { added: v.1.added, changed: tick },
                    None => ComponentTicks { added: tick, changed: tick },
                },
            )),
            forall|i: u32| i != entity.index ==> final(self).value_of(i) == old(self).value_of(i),
    {
        let ticks = match self.set.get(entity.index) {
            Some(v) => ComponentTicks { added: v.ticks.added, changed: tick },
            None => ComponentTicks::new(tick),
        };
        self.set.insert(entity.index, SparseValue { data, ticks });
    }

    /// The value stored for `entity`.
    pub fn get(&self, entity: Entity) -> (r: Option<&Vec<u8>>)
        requires
            self.wf(),
        ensures
            r.is_some() == self.value_of(entity.index).is_some(),
            r matches Some(d) ==> d@ == self.value_of(entity.index).unwrap().0,
    {
        match self.set.get(entity.index) {
            Some(v) => Some(&v.data),
            None => None,
        }
    }

    /// Whether a value is stored for `entity`.
    pub fn contains(&self, entity: Entity) -> (r: bool)
        requires
            self.wf(),
        ensures
            r == self.value_of(entity.index).is_some(),
    {
        self.set.contains(entity.index)
    }

    /// Removes the value stored for `entity`, handing it back.
    pub fn remove_and_forget(&mut self, entity: Entity) -> (r: Option<Vec<u8>>)
        requires
            old(self).wf(),
        ensures
            final(self).wf(),
            r.is_some() == old(self).value_of(entity.index).is_some(),
            r matches Some(d) ==> d@ == old(self).value_of(entity.index).unwrap().0,
            final(self).value_of(entity.index).is_none(),
            forall|i: u32| i != entity.index ==> final(self).value_of(i) == old(self).value_of(i),
    {
        match self.set.remove(entity.index) {
            Some(v) => Some(v.data),
            None => None,
        }
    }

    /// The number of entities with a stored value.
    pub closed spec fn count(&self) -> nat {
        self.set.keys().len()
    }

    pub fn len(&self) -> (r: usize)
        requires
            self.wf(),
        ensures
            r == self.count(),
    {
        self.set.len()
    }
}

/// One sparse store per sparse-stored component type.
pub struct SparseSets {
    ids: Vec<ComponentId>,
    sets: Vec<ComponentSparseSet>,
}

impl SparseSets {
    /// The component ids that have a store, by position.
    pub closed spec fn ids(&self) -> Seq<ComponentId> {
        self.ids@
    }

    /// The stores, by position.
    pub closed spec fn set_seq(&self) -> Seq<ComponentSparseSet> {
        self.sets@
    }

    /// The value stored for the entity with index `i` by the store of `c`.
    pub open spec fn value_in(&self, c: ComponentId, i: u32) -> Option<(Seq<u8>, ComponentTicks)> {
        match crate::table::position_of(self.ids(), c) {
            Some(p) => self.set_seq()[p].value_of(i),
            None => None,
        }
    }

    proof fn lemma_position_unique(&self, c: ComponentId, p: int)
        requires
            self.wf(),
            0 <= p < self.ids().len(),
            self.ids()[p] == c,
        ensures
            crate::table::position_of(self.ids(), c) == Some(p),
    {
        assert(self.ids().contains(c));
        let q = crate::table::position_of(self.ids(), c).unwrap();
        assert(self.ids@[q] == self.ids@[p]);
    }

    pub closed spec fn wf(&self) -> bool {
        &&& self.ids@.len() == self.sets@.len()
        &&& self.ids@.no_duplicates()
        &&& forall|p: int| 0 <= p < self.sets@.len() ==> (#[trigger] self.sets@[p]).wf()
    }

    pub fn new() -> (r: SparseSets)
        ensures
            r.wf(),
            r.ids().len() == 0,
    {
        SparseSets { ids: Vec::new(), sets: Vec::new() }
    }

    pub fn len(&self) -> (r: usize)
        requires
            self.wf(),
        ensures
            r == self.ids().len(),
    {
        self.ids.len()
    }

    pub fn is_empty(&self) -> (r: bool)
        requires
            self.wf(),
        ensures
            r == (self.ids().len() == 0),
    {
        self.ids.len() == 0
    }

    /// The component ids that have a store.
    pub fn iter(&self) -> (r: &[ComponentId])
        ensures
            r@ == self.ids(),
    {
        self.ids.as_slice()
    }

    fn position(&self, component_id: ComponentId) -> (r: Option<usize>)
        requires
            self.wf(),
        ensures
            r.is_none() == !self.ids().contains(component_id),
            r matches Some(p) ==> p < self.ids().len() && self.ids()[p as int] == component_id,
    {
        let mut p: usize = 0;
        while p < self.ids.len()
            invariant
                p <= self.ids@.len(),
                forall|q: int| 0 <= q < p ==> self.ids@[q] != component_id,
            decreases self.ids@.len() - p,
        {
            if self.ids[p] == component_id {
                return Some(p);
            }
            p = p + 1;
        }
        None
    }

    /// The store of `component_id`, if it has one.
    pub fn get(&self, component_id: ComponentId) -> (r: Option<&ComponentSparseSet>)
        requires
            self.wf(),
        ensures
            r.is_some() == self.ids().contains(component_id),
            r matches Some(s) ==> forall|i: u32| #[trigger] s.value_of(i) == self.value_in(component_id, i),
    {
        match self.position(component_id) {
            Some(p) => {
                proof {
                    self.lemma_position_unique(component_id, p as int);
                }
                Some(&self.sets[p])
            },
            None => None,
        }
    }

    /// Makes sure the component described by `component_info` has a store.
    pub fn get_or_insert(&mut self, component_info: &ComponentInfo)
        requires
            old(self).wf(),
        ensures
            final(self).wf(),
            final(self).ids().to_set() == old(self).ids().to_set().insert(component_info.id),
    {
        if self.position(component_info.id).is_none() {
            let ghost old_ids = self.ids@;
            self.ids.push(component_info.id);
            self.sets.push(ComponentSparseSet::new());
            proof {
                let ids = self.ids@;
                assert forall|a: int, b: int| 0 <= a < ids.len() && 0 <= b < ids.len() && a != b implies ids[a] != ids[b] by {
                    if a < old_ids.len() && b < old_ids.len() {
                        assert(ids[a] == old_ids[a] && ids[b] == old_ids[b]);
                    } else if a < old_ids.len() {
                        assert(ids[a] == old_ids[a]);
                        assert(old_ids.contains(ids[a]));
                    } else {
                        assert(ids[b] == old_ids[b]);
                        assert(old_ids.contains(ids[b]));
                    }
                }
                assert forall|p: int| 0 <= p < self.sets@.len() implies (#[trigger] self.sets@[p]).wf() by {
                    if p < old_ids.len() {
                        assert(self.sets@[p] == old(self).sets@[p]);
                    }
                }
                assert(ids.to_set() =~= old_ids.to_set().insert(component_info.id)) by {
                    assert forall|x: ComponentId| ids.to_set().contains(x) implies old_ids.to_set().insert(component_info.id).contains(x) by {
                        let k = choose|k: int| 0 <= k < ids.len() && ids[k] == x;
                        if k < old_ids.len() {
                            assert(old_ids[k] == x);
                        }
                    }
                    assert forall|x: ComponentId| old_ids.to_set().insert(component_info.id).contains(x) implies ids.to_set().contains(x) by {
                        if x == component_info.id {
                            assert(ids[ids.len() - 1] == x);
                        } else {
                            let k = choose|k: int| 0 <= k < old_ids.len() && old_ids[k] == x;
                            assert(ids[k] == x);
                        }
                    }
                }
            }
        } else {
            proof {
                assert(self.ids@.to_set() =~= self.ids@.to_set().insert(component_info.id));
            }
        }
    }

    /// Stores `data` for `entity` in the store of `component_id`, which must exist.
    pub fn insert(&mut self, component_id: ComponentId, entity: Entity, data: Vec<u8>, tick: Tick)
        requires
            old(self).wf(),
            old(self).ids().contains(component_id),
            entity.index < u32::MAX,
        ensures
            final(self).wf(),
            final(self).ids() == old(self).ids(),
            final(self).value_in(component_id, entity.index) == Some((
                data@,
                match old(self).value_in(component_id, entity.index) {
                    Some(v) => ComponentTicks { added: v.1.added, changed: tick },
                    None => ComponentTicks { added: tick, changed: tick },
                },
            )),
            forall|c: ComponentId, i: u32| (c != component_id || i != entity.index) ==> #[trigger] final(self).value_in(c, i)
                == old(self).value_in(c, i),
    {
        let p = self.position(component_id).unwrap();
        proof {
            self.lemma_position_unique(component_id, p as int);
        }
        self.sets[p].insert(entity, data, tick);
        proof {
            assert forall|q: int| 0 <= q < self.sets@.len() implies (#[trigger] self.sets@[q]).wf() by {
                if q != p {
                    assert(self.sets@[q] == old(self).sets@[q]);
                }
            }
            assert forall|c: ComponentId, i: u32| (c != component_id || i != entity.index) implies #[trigger] self.value_in(c, i)
                == old(self).value_in(c, i) by {
                if self.ids().contains(c) {
                    let q = crate::table::position_of(self.ids(), c).unwrap();
                    if q == p as int {
                        assert(c == component_id);
                    }
                }
            }
        }
    }

    /// Removes the value stored for `entity` in the store of `component_id`, if any.
    pub fn remove(&mut self, component_id: ComponentId, entity: Entity)
        requires
            old(self).wf(),
        ensures
            final(self).wf(),
            final(self).ids() == old(self).ids(),
            final(self).value_in(component_id, entity.index).is_none(),
            forall|c: ComponentId, i: u32| (c != component_id || i != entity.index) ==> #[trigger] final(self).value_in(c, i)
                == old(self).value_in(c, i),
    {
        match self.position(component_id) {
            Some(p) => {
                proof {
                    self.lemma_position_unique(component_id, p as int);
                }
                let _ = self.sets[p].remove_and_forget(entity);
                proof {
                    assert forall|c: ComponentId, i: u32| (c != component_id || i != entity.index) implies #[trigger] self.value_in(c, i)
                        == old(self).value_in(c, i) by {
                        if self.ids().contains(c) {
                            let q = crate::table::position_of(self.ids(), c).unwrap();
                            if q == p as int {
                                assert(c == component_id);
                            }
                        }
                    }
                    assert forall|q: int| 0 <= q < self.sets@.len() implies (#[trigger] self.sets@[q]).wf() by {
                        if q != p {
                            assert(self.sets@[q] == old(self).sets@[q]);
                        }
                    }
                }
            },
            None => {},
        }
    }
}

} // verus!
