use vstd::prelude::*;
use vstd::set_lib::*;

use crate::archetype::{ArchetypeId, ArchetypeRow};
use crate::table::{TableId, TableRow};

verus! {

/// A logical, stable reference to one allocation of an index.
#[derive(Clone, Copy, PartialEq, Eq, Structural, Hash, PartialOrd, Ord, Debug)]
pub struct Entity {
    pub generation: u32,
    pub index: u32,
}

/// The number of distinct values of a `u32`.
pub open spec fn two_pow_32() -> int {
    0x1_0000_0000
}

/// The 64-bit packing of an id: the generation in the high half, the index in the low half.
pub open spec fn spec_to_bits(e: Entity) -> int {
    e.generation as int * two_pow_32() + e.index as int
}

/// The id that a 64-bit value packs.
pub open spec fn spec_from_bits(bits: u64) -> Entity {
    Entity { generation: (bits as int / two_pow_32()) as u32, index: (bits as int % two_pow_32()) as u32 }
}

impl Entity {
    pub fn new(index: u32, generation: u32) -> (r: Entity)
        ensures
            r.index == index,
            r.generation == generation,
    {
        Entity { generation, index }
    }

    /// The id of `index` in its first generation.
    pub fn from_raw(index: u32) -> (r: Entity)
        ensures
            r.index == index,
            r.generation == 0,
    {
        Entity { generation: 0, index }
    }

    /// The id that stands for no entity.
    pub fn placeholder() -> (r: Entity)
        ensures
            r.index == u32::MAX,
            r.generation == 0,
    {
        Entity::from_raw(u32::MAX)
    }

    pub fn to_bits(self) -> (r: u64)
        ensures
            r as int == spec_to_bits(self),
    {
        let g: u64 = self.generation as u64;
        let i: u64 = self.index as u64;
        let r: u64 = (g << 32u64) | i;
        proof {
            assert(r / 0x1_0000_0000u64 == g && r % 0x1_0000_0000u64 == i) by (bit_vector)
                requires
                    r == (g << 32u64) | i,
                    g <= 0xffff_ffffu64,
                    i <= 0xffff_ffffu64,
            ;
        }
        r
    }

    pub fn from_bits(bits: u64) -> (r: Entity)
        ensures
            r == spec_from_bits(bits),
    {
        let g: u64 = bits >> 32u64;
        let i: u64 = bits & 0xffff_ffffu64;
        proof {
            assert(g == bits / 0x1_0000_0000u64 && i == bits % 0x1_0000_0000u64) by (bit_vector)
                requires
                    g == bits >> 32u64,
                    i == bits & 0xffff_ffffu64,
            ;
        }
        Entity { generation: g as u32, index: i as u32 }
    }

    pub fn index(self) -> (r: u32)
        ensures
            r == self.index,
    {
        self.index
    }

    pub fn generation(self) -> (r: u32)
        ensures
            r == self.generation,
    {
        self.generation
    }
}

/// Decoding the 64-bit packing of an id gives the id back.
pub proof fn lemma_bits_round_trip(e: Entity)
    ensures
        0 <= spec_to_bits(e) <= u64::MAX,
        spec_from_bits(spec_to_bits(e) as u64) == e,
{
    let b = spec_to_bits(e);
    assert(0 <= b <= u64::MAX) by (nonlinear_arith)
        requires
            b == e.generation as int * 0x1_0000_0000 + e.index as int,
            e.generation <= 0xffff_ffff,
            e.index <= 0xffff_ffff,
    ;
    assert(b / 0x1_0000_0000 == e.generation as int && b % 0x1_0000_0000 == e.index as int) by (nonlinear_arith)
        requires
            b == e.generation as int * 0x1_0000_0000 + e.index as int,
            0 <= e.index <= 0xffff_ffff,
            0 <= e.generation,
    ;
}

/// Where an entity's data physically lives.
#[derive(Copy, Clone, Debug, PartialEq, Eq, Structural)]
pub struct EntityLocation {
    pub archetype_id: ArchetypeId,
    pub archetype_row: ArchetypeRow,
    pub table_id: TableId,
    pub table_row: TableRow,
}

/// The location of an entity that is stored nowhere.
pub open spec fn spec_invalid_location() -> EntityLocation {
    EntityLocation {
        archetype_id: ArchetypeId(u32::MAX),
        archetype_row: ArchetypeRow(u32::MAX),
        table_id: TableId(u32::MAX),
        table_row: TableRow(u32::MAX),
    }
}

impl EntityLocation {
    /// The location of an entity that is stored nowhere.
    pub fn invalid() -> (r: EntityLocation)
        ensures
            r == spec_invalid_location(),
    {
        EntityLocation {
            archetype_id: ArchetypeId(u32::MAX),
            archetype_row: ArchetypeRow(u32::MAX),
            table_id: TableId(u32::MAX),
            table_row: TableRow(u32::MAX),
        }
    }
}

/// Generation and location recorded for one index.
#[derive(Clone, Copy, Debug, PartialEq, Eq, Structural)]
pub struct EntityMeta {
    pub generation: u32,
    pub location: EntityLocation,
}

/// The record of an index that has never been placed.
pub open spec fn spec_empty_meta() -> EntityMeta {
    EntityMeta { generation: 0, location: spec_invalid_location() }
}

/// The id that the record of `index` currently names.
pub open spec fn meta_entity(metas: Seq<EntityMeta>, index: u32) -> Entity {
    Entity { generation: metas[index as int].generation, index }
}

/// `metas` with the location of each index in `indices` set to `location`.
pub open spec fn placed_at(metas: Seq<EntityMeta>, indices: Seq<u32>, location: EntityLocation) -> Seq<EntityMeta> {
    Seq::new(metas.len(), |i: int| if indices.contains(i as u32) {
        EntityMeta { generation: metas[i].generation, location }
    } else {
        metas[i]
    })
}

/// The ids `start..end` in their first generation.
pub open spec fn fresh_entities(start: int, end: int) -> Seq<Entity> {
    Seq::new((end - start) as nat, |k: int| Entity { generation: 0, index: (start + k) as u32 })
}

/// What happened to an id that was forced into the allocator.
pub enum AllocAtWithoutReplacement {
    Exists(EntityLocation),
    DidNotExist,
    ExistsWithWrongGeneration,
}

/// The ids handed out by one reservation, in order.
pub struct ReserveEntitiesIterator {
    ids: Vec<Entity>,
    next: usize,
}

impl ReserveEntitiesIterator {
    pub closed spec fn remaining(&self) -> Seq<Entity> {
        self.ids@.subrange(self.next as int, self.ids@.len() as int)
    }

    pub closed spec fn wf(&self) -> bool {
        self.next <= self.ids@.len()
    }

    /// Hands out the next reserved id.
    pub fn next(&mut self) -> (r: Option<Entity>)
        requires
            old(self).wf(),
        ensures
            final(self).wf(),
            old(self).remaining().len() == 0 ==> r.is_none() && final(self).remaining() == old(self).remaining(),
            old(self).remaining().len() > 0 ==> r == Some(old(self).remaining()[0])
                && final(self).remaining() == old(self).remaining().drop_first(),
    {
        if self.next < self.ids.len() {
            let e = self.ids[self.next];
            self.next = self.next + 1;
            proof {
                assert(final(self).remaining() =~= old(self).remaining().drop_first());
            }
            Some(e)
        } else {
            None
        }
    }

    /// How many ids are left.
    pub fn len(&self) -> (r: usize)
        requires
            self.wf(),
        ensures
            r == self.remaining().len(),
    {
        self.ids.len() - self.next
    }
}

/// Issues and recycles entity ids with generation counters.
pub struct Entities {
    meta: Vec<EntityMeta>,
    pending: Vec<u32>,
    free_cursor: i64,
    len: u32,
}

/// A sequence of distinct indices below `n` has at most `n` elements.
proof fn lemma_distinct_below(s: Seq<u32>, n: nat)
    requires
        s.no_duplicates(),
        forall|k: int| 0 <= k < s.len() ==> (#[trigger] s[k]) < n,
    ensures
        s.len() <= n,
{
    let t = s.map_values(|x: u32| x as int);
    assert(t.no_duplicates()) by {
        assert forall|i: int, j: int| 0 <= i < t.len() && 0 <= j < t.len() && i != j implies t[i] != t[j] by {
            assert(t[i] == s[i] as int && t[j] == s[j] as int);
            assert(s[i] != s[j]);
        }
    }
    t.unique_seq_to_set();
    assert(t.to_set().subset_of(set_int_range(0, n as int))) by {
        assert forall|x: int| t.to_set().contains(x) implies set_int_range(0, n as int).contains(x) by {
            let k = choose|k: int| 0 <= k < t.len() && t[k] == x;
            assert(t[k] == s[k] as int);
            assert(s[k] < n);
        }
    }
    lemma_int_range(0, n as int);
    lemma_len_subset(t.to_set(), set_int_range(0, n as int));
}

impl Entities {
    /// The record of every index ever handed out.
    pub closed spec fn metas(&self) -> Seq<EntityMeta> {
        self.meta@
    }

    /// Indices that were freed and may be handed out again, most recent last.
    pub closed spec fn pending_indices(&self) -> Seq<u32> {
        self.pending@
    }

    /// The reservation cursor: how many of the pending indices are still unreserved;
    /// negative when brand-new indices past the records were reserved.
    pub closed spec fn cursor(&self) -> int {
        self.free_cursor as int
    }

    /// The number of live ids.
    pub closed spec fn live_count(&self) -> nat {
        self.len as nat
    }

    pub closed spec fn wf(&self) -> bool {
        &&& self.meta@.len() - (if self.free_cursor < 0 { self.free_cursor as int } else { 0 }) <= u32::MAX
        &&& self.pending@.no_duplicates()
        &&& forall|k: int| 0 <= k < self.pending@.len() ==> (#[trigger] self.pending@[k]) < self.meta@.len()
        &&& self.free_cursor <= self.pending@.len()
        &&& self.len as int == self.meta@.len() - self.pending@.len()
    }

    /// True when every reservation has been made real.
    pub open spec fn is_flushed(&self) -> bool {
        self.cursor() == self.pending_indices().len()
    }

    proof fn lemma_wf_counts(&self)
        requires
            self.wf(),
        ensures
            self.pending_indices().len() <= self.metas().len(),
            self.metas().len() <= u32::MAX,
            self.live_count() == self.metas().len() - self.pending_indices().len(),
    {
        lemma_distinct_below(self.pending@, self.meta@.len());
    }

    /// The pending indices are distinct records.
    pub proof fn lemma_pending(&self)
        requires
            self.wf(),
        ensures
            self.pending_indices().no_duplicates(),
            forall|k: int| 0 <= k < self.pending_indices().len() ==> (#[trigger] self.pending_indices()[k]) < self.metas().len(),
            self.metas().len() <= u32::MAX,
    {
        self.lemma_wf_counts();
    }

    pub fn new() -> (r: Entities)
        ensures
            r.wf(),
            r.metas().len() == 0,
            r.pending_indices().len() == 0,
            r.cursor() == 0,
            r.live_count() == 0,
    {
        Entities { meta: Vec::new(), pending: Vec::new(), free_cursor: 0, len: 0 }
    }

    /// Hands out one id without exclusive bookkeeping: a recycled index while unreserved
    /// ones remain, else a brand-new index past the records. It becomes real at `flush`.
    pub fn reserve_entity(&mut self) -> (r: Entity)
        requires
            old(self).wf(),
            old(self).cursor() > 0 || old(self).metas().len() - old(self).cursor() < u32::MAX,
        ensures
            final(self).wf(),
            final(self).cursor() == old(self).cursor() - 1,
            final(self).metas() == old(self).metas(),
            final(self).pending_indices() == old(self).pending_indices(),
            final(self).live_count() == old(self).live_count(),
            old(self).cursor() > 0 ==> r == meta_entity(
                old(self).metas(),
                old(self).pending_indices()[old(self).cursor() - 1],
            ),
            old(self).cursor() <= 0 ==> r == (Entity {
                generation: 0,
                index: (old(self).metas().len() - old(self).cursor()) as u32,
            }),
    {
        let n = self.free_cursor;
        self.free_cursor = n - 1;
        if n > 0 {
            let index = self.pending[(n - 1) as usize];
            Entity { generation: self.meta[index as usize].generation, index }
        } else {
            let index = (self.meta.len() as i64 - n) as u32;
            Entity { generation: 0, index }
        }
    }

    /// Reserves `count` ids at once; they become real at `flush`.
    pub fn reserve_entities(&mut self, count: u32) -> (r: ReserveEntitiesIterator)
        requires
            old(self).wf(),
            old(self).metas().len() - (old(self).cursor() - count) <= u32::MAX,
        ensures
            final(self).wf(),
            r.wf(),
            final(self).cursor() == old(self).cursor() - count,
            final(self).metas() == old(self).metas(),
            final(self).pending_indices() == old(self).pending_indices(),
            final(self).live_count() == old(self).live_count(),
            r.remaining() == reserved_ids(
                old(self).metas(),
                old(self).pending_indices(),
                old(self).cursor(),
                count as int,
            ),
    {
        let ghost metas = self.meta@;
        let ghost pending = self.pending@;
        let range_end: i64 = self.free_cursor;
        let range_start: i64 = range_end - count as i64;
        self.free_cursor = range_start;
        let lo: usize = if range_start < 0 { 0 } else { range_start as usize };
        let hi: usize = if range_end < 0 { 0 } else { range_end as usize };
        let mut ids: Vec<Entity> = Vec::new();
        let mut k: usize = lo;
        while k < hi
            invariant
                lo <= k <= hi,
                hi <= pending.len(),
                self.meta@ == metas,
                self.pending@ == pending,
                forall|j: int| 0 <= j < pending.len() ==> (#[trigger] pending[j]) < metas.len(),
                ids@ == pending.subrange(lo as int, k as int).map_values(|i: u32| meta_entity(metas, i)),
            decreases hi - k,
        {
            let index = self.pending[k];
            ids.push(Entity { generation: self.meta[index as usize].generation, index });
            k = k + 1;
            proof {
                assert(pending.subrange(lo as int, k as int) =~= pending.subrange(lo as int, k - 1).push(index));
                assert(ids@ =~= pending.subrange(lo as int, k as int).map_values(|i: u32| meta_entity(metas, i)));
            }
        }
        let ghost freelist = ids@;
        if range_start < 0 {
            let base: i64 = self.meta.len() as i64;
            let new_start: i64 = if range_end < 0 { base - range_end } else { base };
            let new_end: i64 = base - range_start;
            let mut i: i64 = new_start;
            while i < new_end
                invariant
                    new_start <= i <= new_end,
                    new_end <= u32::MAX,
                    0 <= new_start,
                    ids@ == freelist + fresh_entities(new_start as int, i as int),
                decreases new_end - i,
            {
                ids.push(Entity { generation: 0, index: i as u32 });
                i = i + 1;
                proof {
                    assert(ids@ =~= freelist + fresh_entities(new_start as int, i as int));
                }
            }
        }
        proof {
            assert(ids@.subrange(0, ids@.len() as int) =~= ids@);
        }
        ReserveEntitiesIterator { ids, next: 0 }
    }

    /// Allocates one id exclusively: the most recently freed index, else a new one.
    pub fn allocate(&mut self) -> (r: Entity)
        requires
            old(self).wf(),
            old(self).is_flushed(),
            old(self).pending_indices().len() > 0 || old(self).metas().len() < u32::MAX,
        ensures
            final(self).wf(),
            final(self).is_flushed(),
            final(self).live_count() == old(self).live_count() + 1,
            old(self).pending_indices().len() > 0 ==> {
                &&& r == meta_entity(old(self).metas(), old(self).pending_indices().last())
                &&& final(self).pending_indices() == old(self).pending_indices().drop_last()
                &&& final(self).metas() == old(self).metas()
            },
            old(self).pending_indices().len() == 0 ==> {
                &&& r == Entity { generation: 0, index: old(self).metas().len() as u32 }
                &&& final(self).pending_indices() == old(self).pending_indices()
                &&& final(self).metas() == old(self).metas().push(spec_empty_meta())
            },
    {
        proof {
            self.lemma_wf_counts();
        }
        self.len = self.len + 1;
        if let Some(index) = self.pending.pop() {
            self.free_cursor = self.pending.len() as i64;
            proof {
                assert(self.pending@ =~= old(self).pending@.drop_last());
                assert forall|k: int| 0 <= k < self.pending@.len() implies (#[trigger] self.pending@[k]) < self.meta@.len() by {
                    assert(self.pending@[k] == old(self).pending@[k]);
                }
            }
            Entity { generation: self.meta[index as usize].generation, index }
        } else {
            let index = self.meta.len() as u32;
            self.meta.push(EntityMeta { generation: 0, location: EntityLocation::invalid() });
            Entity { generation: 0, index }
        }
    }

    /// Grows the records so that `index` exists, marking the skipped indices pending and
    /// giving `index` the generation `generation`.
    fn extend_to(&mut self, index: u32, generation: u32)
        requires
            old(self).wf(),
            old(self).is_flushed(),
            index < u32::MAX,
            index >= old(self).metas().len(),
        ensures
            final(self).wf(),
            final(self).is_flushed(),
            final(self).live_count() == old(self).live_count() + 1,
            final(self).metas() == old(self).metas() + Seq::new(
                (index - old(self).metas().len()) as nat,
                |k: int| spec_empty_meta(),
            ).push(EntityMeta { generation, location: spec_invalid_location() }),
            final(self).pending_indices() == old(self).pending_indices() + Seq::new(
                (index - old(self).metas().len()) as nat,
                |k: int| (old(self).metas().len() + k) as u32,
            ),
    {
        proof {
            self.lemma_wf_counts();
        }
        let ghost metas = self.meta@;
        let ghost pending = self.pending@;
        let start = self.meta.len();
        let mut i: usize = start;
        while i < index as usize
            invariant
                start <= i <= index,
                start == metas.len(),
                index < u32::MAX,
                self.meta@ == metas + Seq::new((i - start) as nat, |k: int| spec_empty_meta()),
                self.pending@ == pending + Seq::new((i - start) as nat, |k: int| (start + k) as u32),
                pending.no_duplicates(),
                forall|k: int| 0 <= k < pending.len() ==> (#[trigger] pending[k]) < start,
                self.len == old(self).len,
                self.free_cursor == old(self).free_cursor,
            decreases index - i,
        {
            self.pending.push(i as u32);
            self.meta.push(EntityMeta { generation: 0, location: EntityLocation::invalid() });
            i = i + 1;
            proof {
                assert(self.meta@ =~= metas + Seq::new((i - start) as nat, |k: int| spec_empty_meta()));
                assert(self.pending@ =~= pending + Seq::new((i - start) as nat, |k: int| (start + k) as u32));
            }
        }
        self.meta.push(EntityMeta { generation, location: EntityLocation::invalid() });
        self.free_cursor = self.pending.len() as i64;
        self.len = self.len + 1;
        proof {
            let p = self.pending@;
            assert(p.len() == pending.len() + (index - start));
            assert forall|a: int, b: int| 0 <= a < p.len() && 0 <= b < p.len() && a != b implies p[a] != p[b] by {
                if a < pending.len() && b >= pending.len() {
                    assert(p[a] == pending[a]);
                } else if b < pending.len() && a >= pending.len() {
                    assert(p[b] == pending[b]);
                }
            }
            assert forall|k: int| 0 <= k < p.len() implies (#[trigger] p[k]) < self.meta@.len() by {
                if k < pending.len() {
                    assert(p[k] == pending[k]);
                }
            }
        }
    }

    /// The position of `index` among the pending indices.
    fn pending_position(&self, index: u32) -> (r: Option<usize>)
        requires
            self.wf(),
        ensures
            r.is_none() ==> !self.pending_indices().contains(index),
            r matches Some(p) ==> p < self.pending_indices().len() && self.pending_indices()[p as int] == index,
    {
        let mut k: usize = 0;
        while k < self.pending.len()
            invariant
                k <= self.pending@.len(),
                forall|j: int| 0 <= j < k ==> self.pending@[j] != index,
            decreases self.pending@.len() - k,
        {
            if self.pending[k] == index {
                return Some(k);
            }
            k = k + 1;
        }
        None
    }

    /// Takes the pending index at position `p` out of the pending list and makes it live.
    fn claim_pending(&mut self, p: usize)
        requires
            old(self).wf(),
            old(self).is_flushed(),
            p < old(self).pending_indices().len(),
        ensures
            final(self).wf(),
            final(self).is_flushed(),
            final(self).live_count() == old(self).live_count() + 1,
            final(self).metas() == old(self).metas(),
            final(self).pending_indices() == old(self).pending_indices().update(
                p as int,
                old(self).pending_indices().last(),
            ).drop_last(),
    {
        proof {
            self.lemma_wf_counts();
        }
        let ghost pending = self.pending@;
        self.pending.swap_remove(p);
        self.free_cursor = self.pending.len() as i64;
        self.len = self.len + 1;
        proof {
            let q = self.pending@;
            assert forall|a: int, b: int| 0 <= a < q.len() && 0 <= b < q.len() && a != b implies q[a] != q[b] by {
                let ia = if a == p { pending.len() - 1 } else { a };
                let ib = if b == p { pending.len() - 1 } else { b };
                assert(q[a] == pending[ia]);
                assert(q[b] == pending[ib]);
            }
            assert forall|k: int| 0 <= k < q.len() implies (#[trigger] q[k]) < self.meta@.len() by {
                let ik = if k == p { pending.len() - 1 } else { k };
                assert(q[k] == pending[ik]);
            }
        }
    }

    /// Forces `entity` to be allocated. Returns the previous location when its index was
    /// already live; that storage must then be released by the caller.
    pub fn alloc_at(&mut self, entity: Entity) -> (r: Option<EntityLocation>)
        requires
            old(self).wf(),
            old(self).is_flushed(),
            entity.index < u32::MAX,
        ensures
            final(self).wf(),
            final(self).is_flushed(),
            entity.index >= old(self).metas().len() ==> {
                &&& r.is_none()
                &&& final(self).live_count() == old(self).live_count() + 1
                &&& final(self).metas() == old(self).metas() + Seq::new(
                    (entity.index - old(self).metas().len()) as nat,
                    |k: int| spec_empty_meta(),
                ).push(EntityMeta { generation: entity.generation, location: spec_invalid_location() })
                &&& final(self).pending_indices() == old(self).pending_indices() + Seq::new(
                    (entity.index - old(self).metas().len()) as nat,
                    |k: int| (old(self).metas().len() + k) as u32,
                )
            },
            entity.index < old(self).metas().len() && old(self).pending_indices().contains(entity.index) ==> {
                &&& r.is_none()
                &&& final(self).live_count() == old(self).live_count() + 1
                &&& final(self).metas() == old(self).metas().update(
                    entity.index as int,
                    EntityMeta {
                        generation: entity.generation,
                        location: old(self).metas()[entity.index as int].location,
                    },
                )
                &&& exists|p: int| 0 <= p < old(self).pending_indices().len()
                    && old(self).pending_indices()[p] == entity.index
                    && final(self).pending_indices() == old(self).pending_indices().update(
                        p,
                        old(self).pending_indices().last(),
                    ).drop_last()
            },
            entity.index < old(self).metas().len() && !old(self).pending_indices().contains(entity.index) ==> {
                &&& r == Some(old(self).metas()[entity.index as int].location)
                &&& final(self).live_count() == old(self).live_count()
                &&& final(self).pending_indices() == old(self).pending_indices()
                &&& final(self).metas() == old(self).metas().update(
                    entity.index as int,
                    EntityMeta { generation: entity.generation, location: spec_invalid_location() },
                )
            },
    {
        let idx = entity.index as usize;
        if idx >= self.meta.len() {
            self.extend_to(entity.index, entity.generation);
            None
        } else if let Some(p) = self.pending_position(entity.index) {
            self.claim_pending(p);
            let location = self.meta[idx].location;
            self.meta.set(idx, EntityMeta { generation: entity.generation, location });
            None
        } else {
            let location = self.meta[idx].location;
            self.meta.set(idx, EntityMeta { generation: entity.generation, location: EntityLocation::invalid() });
            Some(location)
        }
    }

    /// Forces `entity` to be allocated unless its index is already live, in which case
    /// nothing changes and the answer says whether the generations matched.
    pub fn alloc_at_without_replacement(&mut self, entity: Entity) -> (r: AllocAtWithoutReplacement)
        requires
            old(self).wf(),
            old(self).is_flushed(),
            entity.index < u32::MAX,
        ensures
            final(self).wf(),
            final(self).is_flushed(),
            entity.index >= old(self).metas().len() ==> {
                &&& r is DidNotExist
                &&& final(self).live_count() == old(self).live_count() + 1
                &&& final(self).metas() == old(self).metas() + Seq::new(
                    (entity.index - old(self).metas().len()) as nat,
                    |k: int| spec_empty_meta(),
                ).push(EntityMeta { generation: entity.generation, location: spec_invalid_location() })
                &&& final(self).pending_indices() == old(self).pending_indices() + Seq::new(
                    (entity.index - old(self).metas().len()) as nat,
                    |k: int| (old(self).metas().len() + k) as u32,
                )
            },
            entity.index < old(self).metas().len() && old(self).pending_indices().contains(entity.index) ==> {
                &&& r is DidNotExist
                &&& final(self).live_count() == old(self).live_count() + 1
                &&& final(self).metas() == old(self).metas().update(
                    entity.index as int,
                    EntityMeta {
                        generation: entity.generation,
                        location: old(self).metas()[entity.index as int].location,
                    },
                )
                &&& exists|p: int| 0 <= p < old(self).pending_indices().len()
                    && old(self).pending_indices()[p] == entity.index
                    && final(self).pending_indices() == old(self).pending_indices().update(
                        p,
                        old(self).pending_indices().last(),
                    ).drop_last()
            },
            entity.index < old(self).metas().len() && !old(self).pending_indices().contains(entity.index) ==> {
                let m = old(self).metas()[entity.index as int];
                &&& final(self).live_count() == old(self).live_count()
                &&& final(self).pending_indices() == old(self).pending_indices()
                &&& m.location.archetype_id.0 == u32::MAX ==> r is DidNotExist
                    && final(self).metas() == old(self).metas().update(
                        entity.index as int,
                        EntityMeta { generation: entity.generation, location: m.location },
                    )
                &&& m.location.archetype_id.0 != u32::MAX && m.generation == entity.generation
                    ==> r == AllocAtWithoutReplacement::Exists(m.location)
                    && final(self).metas() == old(self).metas()
                &&& m.location.archetype_id.0 != u32::MAX && m.generation != entity.generation
                    ==> r is ExistsWithWrongGeneration && final(self).metas() == old(self).metas()
            },
    {
        let idx = entity.index as usize;
        if idx >= self.meta.len() {
            self.extend_to(entity.index, entity.generation);
            AllocAtWithoutReplacement::DidNotExist
        } else if let Some(p) = self.pending_position(entity.index) {
            self.claim_pending(p);
            let location = self.meta[idx].location;
            self.meta.set(idx, EntityMeta { generation: entity.generation, location });
            AllocAtWithoutReplacement::DidNotExist
        } else {
            let m = self.meta[idx];
            if m.location.archetype_id.0 == u32::MAX {
                self.meta.set(idx, EntityMeta { generation: entity.generation, location: m.location });
                AllocAtWithoutReplacement::DidNotExist
            } else if m.generation == entity.generation {
                proof {
                    assert(self.meta@.update(idx as int, m) =~= self.meta@);
                }
                AllocAtWithoutReplacement::Exists(m.location)
            } else {
                AllocAtWithoutReplacement::ExistsWithWrongGeneration
            }
        }
    }

    /// Frees a live id: its generation advances (wrapping), its location is cleared and its
    /// index becomes pending. A stale id (generation mismatch) frees nothing.
    pub fn free(&mut self, entity: Entity) -> (r: Option<EntityLocation>)
        requires
            old(self).wf(),
            old(self).is_flushed(),
        ensures
            final(self).wf(),
            final(self).is_flushed(),
            !spec_frees(old(self).metas(), old(self).pending_indices(), entity) ==> {
                &&& r.is_none()
                &&& final(self).metas() == old(self).metas()
                &&& final(self).pending_indices() == old(self).pending_indices()
                &&& final(self).live_count() == old(self).live_count()
            },
            spec_frees(old(self).metas(), old(self).pending_indices(), entity) ==> {
                &&& r == Some(old(self).metas()[entity.index as int].location)
                &&& final(self).metas() == old(self).metas().update(
                    entity.index as int,
                    EntityMeta {
                        generation: vstd::wrapping::u32_specs::wrapping_add(entity.generation, 1),
                        location: spec_invalid_location(),
                    },
                )
                &&& final(self).pending_indices() == old(self).pending_indices().push(entity.index)
                &&& final(self).live_count() + 1 == old(self).live_count()
            },
    {
        let idx = entity.index as usize;
        if idx >= self.meta.len() {
            return None;
        }
        let m = self.meta[idx];
        if m.generation != entity.generation {
            return None;
        }
        if self.pending_position(entity.index).is_some() {
            return None;
        }
        proof {
            lemma_distinct_below(self.pending@.push(entity.index), self.meta@.len());
        }
        self.meta.set(idx, EntityMeta { generation: m.generation.wrapping_add(1), location: EntityLocation::invalid() });
        self.pending.push(entity.index);
        self.free_cursor = self.pending.len() as i64;
        self.len = self.len - 1;
        Some(m.location)
    }

    /// Makes room for `additional` more records; changes nothing that can be observed.
    pub fn reserve(&mut self, additional: u32)
        requires
            old(self).wf(),
        ensures
            final(self).wf(),
            final(self).metas() == old(self).metas(),
            final(self).pending_indices() == old(self).pending_indices(),
            final(self).cursor() == old(self).cursor(),
            final(self).live_count() == old(self).live_count(),
    {
        let shortfall: i64 = additional as i64 - self.free_cursor;
        if shortfall > 0 {
            self.meta.reserve(shortfall as usize);
        }
    }

    /// True iff `entity` is the current id of its index, reserved ids included.
    pub fn contains(&self, entity: Entity) -> (r: bool)
        requires
            self.wf(),
        ensures
            r == (spec_resolve(self.metas(), self.cursor(), entity.index) matches Some(e)
                && e.generation == entity.generation),
    {
        match self.resolve_from_id(entity.index) {
            Some(e) => e.generation == entity.generation,
            None => false,
        }
    }

    /// Forgets every id.
    pub fn clear(&mut self)
        ensures
            final(self).wf(),
            final(self).metas().len() == 0,
            final(self).pending_indices().len() == 0,
            final(self).cursor() == 0,
            final(self).live_count() == 0,
    {
        self.meta.clear();
        self.pending.clear();
        self.free_cursor = 0;
        self.len = 0;
    }

    /// The location of a live, placed id; `None` for stale, unknown or unplaced ids.
    pub fn get(&self, entity: Entity) -> (r: Option<EntityLocation>)
        requires
            self.wf(),
        ensures
            r == spec_get(self.metas(), entity),
    {
        let idx = entity.index as usize;
        if idx < self.meta.len() {
            let m = self.meta[idx];
            if m.generation != entity.generation || m.location.archetype_id.0 == u32::MAX {
                None
            } else {
                Some(m.location)
            }
        } else {
            None
        }
    }

    /// Records where the entity with index `index` now lives.
    pub fn set(&mut self, index: u32, location: EntityLocation)
        requires
            old(self).wf(),
            index < old(self).metas().len(),
        ensures
            final(self).wf(),
            final(self).metas() == old(self).metas().update(
                index as int,
                EntityMeta { generation: old(self).metas()[index as int].generation, location },
            ),
            final(self).pending_indices() == old(self).pending_indices(),
            final(self).cursor() == old(self).cursor(),
            final(self).live_count() == old(self).live_count(),
    {
        let g = self.meta[index as usize].generation;
        self.meta.set(index as usize, EntityMeta { generation: g, location });
    }

    /// Advances the generation of an unplaced index by `generations` (wrapping); fails on an
    /// unknown or placed index.
    pub fn reserve_generations(&mut self, index: u32, generations: u32) -> (r: bool)
        requires
            old(self).wf(),
        ensures
            final(self).wf(),
            r == (index < old(self).metas().len() && old(self).metas()[index as int].location.archetype_id.0
                == u32::MAX),
            r ==> final(self).metas() == old(self).metas().update(
                index as int,
                EntityMeta {
                    generation: vstd::wrapping::u32_specs::wrapping_add(
                        old(self).metas()[index as int].generation,
                        generations,
                    ),
                    location: old(self).metas()[index as int].location,
                },
            ),
            !r ==> final(self).metas() == old(self).metas(),
            final(self).pending_indices() == old(self).pending_indices(),
            final(self).cursor() == old(self).cursor(),
            final(self).live_count() == old(self).live_count(),
    {
        let idx = index as usize;
        if idx >= self.meta.len() {
            return false;
        }
        let m = self.meta[idx];
        if m.location.archetype_id.0 == u32::MAX {
            self.meta.set(idx, EntityMeta { generation: m.generation.wrapping_add(generations), location: m.location });
            true
        } else {
            false
        }
    }

    /// The current id of `index`, counting ids reserved past the records.
    pub fn resolve_from_id(&self, index: u32) -> (r: Option<Entity>)
        requires
            self.wf(),
        ensures
            r == spec_resolve(self.metas(), self.cursor(), index),
    {
        let idu = index as usize;
        if idu < self.meta.len() {
            Some(Entity { generation: self.meta[idu].generation, index })
        } else {
            let free_cursor = self.free_cursor;
            if free_cursor > 0 {
                return None;
            }
            let num_pending = (0 - free_cursor) as usize;
            if idu < self.meta.len() + num_pending {
                Some(Entity { generation: 0, index })
            } else {
                None
            }
        }
    }

    /// True iff reservations are waiting for `flush`.
    pub fn needs_flush(&self) -> (r: bool)
        requires
            self.wf(),
        ensures
            r == !self.is_flushed(),
    {
        self.free_cursor != self.pending.len() as i64
    }

    /// Makes every reserved id real: new records are appended for ids reserved past the
    /// records, and each realized id gets `init` as its location. Returns the realized ids
    /// in order.
    pub fn flush(&mut self, init: EntityLocation) -> (r: Vec<Entity>)
        requires
            old(self).wf(),
        ensures
            final(self).wf(),
            final(self).is_flushed(),
            final(self).metas() == flushed_metas(
                old(self).metas(),
                old(self).pending_indices(),
                old(self).cursor(),
                init,
            ),
            final(self).pending_indices() == old(self).pending_indices().subrange(
                0,
                non_negative(old(self).cursor()),
            ),
            r@ == flushed_ids(old(self).metas(), old(self).pending_indices(), old(self).cursor()),
            final(self).live_count() == old(self).live_count() + r@.len(),
    {
        proof {
            self.lemma_wf_counts();
        }
        let ghost metas = self.meta@;
        let ghost pending = self.pending@;
        let mut realized: Vec<Entity> = Vec::new();
        let current = self.free_cursor;
        let new_free: usize;
        if current >= 0 {
            new_free = current as usize;
        } else {
            let old_len = self.meta.len();
            let extra: usize = (0 - current) as usize;
            let mut k: usize = 0;
            while k < extra
                invariant
                    k <= extra,
                    old_len == metas.len(),
                    old_len + extra <= u32::MAX,
                    self.meta@ == metas + Seq::new(k as nat, |j: int| EntityMeta { generation: 0, location: init }),
                    realized@ == fresh_entities(old_len as int, old_len + k),
                    self.pending@ == pending,
                    self.len == old(self).len,
                decreases extra - k,
            {
                self.meta.push(EntityMeta { generation: 0, location: init });
                realized.push(Entity { generation: 0, index: (old_len + k) as u32 });
                k = k + 1;
                proof {
                    assert(self.meta@ =~= metas + Seq::new(k as nat, |j: int| EntityMeta { generation: 0, location: init }));
                    assert(realized@ =~= fresh_entities(old_len as int, old_len + k));
                }
            }
            self.len = self.len + extra as u32;
            self.free_cursor = 0;
            new_free = 0;
        }
        let ghost grown = self.meta@;
        let ghost prefix = realized@;
        proof {
            assert(grown == grown_metas(metas, current as int, init));
            assert(placed_at(grown, pending.subrange(new_free as int, new_free as int), init) =~= grown);
        }
        let plen = self.pending.len();
        let mut k: usize = new_free;
        while k < plen
            invariant
                new_free <= k <= plen,
                plen == pending.len(),
                self.pending@ == pending,
                grown.len() >= metas.len(),
                grown.len() <= u32::MAX,
                forall|j: int| 0 <= j < metas.len() ==> (#[trigger] grown[j]).generation == metas[j].generation,
                forall|j: int| 0 <= j < pending.len() ==> (#[trigger] pending[j]) < metas.len(),
                self.meta@ == placed_at(grown, pending.subrange(new_free as int, k as int), init),
                realized@ == prefix + pending.subrange(new_free as int, k as int).map_values(
                    |i: u32| meta_entity(metas, i),
                ),
                self.len == old(self).len + prefix.len(),
                self.len as int + plen - new_free <= u32::MAX,
            decreases plen - k,
        {
            let index = self.pending[k];
            let g = self.meta[index as usize].generation;
            self.meta.set(index as usize, EntityMeta { generation: g, location: init });
            realized.push(Entity { generation: g, index });
            k = k + 1;
            proof {
                let sub = pending.subrange(new_free as int, k as int);
                let old_sub = pending.subrange(new_free as int, k - 1);
                assert(sub =~= old_sub.push(index));
                assert forall|i: int| 0 <= i < grown.len() implies self.meta@[i] == placed_at(grown, sub, init)[i] by {
                    if i == index as int {
                        assert(sub[sub.len() - 1] == index);
                        assert(sub.contains(index));
                    } else {
                        if sub.contains(i as u32) {
                            let j = choose|j: int| 0 <= j < sub.len() && sub[j] == i as u32;
                            assert(old_sub[j] == sub[j]);
                            assert(old_sub.contains(i as u32));
                        }
                        if old_sub.contains(i as u32) {
                            let j = choose|j: int| 0 <= j < old_sub.len() && old_sub[j] == i as u32;
                            assert(sub[j] == old_sub[j]);
                            assert(sub.contains(i as u32));
                        }
                    }
                }
                assert(self.meta@ =~= placed_at(grown, sub, init));
                assert(realized@ =~= prefix + sub.map_values(|i: u32| meta_entity(metas, i)));
            }
        }
        self.len = self.len + (plen - new_free) as u32;
        self.pending.truncate(new_free);
        self.free_cursor = new_free as i64;
        proof {
            assert(self.pending@ =~= pending.subrange(0, new_free as int));
            assert(pending.subrange(new_free as int, plen as int) =~= pending.subrange(non_negative(current as int), pending.len() as int));
            assert forall|a: int, b: int| 0 <= a < self.pending@.len() && 0 <= b < self.pending@.len() && a != b
                implies self.pending@[a] != self.pending@[b] by {
                assert(self.pending@[a] == pending[a] && self.pending@[b] == pending[b]);
            }
            assert forall|j: int| 0 <= j < self.pending@.len() implies (#[trigger] self.pending@[j]) < self.meta@.len() by {
                assert(self.pending@[j] == pending[j]);
            }
        }
        realized
    }

    /// `flush` that leaves every realized id unplaced.
    pub fn flush_as_invalid(&mut self)
        requires
            old(self).wf(),
        ensures
            final(self).wf(),
            final(self).is_flushed(),
            final(self).metas() == flushed_metas(
                old(self).metas(),
                old(self).pending_indices(),
                old(self).cursor(),
                spec_invalid_location(),
            ),
            final(self).pending_indices() == old(self).pending_indices().subrange(
                0,
                non_negative(old(self).cursor()),
            ),
            final(self).live_count() == old(self).live_count() + flushed_ids(
                old(self).metas(),
                old(self).pending_indices(),
                old(self).cursor(),
            ).len(),
    {
        let _ = self.flush(EntityLocation::invalid());
    }

    /// The number of records, live or not.
    pub fn total_count(&self) -> (r: usize)
        ensures
            r == self.metas().len(),
    {
        self.meta.len()
    }

    /// The number of live ids.
    pub fn len(&self) -> (r: u32)
        ensures
            r == self.live_count(),
    {
        self.len
    }

    pub fn is_empty(&self) -> (r: bool)
        ensures
            r == (self.live_count() == 0),
    {
        self.len == 0
    }
}

/// The ids that a reservation of `count` hands out, from the records, the pending indices and
/// the cursor before it: the unreserved pending indices it takes, then the new indices past the
/// records.
pub open spec fn reserved_ids(metas: Seq<EntityMeta>, pending: Seq<u32>, cursor: int, count: int) -> Seq<Entity> {
    let start = cursor - count;
    let lo = if start < 0 { 0 } else { start };
    let hi = if cursor < 0 { 0 } else { cursor };
    let reused = pending.subrange(lo, hi).map_values(|i: u32| meta_entity(metas, i));
    if start < 0 {
        let new_start = if cursor < 0 { metas.len() - cursor } else { metas.len() as int };
        reused + fresh_entities(new_start, metas.len() - start)
    } else {
        reused
    }
}

/// `x`, or zero when it is negative.
pub open spec fn non_negative(x: int) -> int {
    if x < 0 {
        0
    } else {
        x
    }
}

/// The current id of `index`: its record's, or generation zero for an index reserved past the
/// records.
pub open spec fn spec_resolve(metas: Seq<EntityMeta>, cursor: int, index: u32) -> Option<Entity> {
    if index < metas.len() {
        Some(meta_entity(metas, index))
    } else if cursor <= 0 && index < metas.len() - cursor {
        Some(Entity { generation: 0, index })
    } else {
        None
    }
}

/// The location of `entity` when it is the current, placed id of its index.
pub open spec fn spec_get(metas: Seq<EntityMeta>, entity: Entity) -> Option<EntityLocation> {
    if entity.index < metas.len() && metas[entity.index as int].generation == entity.generation
        && metas[entity.index as int].location.archetype_id.0 != u32::MAX {
        Some(metas[entity.index as int].location)
    } else {
        None
    }
}

/// The records grown by the ids reserved past them, each given `init`.
pub open spec fn grown_metas(metas: Seq<EntityMeta>, cursor: int, init: EntityLocation) -> Seq<EntityMeta> {
    if cursor >= 0 {
        metas
    } else {
        metas + Seq::new((-cursor) as nat, |j: int| EntityMeta { generation: 0, location: init })
    }
}

/// The records after a flush that places every realized id at `init`.
pub open spec fn flushed_metas(metas: Seq<EntityMeta>, pending: Seq<u32>, cursor: int, init: EntityLocation) -> Seq<
    EntityMeta,
> {
    placed_at(grown_metas(metas, cursor, init), pending.subrange(non_negative(cursor), pending.len() as int), init)
}

/// The ids a flush realizes: those reserved past the records, then the reserved pending ones.
pub open spec fn flushed_ids(metas: Seq<EntityMeta>, pending: Seq<u32>, cursor: int) -> Seq<Entity> {
    let reused = pending.subrange(non_negative(cursor), pending.len() as int).map_values(
        |i: u32| meta_entity(metas, i),
    );
    if cursor >= 0 {
        reused
    } else {
        fresh_entities(metas.len() as int, metas.len() - cursor) + reused
    }
}

/// Freeing a live id and allocating again hands the index back with a strictly greater
/// generation (unless the generation wraps); advancing the freed index by `n` generations first
/// makes it `generation + n + 1`.
pub proof fn lemma_free_then_allocate_generation(metas: Seq<EntityMeta>, pending: Seq<u32>, entity: Entity, n: u32)
    requires
        entity.index < metas.len(),
        metas[entity.index as int].generation == entity.generation,
        entity.generation as int + n + 1 <= u32::MAX,
    ensures
        ({
            let freed = metas.update(
                entity.index as int,
                EntityMeta {
                    generation: vstd::wrapping::u32_specs::wrapping_add(entity.generation, 1),
                    location: spec_invalid_location(),
                },
            );
            let again = meta_entity(freed, pending.push(entity.index).last());
            &&& again.index == entity.index
            &&& again.generation > entity.generation
            &&& {
                let advanced = freed.update(
                    entity.index as int,
                    EntityMeta {
                        generation: vstd::wrapping::u32_specs::wrapping_add(freed[entity.index as int].generation, n),
                        location: freed[entity.index as int].location,
                    },
                );
                meta_entity(advanced, pending.push(entity.index).last()).generation == entity.generation + n + 1
            }
        }),
{
}

/// Whether freeing `entity` succeeds: it is the current id of a known index that is not
/// already free.
pub open spec fn spec_frees(metas: Seq<EntityMeta>, pending: Seq<u32>, entity: Entity) -> bool {
    &&& entity.index < metas.len()
    &&& metas[entity.index as int].generation == entity.generation
    &&& !pending.contains(entity.index)
}

} // verus!
