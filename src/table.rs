use vstd::prelude::*;

use crate::blob_vec::{BlobVec, Layout};
use crate::component::{ComponentId, ComponentInfo, ComponentTicks, Components, Tick};
use crate::signature::{
    index_contents, raw_ids, signature_index_get, signature_index_insert, signature_index_new, strictly_sorted,
    to_raw, SignatureIndex,
};
use crate::entity::Entity;

verus! {

/// Handle to one table.
#[derive(Debug, Clone, Copy, PartialEq, Eq, Structural)]
pub struct TableId(pub u32);

impl TableId {
    /// The table of no entity.
    pub fn invalid() -> (r: TableId)
        ensures
            r.0 == u32::MAX,
    {
        TableId(u32::MAX)
    }

    pub fn new(index: usize) -> (r: TableId)
        requires
            index <= u32::MAX,
        ensures
            r.0 == index,
    {
        TableId(index as u32)
    }

    pub fn index(&self) -> (r: usize)
        ensures
            r == self.0,
    {
        self.0 as usize
    }

    /// The table without columns, always present at index zero.
    pub fn empty() -> (r: TableId)
        ensures
            r.0 == 0,
    {
        TableId(0)
    }
}

/// Position of an entity inside its table.
#[derive(Debug, Clone, Copy, PartialEq, Eq, Structural)]
pub struct TableRow(pub u32);

impl TableRow {
    /// The row of no entity.
    pub fn invalid() -> (r: TableRow)
        ensures
            r.0 == u32::MAX,
    {
        TableRow(u32::MAX)
    }

    pub fn new(index: usize) -> (r: TableRow)
        requires
            index <= u32::MAX,
        ensures
            r.0 == index,
    {
        TableRow(index as u32)
    }

    pub fn index(&self) -> (r: usize)
        ensures
            r == self.0,
    {
        self.0 as usize
    }
}

/// The values of one component type in a table, with their stamps, one slot per row.
pub struct Column {
    data: BlobVec,
    added_ticks: Vec<Tick>,
    changed_ticks: Vec<Tick>,
}

impl Column {
    /// The stored values, by row.
    pub closed spec fn values(&self) -> Seq<Seq<u8>> {
        self.data.items()
    }

    /// The `added` stamps, by row.
    pub closed spec fn added(&self) -> Seq<Tick> {
        self.added_ticks@
    }

    /// The `changed` stamps, by row.
    pub closed spec fn changed(&self) -> Seq<Tick> {
        self.changed_ticks@
    }

    /// The layout of one value.
    pub closed spec fn spec_item_layout(&self) -> Layout {
        self.data.spec_layout()
    }

    pub closed spec fn wf(&self) -> bool {
        &&& self.data.wf()
        &&& self.data.items().len() == self.added_ticks@.len()
        &&& self.data.items().len() == self.changed_ticks@.len()
    }

    /// The number of rows.
    pub open spec fn spec_len(&self) -> nat {
        self.values().len()
    }

    /// Each row's value with its `added` and `changed` stamps.
    pub open spec fn cells(&self) -> Seq<(Seq<u8>, Tick, Tick)> {
        Seq::new(self.values().len(), |i: int| (self.values()[i], self.added()[i], self.changed()[i]))
    }

    /// An empty column for the component described by `component_info`.
    pub fn with_capacity(component_info: &ComponentInfo, capacity: usize) -> (r: Column)
        ensures
            r.wf(),
            r.spec_len() == 0,
            r.spec_item_layout() == component_info.descriptor.layout,
    {
        Column {
            data: BlobVec::new(component_info.layout(), component_info.drop(), capacity),
            added_ticks: Vec::with_capacity(capacity),
            changed_ticks: Vec::with_capacity(capacity),
        }
    }

    pub fn item_layout(&self) -> (r: Layout)
        ensures
            r == self.spec_item_layout(),
    {
        self.data.layout()
    }

    /// Writes a fresh value at `row`, stamping both ticks with `tick`.
    pub fn initialize(&mut self, row: TableRow, data: Vec<u8>, tick: Tick)
        requires
            old(self).wf(),
            row.0 < old(self).spec_len(),
        ensures
            final(self).wf(),
            final(self).values() == old(self).values().update(row.0 as int, data@),
            final(self).added() == old(self).added().update(row.0 as int, tick),
            final(self).changed() == old(self).changed().update(row.0 as int, tick),
            final(self).cells() == old(self).cells().update(row.0 as int, (data@, tick, tick)),
            final(self).spec_item_layout() == old(self).spec_item_layout(),
    {
        let i = row.index();
        let ghost d = data@;
        self.data.initialize_unchecked(i, data);
        self.added_ticks.set(i, tick);
        self.changed_ticks.set(i, tick);
        proof {
            assert(self.cells() =~= old(self).cells().update(row.0 as int, (d, tick, tick)));
        }
    }

    /// Overwrites the value at `row`, stamping it changed at `change_tick`.
    pub fn replace(&mut self, row: TableRow, data: Vec<u8>, change_tick: Tick)
        requires
            old(self).wf(),
            row.0 < old(self).spec_len(),
        ensures
            final(self).wf(),
            final(self).values() == old(self).values().update(row.0 as int, data@),
            final(self).added() == old(self).added(),
            final(self).changed() == old(self).changed().update(row.0 as int, change_tick),
            final(self).cells() == old(self).cells().update(
                row.0 as int,
                (data@, old(self).added()[row.0 as int], change_tick),
            ),
            final(self).spec_item_layout() == old(self).spec_item_layout(),
    {
        let i = row.index();
        let ghost d = data@;
        self.data.replace_unchecked(i, data);
        self.changed_ticks.set(i, change_tick);
        proof {
            assert(self.cells() =~= old(self).cells().update(row.0 as int, (d, old(self).added()[row.0 as int], change_tick)));
        }
    }

    /// Overwrites the value at `row` without touching its stamps.
    pub fn replace_untracked(&mut self, row: TableRow, data: Vec<u8>)
        requires
            old(self).wf(),
            row.0 < old(self).spec_len(),
        ensures
            final(self).wf(),
            final(self).values() == old(self).values().update(row.0 as int, data@),
            final(self).added() == old(self).added(),
            final(self).changed() == old(self).changed(),
            final(self).spec_item_layout() == old(self).spec_item_layout(),
    {
        self.data.replace_unchecked(row.index(), data);
    }

    pub fn len(&self) -> (r: usize)
        ensures
            r == self.spec_len(),
    {
        self.data.len()
    }

    pub fn is_empty(&self) -> (r: bool)
        ensures
            r == (self.spec_len() == 0),
    {
        self.data.is_empty()
    }

    /// Removes `row` by moving the last row into it; the removed value is dropped.
    pub fn swap_remove_unchecked(&mut self, row: TableRow)
        requires
            old(self).wf(),
            row.0 < old(self).spec_len(),
        ensures
            final(self).wf(),
            final(self).values() == old(self).values().update(row.0 as int, old(self).values().last()).drop_last(),
            final(self).added() == old(self).added().update(row.0 as int, old(self).added().last()).drop_last(),
            final(self).changed() == old(self).changed().update(row.0 as int, old(self).changed().last()).drop_last(),
            final(self).cells() == swap_removed(old(self).cells(), row.0 as int),
            final(self).spec_item_layout() == old(self).spec_item_layout(),
    {
        let i = row.index();
        self.data.swap_remove_and_drop_unchecked(i);
        self.added_ticks.swap_remove(i);
        self.changed_ticks.swap_remove(i);
        proof {
            assert(self.cells() =~= swap_removed(old(self).cells(), row.0 as int));
        }
    }

    /// Removes `row` by moving the last row into it, handing back its value and stamps.
    pub fn swap_remove_and_forget_unchecked(&mut self, row: TableRow) -> (r: (Vec<u8>, ComponentTicks))
        requires
            old(self).wf(),
            row.0 < old(self).spec_len(),
        ensures
            final(self).wf(),
            r.0@ == old(self).values()[row.0 as int],
            r.1 == (ComponentTicks { added: old(self).added()[row.0 as int], changed: old(self).changed()[row.0 as int] }),
            final(self).values() == old(self).values().update(row.0 as int, old(self).values().last()).drop_last(),
            final(self).added() == old(self).added().update(row.0 as int, old(self).added().last()).drop_last(),
            final(self).changed() == old(self).changed().update(row.0 as int, old(self).changed().last()).drop_last(),
            final(self).spec_item_layout() == old(self).spec_item_layout(),
    {
        let i = row.index();
        let data = self.data.swap_remove_and_forget_unchecked(i);
        let added = self.added_ticks.swap_remove(i);
        let changed = self.changed_ticks.swap_remove(i);
        (data, ComponentTicks { added, changed })
    }

    /// `swap_remove_and_forget_unchecked` for a row that may not exist.
    pub fn swap_remove_and_forget(&mut self, row: TableRow) -> (r: Option<(Vec<u8>, ComponentTicks)>)
        requires
            old(self).wf(),
        ensures
            final(self).wf(),
            row.0 >= old(self).spec_len() ==> r.is_none() && final(self).values() == old(self).values()
                && final(self).added() == old(self).added() && final(self).changed() == old(self).changed(),
            row.0 < old(self).spec_len() ==> (r matches Some(p) && p.0@ == old(self).values()[row.0 as int]
                && final(self).values() == old(self).values().update(row.0 as int, old(self).values().last()).drop_last()),
            final(self).spec_item_layout() == old(self).spec_item_layout(),
    {
        if row.index() < self.data.len() {
            Some(self.swap_remove_and_forget_unchecked(row))
        } else {
            None
        }
    }

    /// Moves the value and stamps at `src_row` of `other` into the slot `dst_row` of this
    /// column; `other` fills the hole with its last row.
    pub fn initialize_from_unchecked(&mut self, other: &mut Column, src_row: TableRow, dst_row: TableRow)
        requires
            old(self).wf(),
            old(other).wf(),
            src_row.0 < old(other).spec_len(),
            dst_row.0 < old(self).spec_len(),
        ensures
            final(self).wf(),
            final(other).wf(),
            final(self).values() == old(self).values().update(dst_row.0 as int, old(other).values()[src_row.0 as int]),
            final(self).added() == old(self).added().update(dst_row.0 as int, old(other).added()[src_row.0 as int]),
            final(self).changed() == old(self).changed().update(dst_row.0 as int, old(other).changed()[src_row.0 as int]),
            final(other).values() == old(other).values().update(src_row.0 as int, old(other).values().last()).drop_last(),
            final(other).added() == old(other).added().update(src_row.0 as int, old(other).added().last()).drop_last(),
            final(other).changed() == old(other).changed().update(src_row.0 as int, old(other).changed().last()).drop_last(),
            final(self).cells() == old(self).cells().update(dst_row.0 as int, old(other).cells()[src_row.0 as int]),
            final(other).cells() == swap_removed(old(other).cells(), src_row.0 as int),
            final(self).spec_item_layout() == old(self).spec_item_layout(),
            final(other).spec_item_layout() == old(other).spec_item_layout(),
    {
        let (data, ticks) = other.swap_remove_and_forget_unchecked(src_row);
        let i = dst_row.index();
        self.data.initialize_unchecked(i, data);
        self.added_ticks.set(i, ticks.added);
        self.changed_ticks.set(i, ticks.changed);
        proof {
            assert(self.cells() =~= old(self).cells().update(dst_row.0 as int, old(other).cells()[src_row.0 as int]));
            assert(other.cells() =~= swap_removed(old(other).cells(), src_row.0 as int));
        }
    }

    /// Appends a row holding `data` with the stamps `ticks`.
    pub fn push(&mut self, data: Vec<u8>, ticks: ComponentTicks)
        requires
            old(self).wf(),
            old(self).spec_len() < usize::MAX,
        ensures
            final(self).wf(),
            final(self).values() == old(self).values().push(data@),
            final(self).added() == old(self).added().push(ticks.added),
            final(self).changed() == old(self).changed().push(ticks.changed),
            final(self).spec_item_layout() == old(self).spec_item_layout(),
    {
        self.data.push(data);
        self.added_ticks.push(ticks.added);
        self.changed_ticks.push(ticks.changed);
    }

    /// Appends a row that is not written yet; its stamps start at zero.
    pub fn push_uninitialized(&mut self)
        requires
            old(self).wf(),
            old(self).spec_len() < usize::MAX,
        ensures
            final(self).wf(),
            final(self).values() == old(self).values().push(Seq::empty()),
            final(self).added() == old(self).added().push(Tick { tick: 0 }),
            final(self).changed() == old(self).changed().push(Tick { tick: 0 }),
            final(self).cells() == old(self).cells().push(empty_cell()),
            final(self).spec_item_layout() == old(self).spec_item_layout(),
    {
        self.data.push_uninitialized();
        self.added_ticks.push(Tick::new(0));
        self.changed_ticks.push(Tick::new(0));
        proof {
            assert(self.cells() =~= old(self).cells().push(empty_cell()));
        }
    }

    /// Makes room for `additional` more rows.
    pub fn reserve_exact(&mut self, additional: usize)
        requires
            old(self).wf(),
            old(self).spec_len() + additional <= usize::MAX,
        ensures
            final(self).wf(),
            final(self).values() == old(self).values(),
            final(self).added() == old(self).added(),
            final(self).changed() == old(self).changed(),
            final(self).spec_item_layout() == old(self).spec_item_layout(),
    {
        self.data.reserve_exact(additional);
        self.added_ticks.reserve(additional);
        self.changed_ticks.reserve(additional);
    }

    pub fn get_added_ticks_slice(&self) -> (r: &[Tick])
        ensures
            r@ == self.added(),
    {
        self.added_ticks.as_slice()
    }

    pub fn get_changed_ticks_slice(&self) -> (r: &[Tick])
        ensures
            r@ == self.changed(),
    {
        self.changed_ticks.as_slice()
    }

    /// The value and stamps at `row`, if the row exists.
    pub fn get(&self, row: TableRow) -> (r: Option<(&Vec<u8>, ComponentTicks)>)
        requires
            self.wf(),
        ensures
            row.0 >= self.spec_len() ==> r.is_none(),
            row.0 < self.spec_len() ==> (r matches Some(p) && p.0@ == self.values()[row.0 as int] && p.1 == (
            ComponentTicks { added: self.added()[row.0 as int], changed: self.changed()[row.0 as int] })),
    {
        let i = row.index();
        if i < self.data.len() {
            Some((self.data.get_unchecked(i), ComponentTicks { added: self.added_ticks[i], changed: self.changed_ticks[i] }))
        } else {
            None
        }
    }

    /// The value at `row`, if the row exists.
    pub fn get_data(&self, row: TableRow) -> (r: Option<&Vec<u8>>)
        ensures
            row.0 >= self.spec_len() ==> r.is_none(),
            row.0 < self.spec_len() ==> (r matches Some(p) && p@ == self.values()[row.0 as int]),
    {
        let i = row.index();
        if i < self.data.len() {
            Some(self.data.get_unchecked(i))
        } else {
            None
        }
    }

    pub fn get_added_ticks(&self, row: TableRow) -> (r: Option<Tick>)
        ensures
            r == (if row.0 < self.added().len() { Some(self.added()[row.0 as int]) } else { None }),
    {
        let i = row.index();
        if i < self.added_ticks.len() {
            Some(self.added_ticks[i])
        } else {
            None
        }
    }

    pub fn get_changed_ticks(&self, row: TableRow) -> (r: Option<Tick>)
        ensures
            r == (if row.0 < self.changed().len() { Some(self.changed()[row.0 as int]) } else { None }),
    {
        let i = row.index();
        if i < self.changed_ticks.len() {
            Some(self.changed_ticks[i])
        } else {
            None
        }
    }

    /// Both stamps at `row`, if the row exists.
    pub fn get_ticks(&self, row: TableRow) -> (r: Option<ComponentTicks>)
        requires
            self.wf(),
        ensures
            r == (if row.0 < self.spec_len() {
                Some(ComponentTicks { added: self.added()[row.0 as int], changed: self.changed()[row.0 as int] })
            } else {
                None
            }),
    {
        let i = row.index();
        if i < self.data.len() {
            Some(ComponentTicks { added: self.added_ticks[i], changed: self.changed_ticks[i] })
        } else {
            None
        }
    }

    /// Removes every row.
    pub fn clear(&mut self)
        requires
            old(self).wf(),
        ensures
            final(self).wf(),
            final(self).spec_len() == 0,
            final(self).spec_item_layout() == old(self).spec_item_layout(),
    {
        self.data.clear();
        self.added_ticks.clear();
        self.changed_ticks.clear();
    }

    /// Rebases every stamp that has grown too old relative to `change_tick`.
    pub fn check_change_ticks(&mut self, change_tick: Tick)
        requires
            old(self).wf(),
        ensures
            final(self).wf(),
            final(self).values() == old(self).values(),
            final(self).spec_item_layout() == old(self).spec_item_layout(),
            forall|i: int| 0 <= i < final(self).added().len() ==> #[trigger] final(self).added()[i] == rebased(
                old(self).added()[i],
                change_tick,
            ),
            forall|i: int| 0 <= i < final(self).changed().len() ==> #[trigger] final(self).changed()[i] == rebased(
                old(self).changed()[i],
                change_tick,
            ),
    {
        let n = self.added_ticks.len();
        let mut i: usize = 0;
        while i < n
            invariant
                i <= n,
                n == self.added_ticks@.len(),
                self.added_ticks@.len() == old(self).added_ticks@.len(),
                forall|j: int| 0 <= j < i ==> #[trigger] self.added_ticks@[j] == rebased(old(self).added_ticks@[j], change_tick),
                forall|j: int| i <= j < n ==> #[trigger] self.added_ticks@[j] == old(self).added_ticks@[j],
                self.data == old(self).data,
                self.changed_ticks == old(self).changed_ticks,
            decreases n - i,
        {
            let mut t = self.added_ticks[i];
            t.check_tick(change_tick);
            self.added_ticks.set(i, t);
            i = i + 1;
        }
        let m = self.changed_ticks.len();
        let mut i: usize = 0;
        while i < m
            invariant
                i <= m,
                m == self.changed_ticks@.len(),
                self.changed_ticks@.len() == old(self).changed_ticks@.len(),
                forall|j: int| 0 <= j < i ==> #[trigger] self.changed_ticks@[j] == rebased(old(self).changed_ticks@[j], change_tick),
                forall|j: int| i <= j < m ==> #[trigger] self.changed_ticks@[j] == old(self).changed_ticks@[j],
                self.data == old(self).data,
                self.added_ticks@.len() == old(self).added_ticks@.len(),
                forall|j: int| 0 <= j < self.added_ticks@.len() ==> #[trigger] self.added_ticks@[j] == rebased(old(self).added_ticks@[j], change_tick),
            decreases m - i,
        {
            let mut t = self.changed_ticks[i];
            t.check_tick(change_tick);
            self.changed_ticks.set(i, t);
            i = i + 1;
        }
    }
}

/// A stamp after `check_tick` against `change_tick`.
pub open spec fn rebased(t: Tick, change_tick: Tick) -> Tick {
    if crate::component::tick_age(change_tick.tick, t.tick) > crate::change_detection::MAX_CHANGE_AGE {
        Tick { tick: crate::component::tick_age(change_tick.tick, crate::change_detection::MAX_CHANGE_AGE) as u32 }
    } else {
        t
    }
}

/// A row that is not written yet: no bytes, both stamps zero.
pub open spec fn empty_cell() -> (Seq<u8>, Tick, Tick) {
    (Seq::empty(), Tick { tick: 0 }, Tick { tick: 0 })
}

/// `s` with position `i` filled by its last element, then shortened by one.
pub open spec fn swap_removed<T>(s: Seq<T>, i: int) -> Seq<T> {
    s.update(i, s.last()).drop_last()
}

/// The position of `id` in `ids`.
pub open spec fn position_of(ids: Seq<ComponentId>, id: ComponentId) -> Option<int> {
    if ids.contains(id) {
        Some(choose|p: int| 0 <= p < ids.len() && ids[p] == id)
    } else {
        None
    }
}

/// Where to find an entity that a swap-remove moved, and the row a moved entity now has.
pub struct TableMoveResult {
    pub swapped_entity: Option<Entity>,
    pub new_row: TableRow,
}

/// A group of columns sharing one row index space, one row per entity.
pub struct Table {
    component_ids: Vec<ComponentId>,
    columns: Vec<Column>,
    entities: Vec<Entity>,
}

/// Collects the columns of a table before it is built.
pub struct TableBuilder {
    component_ids: Vec<ComponentId>,
    columns: Vec<Column>,
    capacity: usize,
}

impl TableBuilder {
    pub closed spec fn ids(&self) -> Seq<ComponentId> {
        self.component_ids@
    }

    pub closed spec fn wf(&self) -> bool {
        &&& self.component_ids@.len() == self.columns@.len()
        &&& self.component_ids@.no_duplicates()
        &&& forall|p: int| 0 <= p < self.columns@.len() ==> (#[trigger] self.columns@[p]).wf() && self.columns@[p].spec_len() == 0
    }

    pub fn with_capacity(capacity: usize, column_capacity: usize) -> (r: TableBuilder)
        ensures
            r.wf(),
            r.ids().len() == 0,
    {
        TableBuilder { component_ids: Vec::with_capacity(column_capacity), columns: Vec::with_capacity(column_capacity), capacity }
    }

    /// Adds a column for the component described by `component_info`.
    pub fn add_column(&mut self, component_info: &ComponentInfo)
        requires
            old(self).wf(),
            !old(self).ids().contains(component_info.id),
        ensures
            final(self).wf(),
            final(self).ids() == old(self).ids().push(component_info.id),
    {
        let column = Column::with_capacity(component_info, self.capacity);
        self.component_ids.push(component_info.id);
        self.columns.push(column);
        proof {
            let ids = self.component_ids@;
            assert forall|a: int, b: int| 0 <= a < ids.len() && 0 <= b < ids.len() && a != b implies ids[a] != ids[b] by {
                if a < ids.len() - 1 && b < ids.len() - 1 {
                    assert(ids[a] == old(self).component_ids@[a] && ids[b] == old(self).component_ids@[b]);
                } else if a < ids.len() - 1 {
                    assert(ids[a] == old(self).component_ids@[a]);
                    assert(old(self).component_ids@.contains(ids[a]));
                } else {
                    assert(ids[b] == old(self).component_ids@[b]);
                    assert(old(self).component_ids@.contains(ids[b]));
                }
            }
            assert forall|p: int| 0 <= p < self.columns@.len() implies (#[trigger] self.columns@[p]).wf() && self.columns@[p].spec_len() == 0 by {
                if p < self.columns@.len() - 1 {
                    assert(self.columns@[p] == old(self).columns@[p]);
                }
            }
        }
    }

    /// The table with the added columns and no rows.
    pub fn build(self) -> (r: Table)
        requires
            self.wf(),
        ensures
            r.wf(),
            r.ids() == self.ids(),
            r.entity_seq().len() == 0,
    {
        Table { component_ids: self.component_ids, columns: self.columns, entities: Vec::with_capacity(self.capacity) }
    }
}

impl Table {
    /// The component ids of the columns, by column position.
    pub closed spec fn ids(&self) -> Seq<ComponentId> {
        self.component_ids@
    }

    /// The columns, by position.
    pub closed spec fn column_seq(&self) -> Seq<Column> {
        self.columns@
    }

    /// The entity of each row.
    pub closed spec fn entity_seq(&self) -> Seq<Entity> {
        self.entities@
    }

    pub closed spec fn wf(&self) -> bool {
        &&& self.component_ids@.len() == self.columns@.len()
        &&& self.component_ids@.no_duplicates()
        &&& forall|p: int| 0 <= p < self.columns@.len() ==> (#[trigger] self.columns@[p]).wf()
            && self.columns@[p].spec_len() == self.entities@.len()
    }

    /// The table without columns.
    pub fn empty_table() -> (r: Table)
        ensures
            r.wf(),
            r.ids().len() == 0,
            r.entity_seq().len() == 0,
    {
        Table { component_ids: Vec::new(), columns: Vec::new(), entities: Vec::new() }
    }

    pub fn entities(&self) -> (r: &[Entity])
        ensures
            r@ == self.entity_seq(),
    {
        self.entities.as_slice()
    }

    /// The column position of `component_id`.
    pub fn column_position(&self, component_id: ComponentId) -> (r: Option<usize>)
        requires
            self.wf(),
        ensures
            r.is_none() == !self.ids().contains(component_id),
            r matches Some(p) ==> p < self.ids().len() && self.ids()[p as int] == component_id,
    {
        let mut p: usize = 0;
        while p < self.component_ids.len()
            invariant
                p <= self.component_ids@.len(),
                forall|q: int| 0 <= q < p ==> self.component_ids@[q] != component_id,
            decreases self.component_ids@.len() - p,
        {
            if self.component_ids[p] == component_id {
                return Some(p);
            }
            p = p + 1;
        }
        None
    }

    pub fn get_column(&self, component_id: ComponentId) -> (r: Option<&Column>)
        requires
            self.wf(),
        ensures
            r.is_none() == !self.ids().contains(component_id),
            r matches Some(c) ==> exists|p: int| 0 <= p < self.ids().len() && self.ids()[p] == component_id
                && *c == self.column_seq()[p],
    {
        match self.column_position(component_id) {
            Some(p) => Some(&self.columns[p]),
            None => None,
        }
    }

    pub fn has_column(&self, component_id: ComponentId) -> (r: bool)
        requires
            self.wf(),
        ensures
            r == self.ids().contains(component_id),
    {
        self.column_position(component_id).is_some()
    }

    /// Adds a row for `entity` whose values are not written yet; returns its index.
    pub fn allocate(&mut self, entity: Entity) -> (r: TableRow)
        requires
            old(self).wf(),
            old(self).entity_seq().len() < u32::MAX,
        ensures
            final(self).wf(),
            r.0 == old(self).entity_seq().len(),
            final(self).entity_seq() == old(self).entity_seq().push(entity),
            final(self).ids() == old(self).ids(),
            final(self).column_seq().len() == old(self).column_seq().len(),
            forall|p: int| 0 <= p < final(self).column_seq().len() ==> (#[trigger] final(self).column_seq()[p]).cells()
                == old(self).column_seq()[p].cells().push(empty_cell()),
    {
        let index = self.entities.len();
        self.entities.push(entity);
        let n = self.columns.len();
        let mut p: usize = 0;
        while p < n
            invariant
                p <= n,
                n == self.columns@.len(),
                self.columns@.len() == old(self).columns@.len(),
                self.component_ids == old(self).component_ids,
                self.entities@ == old(self).entities@.push(entity),
                forall|q: int| 0 <= q < p ==> (#[trigger] self.columns@[q]).wf()
                    && self.columns@[q].spec_len() == self.entities@.len()
                    && self.columns@[q].cells() == old(self).columns@[q].cells().push(empty_cell()),
                forall|q: int| p <= q < n ==> #[trigger] self.columns@[q] == old(self).columns@[q],
                forall|q: int| 0 <= q < n ==> (#[trigger] old(self).columns@[q]).wf()
                    && old(self).columns@[q].spec_len() == old(self).entities@.len(),
                old(self).entities@.len() < u32::MAX,
            decreases n - p,
        {
            self.columns[p].push_uninitialized();
            p = p + 1;
        }
        TableRow(index as u32)
    }

    /// Removes `row` by moving the last row into it; the removed values are dropped.
    /// Returns the entity that moved into `row`, if any.
    pub fn swap_remove_unchecked(&mut self, row: TableRow) -> (r: Option<Entity>)
        requires
            old(self).wf(),
            row.0 < old(self).entity_seq().len(),
        ensures
            final(self).wf(),
            final(self).ids() == old(self).ids(),
            final(self).entity_seq() == swap_removed(old(self).entity_seq(), row.0 as int),
            r == (if row.0 == old(self).entity_seq().len() - 1 {
                None
            } else {
                Some(old(self).entity_seq().last())
            }),
            final(self).column_seq().len() == old(self).column_seq().len(),
            forall|p: int| 0 <= p < final(self).column_seq().len() ==> (#[trigger] final(self).column_seq()[p]).cells()
                == swap_removed(old(self).column_seq()[p].cells(), row.0 as int),
    {
        let n = self.columns.len();
        let mut p: usize = 0;
        while p < n
            invariant
                p <= n,
                n == self.columns@.len(),
                self.columns@.len() == old(self).columns@.len(),
                self.component_ids == old(self).component_ids,
                self.entities == old(self).entities,
                row.0 < old(self).entities@.len(),
                forall|q: int| 0 <= q < p ==> (#[trigger] self.columns@[q]).wf()
                    && self.columns@[q].spec_len() + 1 == old(self).entities@.len()
                    && self.columns@[q].cells() == swap_removed(old(self).columns@[q].cells(), row.0 as int),
                forall|q: int| p <= q < n ==> #[trigger] self.columns@[q] == old(self).columns@[q],
                forall|q: int| 0 <= q < n ==> (#[trigger] old(self).columns@[q]).wf()
                    && old(self).columns@[q].spec_len() == old(self).entities@.len(),
            decreases n - p,
        {
            self.columns[p].swap_remove_unchecked(row);
            p = p + 1;
        }
        let i = row.index();
        let is_last = i == self.entities.len() - 1;
        let last = self.entities[self.entities.len() - 1];
        self.entities.swap_remove(i);
        if is_last {
            None
        } else {
            Some(last)
        }
    }

    /// The value and stamps that row `row` of the column for `id` holds, or an unwritten row
    /// when this table has no such column.
    pub open spec fn cell_for(&self, id: ComponentId, row: int) -> (Seq<u8>, Tick, Tick) {
        match position_of(self.ids(), id) {
            Some(p) => self.column_seq()[p].cells()[row],
            None => empty_cell(),
        }
    }

    /// The value that row `row` of the column for `id` holds.
    pub open spec fn value_for(&self, id: ComponentId, row: int) -> Seq<u8> {
        self.cell_for(id, row).0
    }

    /// Moves `row` into a new row of `new_table`, carrying every value whose column exists
    /// there; values without a column there are dropped. The last row of this table fills the
    /// hole.
    fn move_row(&mut self, row: TableRow, new_table: &mut Table) -> (r: TableMoveResult)
        requires
            old(self).wf(),
            old(new_table).wf(),
            row.0 < old(self).entity_seq().len(),
            old(new_table).entity_seq().len() < u32::MAX,
        ensures
            final(self).wf(),
            final(new_table).wf(),
            final(self).ids() == old(self).ids(),
            final(new_table).ids() == old(new_table).ids(),
            final(self).entity_seq() == swap_removed(old(self).entity_seq(), row.0 as int),
            final(new_table).entity_seq() == old(new_table).entity_seq().push(old(self).entity_seq()[row.0 as int]),
            r.new_row.0 == old(new_table).entity_seq().len(),
            r.swapped_entity == (if row.0 == old(self).entity_seq().len() - 1 {
                None
            } else {
                Some(old(self).entity_seq().last())
            }),
            final(self).column_seq().len() == old(self).column_seq().len(),
            forall|p: int| 0 <= p < final(self).column_seq().len() ==> (#[trigger] final(self).column_seq()[p]).cells()
                == swap_removed(old(self).column_seq()[p].cells(), row.0 as int),
            final(new_table).column_seq().len() == old(new_table).column_seq().len(),
            forall|q: int| 0 <= q < final(new_table).column_seq().len() ==> (#[trigger] final(new_table).column_seq()[q]).cells()
                == old(new_table).column_seq()[q].cells().push(old(self).cell_for(old(new_table).ids()[q], row.0 as int)),
    {
        let i = row.index();
        let is_last = i == self.entities.len() - 1;
        let last = self.entities[self.entities.len() - 1];
        let moved = self.entities.swap_remove(i);
        let new_row = new_table.allocate(moved);
        let ghost mid_new = new_table.columns@;
        let n = self.columns.len();
        let mut p: usize = 0;
        while p < n
            invariant
                p <= n,
                n == self.columns@.len(),
                self.columns@.len() == old(self).columns@.len(),
                self.component_ids == old(self).component_ids,
                self.component_ids@.no_duplicates(),
                self.component_ids@.len() == n,
                self.entities@ == swap_removed(old(self).entities@, row.0 as int),
                row.0 < old(self).entities@.len(),
                new_row.0 == old(new_table).entities@.len(),
                new_table.wf(),
                new_table.component_ids@ == old(new_table).component_ids@,
                new_table.entities@ == old(new_table).entities@.push(moved),
                new_table.columns@.len() == mid_new.len(),
                forall|q: int| 0 <= q < mid_new.len() ==> (#[trigger] mid_new[q]).cells()
                    == old(new_table).columns@[q].cells().push(empty_cell()),
                forall|q: int| 0 <= q < p ==> (#[trigger] self.columns@[q]).wf()
                    && self.columns@[q].spec_len() + 1 == old(self).entities@.len()
                    && self.columns@[q].cells() == swap_removed(old(self).columns@[q].cells(), row.0 as int),
                forall|q: int| p <= q < n ==> #[trigger] self.columns@[q] == old(self).columns@[q],
                forall|q: int| 0 <= q < n ==> (#[trigger] old(self).columns@[q]).wf()
                    && old(self).columns@[q].spec_len() == old(self).entities@.len(),
                forall|q: int| 0 <= q < new_table.columns@.len() ==> (#[trigger] new_table.columns@[q]).cells()
                    == old(new_table).columns@[q].cells().push(
                        if self.component_ids@.subrange(0, p as int).contains(new_table.component_ids@[q]) {
                            old(self).cell_for(new_table.component_ids@[q], row.0 as int)
                        } else {
                            empty_cell()
                        },
                    ),
            decreases n - p,
        {
            let id = self.component_ids[p];
            proof {
                assert(self.component_ids@.contains(id));
                let pp = choose|pp: int| 0 <= pp < self.component_ids@.len() && self.component_ids@[pp] == id;
                assert(pp == p);
                assert(old(self).cell_for(id, row.0 as int) == old(self).columns@[p as int].cells()[row.0 as int]);
            }
            match new_table.column_position(id) {
                Some(q) => {
                    new_table.columns[q].initialize_from_unchecked(&mut self.columns[p], row, new_row);
                },
                None => {
                    self.columns[p].swap_remove_unchecked(row);
                },
            }
            p = p + 1;
            proof {
                let pre = self.component_ids@.subrange(0, p - 1);
                let post = self.component_ids@.subrange(0, p as int);
                assert(post =~= pre.push(id));
                assert forall|q: int| 0 <= q < new_table.columns@.len() implies (#[trigger] new_table.columns@[q]).cells()
                    == old(new_table).columns@[q].cells().push(
                        if post.contains(new_table.component_ids@[q]) {
                            old(self).cell_for(new_table.component_ids@[q], row.0 as int)
                        } else {
                            empty_cell()
                        },
                    ) by {
                    let cid = new_table.component_ids@[q];
                    if cid == id {
                        assert(post[post.len() - 1] == id);
                        assert(post.contains(cid));
                    } else {
                        if post.contains(cid) {
                            let k = choose|k: int| 0 <= k < post.len() && post[k] == cid;
                            assert(k < pre.len());
                            assert(pre[k] == cid);
                            assert(pre.contains(cid));
                        }
                        if pre.contains(cid) {
                            let k = choose|k: int| 0 <= k < pre.len() && pre[k] == cid;
                            assert(post[k] == cid);
                        }
                    }
                }
            }
        }
        proof {
            assert forall|q: int| 0 <= q < new_table.columns@.len() implies (#[trigger] new_table.columns@[q]).cells()
                == old(new_table).columns@[q].cells().push(old(self).cell_for(old(new_table).component_ids@[q], row.0 as int)) by {
                let cid = new_table.component_ids@[q];
                assert(self.component_ids@.subrange(0, n as int) =~= self.component_ids@);
                if !self.component_ids@.contains(cid) {
                    assert(old(self).cell_for(cid, row.0 as int) == empty_cell());
                }
            }
        }
        TableMoveResult { new_row, swapped_entity: if is_last { None } else { Some(last) } }
    }

    /// Moves `row` into `new_table`, whose columns include all of this table's.
    pub fn move_to_superset_unchecked(&mut self, row: TableRow, new_table: &mut Table) -> (r: TableMoveResult)
        requires
            old(self).wf(),
            old(new_table).wf(),
            row.0 < old(self).entity_seq().len(),
            old(new_table).entity_seq().len() < u32::MAX,
            forall|c: ComponentId| old(self).ids().contains(c) ==> old(new_table).ids().contains(c),
        ensures
            final(self).wf(),
            final(new_table).wf(),
            final(self).ids() == old(self).ids(),
            final(new_table).ids() == old(new_table).ids(),
            final(self).entity_seq() == swap_removed(old(self).entity_seq(), row.0 as int),
            final(new_table).entity_seq() == old(new_table).entity_seq().push(old(self).entity_seq()[row.0 as int]),
            r.new_row.0 == old(new_table).entity_seq().len(),
            r.swapped_entity == (if row.0 == old(self).entity_seq().len() - 1 {
                None
            } else {
                Some(old(self).entity_seq().last())
            }),
            final(self).column_seq().len() == old(self).column_seq().len(),
            forall|p: int| 0 <= p < final(self).column_seq().len() ==> (#[trigger] final(self).column_seq()[p]).cells()
                == swap_removed(old(self).column_seq()[p].cells(), row.0 as int),
            final(new_table).column_seq().len() == old(new_table).column_seq().len(),
            forall|q: int| 0 <= q < final(new_table).column_seq().len() ==> (#[trigger] final(new_table).column_seq()[q]).cells()
                == old(new_table).column_seq()[q].cells().push(old(self).cell_for(old(new_table).ids()[q], row.0 as int)),
    {
        self.move_row(row, new_table)
    }

    /// Moves `row` into `new_table`; values without a column there are dropped.
    pub fn move_to_and_drop_missing_unchecked(&mut self, row: TableRow, new_table: &mut Table) -> (r: TableMoveResult)
        requires
            old(self).wf(),
            old(new_table).wf(),
            row.0 < old(self).entity_seq().len(),
            old(new_table).entity_seq().len() < u32::MAX,
        ensures
            final(self).wf(),
            final(new_table).wf(),
            final(self).ids() == old(self).ids(),
            final(new_table).ids() == old(new_table).ids(),
            final(self).entity_seq() == swap_removed(old(self).entity_seq(), row.0 as int),
            final(new_table).entity_seq() == old(new_table).entity_seq().push(old(self).entity_seq()[row.0 as int]),
            r.new_row.0 == old(new_table).entity_seq().len(),
            r.swapped_entity == (if row.0 == old(self).entity_seq().len() - 1 {
                None
            } else {
                Some(old(self).entity_seq().last())
            }),
            forall|q: int| 0 <= q < final(new_table).column_seq().len() ==> (#[trigger] final(new_table).column_seq()[q]).cells()
                == old(new_table).column_seq()[q].cells().push(old(self).cell_for(old(new_table).ids()[q], row.0 as int)),
    {
        self.move_row(row, new_table)
    }

    /// Moves `row` into `new_table`; values without a column there are given up without
    /// running their destructor.
    pub fn move_to_and_forget_missing_unchecked(&mut self, row: TableRow, new_table: &mut Table) -> (r: TableMoveResult)
        requires
            old(self).wf(),
            old(new_table).wf(),
            row.0 < old(self).entity_seq().len(),
            old(new_table).entity_seq().len() < u32::MAX,
        ensures
            final(self).wf(),
            final(new_table).wf(),
            final(self).ids() == old(self).ids(),
            final(new_table).ids() == old(new_table).ids(),
            final(self).entity_seq() == swap_removed(old(self).entity_seq(), row.0 as int),
            final(new_table).entity_seq() == old(new_table).entity_seq().push(old(self).entity_seq()[row.0 as int]),
            r.new_row.0 == old(new_table).entity_seq().len(),
            r.swapped_entity == (if row.0 == old(self).entity_seq().len() - 1 {
                None
            } else {
                Some(old(self).entity_seq().last())
            }),
            forall|q: int| 0 <= q < final(new_table).column_seq().len() ==> (#[trigger] final(new_table).column_seq()[q]).cells()
                == old(new_table).column_seq()[q].cells().push(old(self).cell_for(old(new_table).ids()[q], row.0 as int)),
    {
        self.move_row(row, new_table)
    }

    /// Makes room for `additional` more rows in every column.
    pub fn reserve(&mut self, additional: usize)
        requires
            old(self).wf(),
            old(self).entity_seq().len() + additional <= usize::MAX,
        ensures
            final(self).wf(),
            final(self).ids() == old(self).ids(),
            final(self).entity_seq() == old(self).entity_seq(),
            final(self).column_seq().len() == old(self).column_seq().len(),
            forall|p: int| 0 <= p < final(self).column_seq().len() ==> (#[trigger] final(self).column_seq()[p]).values()
                == old(self).column_seq()[p].values(),
    {
        self.entities.reserve(additional);
        let n = self.columns.len();
        let mut p: usize = 0;
        while p < n
            invariant
                p <= n,
                n == self.columns@.len(),
                self.columns@.len() == old(self).columns@.len(),
                self.component_ids == old(self).component_ids,
                self.entities@ == old(self).entities@,
                forall|q: int| 0 <= q < n ==> (#[trigger] self.columns@[q]).wf()
                    && self.columns@[q].spec_len() == self.entities@.len()
                    && self.columns@[q].values() == old(self).columns@[q].values(),
                self.entities@.len() + additional <= usize::MAX,
            decreases n - p,
        {
            self.columns[p].reserve_exact(additional);
            p = p + 1;
        }
    }

    pub fn entity_count(&self) -> (r: usize)
        ensures
            r == self.entity_seq().len(),
    {
        self.entities.len()
    }

    pub fn component_count(&self) -> (r: usize)
        ensures
            r == self.column_seq().len(),
    {
        self.columns.len()
    }

    pub fn entity_capacity(&self) -> (r: usize)
        ensures
            r >= self.entity_seq().len(),
    {
        crate::vec_capacity(&self.entities)
    }

    pub fn is_empty(&self) -> (r: bool)
        ensures
            r == (self.entity_seq().len() == 0),
    {
        self.entities.len() == 0
    }

    /// Rebases every stamp of every column that has grown too old relative to `change_tick`.
    pub fn check_change_ticks(&mut self, change_tick: Tick)
        requires
            old(self).wf(),
        ensures
            final(self).wf(),
            final(self).ids() == old(self).ids(),
            final(self).entity_seq() == old(self).entity_seq(),
            final(self).column_seq().len() == old(self).column_seq().len(),
            forall|p: int| 0 <= p < final(self).column_seq().len() ==> (#[trigger] final(self).column_seq()[p]).values()
                == old(self).column_seq()[p].values(),
    {
        let n = self.columns.len();
        let mut p: usize = 0;
        while p < n
            invariant
                p <= n,
                n == self.columns@.len(),
                self.columns@.len() == old(self).columns@.len(),
                self.component_ids == old(self).component_ids,
                self.entities@ == old(self).entities@,
                forall|q: int| 0 <= q < n ==> (#[trigger] self.columns@[q]).wf()
                    && self.columns@[q].spec_len() == self.entities@.len()
                    && self.columns@[q].values() == old(self).columns@[q].values(),
            decreases n - p,
        {
            self.columns[p].check_change_ticks(change_tick);
            p = p + 1;
        }
    }

    /// The columns, by position.
    pub fn iter(&self) -> (r: &[Column])
        ensures
            r@ == self.column_seq(),
    {
        self.columns.as_slice()
    }

    /// Writes `data` at `row` of the column at position `p`.
    pub fn write_at(&mut self, p: usize, row: TableRow, data: Vec<u8>, tick: Tick, fresh: bool)
        requires
            old(self).wf(),
            p < old(self).ids().len(),
            row.0 < old(self).entity_seq().len(),
        ensures
            final(self).wf(),
            final(self).ids() == old(self).ids(),
            final(self).entity_seq() == old(self).entity_seq(),
            final(self).column_seq().len() == old(self).column_seq().len(),
            final(self).column_seq()[p as int].cells() == old(self).column_seq()[p as int].cells().update(
                row.0 as int,
                (data@, if fresh { tick } else { old(self).column_seq()[p as int].cells()[row.0 as int].1 }, tick),
            ),
            forall|q: int| 0 <= q < final(self).column_seq().len() && q != p ==> #[trigger] final(self).column_seq()[q]
                == old(self).column_seq()[q],
    {
        if fresh {
            self.columns[p].initialize(row, data, tick);
        } else {
            self.columns[p].replace(row, data, tick);
        }
    }

    /// Removes every row.
    pub fn clear(&mut self)
        requires
            old(self).wf(),
        ensures
            final(self).wf(),
            final(self).ids() == old(self).ids(),
            final(self).entity_seq().len() == 0,
    {
        self.entities.clear();
        let n = self.columns.len();
        let mut p: usize = 0;
        while p < n
            invariant
                p <= n,
                n == self.columns@.len(),
                self.columns@.len() == old(self).columns@.len(),
                self.component_ids == old(self).component_ids,
                self.entities@.len() == 0,
                forall|q: int| 0 <= q < p ==> (#[trigger] self.columns@[q]).wf() && self.columns@[q].spec_len() == 0,
                forall|q: int| p <= q < n ==> #[trigger] self.columns@[q] == old(self).columns@[q],
                forall|q: int| 0 <= q < n ==> (#[trigger] old(self).columns@[q]).wf(),
            decreases n - p,
        {
            self.columns[p].clear();
            p = p + 1;
        }
    }
}

/// Every table, the column-less one first, with a lookup from column sets to tables.
pub struct Tables {
    tables: Vec<Table>,
    table_ids: SignatureIndex,
}

impl Tables {
    /// The tables, by id.
    pub closed spec fn table_seq(&self) -> Seq<Table> {
        self.tables@
    }

    pub closed spec fn wf(&self) -> bool {
        &&& 1 <= self.tables@.len() <= u32::MAX
        &&& self.tables@[0].ids().len() == 0
        &&& forall|t: int| 0 <= t < self.tables@.len() ==> (#[trigger] self.tables@[t]).wf()
        &&& forall|k: (Seq<usize>, Seq<usize>)| #[trigger] index_contents(&self.table_ids).contains_key(k) ==> {
            let t = index_contents(&self.table_ids)[k];
            &&& t < self.tables@.len()
            &&& k.0 == raw_ids(self.tables@[t as int].ids())
        }
    }

    /// Only the table without columns.
    pub fn new() -> (r: Tables)
        ensures
            r.wf(),
            r.table_seq().len() == 1,
            r.table_seq()[0].entity_seq().len() == 0,
            r.table_seq()[0].ids().len() == 0,
    {
        let empty = TableBuilder::with_capacity(0, 0).build();
        let mut tables: Vec<Table> = Vec::new();
        tables.push(empty);
        Tables { tables, table_ids: signature_index_new() }
    }

    pub fn len(&self) -> (r: usize)
        ensures
            r == self.table_seq().len(),
    {
        self.tables.len()
    }

    pub fn is_empty(&self) -> (r: bool)
        ensures
            r == (self.table_seq().len() == 0),
    {
        self.tables.len() == 0
    }

    pub fn get(&self, id: TableId) -> (r: Option<&Table>)
        ensures
            r == (if id.0 < self.table_seq().len() {
                Some(&self.table_seq()[id.0 as int])
            } else {
                None
            }),
    {
        if (id.0 as usize) < self.tables.len() {
            Some(&self.tables[id.0 as usize])
        } else {
            None
        }
    }

    /// The tables, by id.
    pub fn iter(&self) -> (r: &[Table])
        ensures
            r@ == self.table_seq(),
    {
        self.tables.as_slice()
    }

    /// The table whose columns are exactly the registered components `component_ids`, in any
    /// order and with repeats allowed; created when none is.
    pub fn get_id_or_insert(&mut self, component_ids: &[ComponentId], components: &Components) -> (r: TableId)
        requires
            old(self).wf(),
            components.wf(),
            forall|k: int| 0 <= k < component_ids@.len() ==> (#[trigger] component_ids@[k]).0 < components.infos().len(),
            old(self).table_seq().len() < u32::MAX,
        ensures
            final(self).wf(),
            r.0 < final(self).table_seq().len(),
            final(self).table_seq()[r.0 as int].ids().to_set() == component_ids@.to_set(),
            strictly_sorted(final(self).table_seq()[r.0 as int].ids()),
            final(self).table_seq() == old(self).table_seq() || (final(self).table_seq() == old(
                self,
            ).table_seq().push(final(self).table_seq()[r.0 as int]) && r.0 == old(self).table_seq().len()
                && final(self).table_seq()[r.0 as int].entity_seq().len() == 0),
    {
        let sorted = crate::signature::sorted_unique(component_ids);
        proof {
            assert forall|k: int| 0 <= k < sorted@.len() implies (#[trigger] sorted@[k]).0 < components.infos().len() by {
                assert(sorted@.to_set().contains(sorted@[k]));
                assert(component_ids@.to_set().contains(sorted@[k]));
            }
        }
        self.get_id_or_insert_sorted(sorted.as_slice(), components)
    }

    /// The table whose columns are exactly the sorted, distinct `component_ids`, created when
    /// none is.
    fn get_id_or_insert_sorted(&mut self, component_ids: &[ComponentId], components: &Components) -> (r: TableId)
        requires
            old(self).wf(),
            components.wf(),
            strictly_sorted(component_ids@),
            forall|k: int| 0 <= k < component_ids@.len() ==> (#[trigger] component_ids@[k]).0 < components.infos().len(),
            old(self).table_seq().len() < u32::MAX,
        ensures
            final(self).wf(),
            r.0 < final(self).table_seq().len(),
            final(self).table_seq()[r.0 as int].ids() == component_ids@,
            final(self).table_seq() == old(self).table_seq() || (final(self).table_seq() == old(
                self,
            ).table_seq().push(final(self).table_seq()[r.0 as int]) && r.0 == old(self).table_seq().len()
                && final(self).table_seq()[r.0 as int].entity_seq().len() == 0),
    {
        let key = to_raw(component_ids);
        let none: Vec<usize> = Vec::new();
        match signature_index_get(&self.table_ids, &key, &none) {
            Some(t) => {
                proof {
                    assert(none@ =~= Seq::<usize>::empty());
                    crate::signature::lemma_raw_ids_injective(self.tables@[t as int].ids(), component_ids@);
                }
                TableId(t)
            },
            None => {
                let mut builder = TableBuilder::with_capacity(0, component_ids.len());
                let mut i: usize = 0;
                while i < component_ids.len()
                    invariant
                        i <= component_ids@.len(),
                        builder.wf(),
                        builder.ids() == component_ids@.subrange(0, i as int),
                        strictly_sorted(component_ids@),
                        components.wf(),
                        forall|k: int| 0 <= k < component_ids@.len() ==> (#[trigger] component_ids@[k]).0 < components.infos().len(),
                    decreases component_ids@.len() - i,
                {
                    let id = component_ids[i];
                    let info = &components.iter()[id.0];
                    proof {
                        assert(info.id == id);
                        assert(!builder.ids().contains(id)) by {
                            if builder.ids().contains(id) {
                                let k = choose|k: int| 0 <= k < builder.ids().len() && builder.ids()[k] == id;
                                assert(component_ids@[k].0 < component_ids@[i as int].0);
                            }
                        }
                    }
                    builder.add_column(info);
                    i = i + 1;
                    proof {
                        assert(builder.ids() =~= component_ids@.subrange(0, i as int));
                    }
                }
                proof {
                    assert(component_ids@.subrange(0, component_ids@.len() as int) =~= component_ids@);
                }
                let table = builder.build();
                let t = self.tables.len() as u32;
                self.tables.push(table);
                signature_index_insert(&mut self.table_ids, key, none, t);
                proof {
                    assert forall|k: (Seq<usize>, Seq<usize>)| #[trigger] index_contents(&self.table_ids).contains_key(k) implies ({
                        let v = index_contents(&self.table_ids)[k];
                        &&& v < self.tables@.len()
                        &&& k.0 == raw_ids(self.tables@[v as int].ids())
                    }) by {
                        if k != (key@, none@) {
                            assert(index_contents(&old(self).table_ids).contains_key(k));
                            assert(self.tables@[index_contents(&old(self).table_ids)[k] as int] == old(self).tables@[index_contents(&old(self).table_ids)[k] as int]);
                        }
                    }
                }
                TableId(t)
            },
        }
    }

    proof fn lemma_kept(&self, old_self: Tables, changed: Set<int>)
        requires
            old_self.wf(),
            self.tables@.len() == old_self.tables@.len(),
            self.table_ids == old_self.table_ids,
            forall|t: int| 0 <= t < self.tables@.len() && !changed.contains(t) ==> #[trigger] self.tables@[t] == old_self.tables@[t],
            forall|t: int| 0 <= t < self.tables@.len() && changed.contains(t) ==> (#[trigger] self.tables@[t]).wf()
                && self.tables@[t].ids() == old_self.tables@[t].ids(),
        ensures
            self.wf(),
    {
        assert forall|k: (Seq<usize>, Seq<usize>)| #[trigger] index_contents(&self.table_ids).contains_key(k) implies {
            let t = index_contents(&self.table_ids)[k];
            &&& t < self.tables@.len()
            &&& k.0 == raw_ids(self.tables@[t as int].ids())
        } by {
            let t = index_contents(&self.table_ids)[k];
            assert(index_contents(&old_self.table_ids).contains_key(k));
        }
        if !changed.contains(0) {
            assert(self.tables@[0] == old_self.tables@[0]);
        }
    }

    /// Adds a row for `entity` to table `id`; its values are not written yet.
    pub fn allocate(&mut self, id: TableId, entity: Entity) -> (r: TableRow)
        requires
            old(self).wf(),
            id.0 < old(self).table_seq().len(),
            old(self).table_seq()[id.0 as int].entity_seq().len() < u32::MAX,
        ensures
            final(self).wf(),
            final(self).table_seq().len() == old(self).table_seq().len(),
            forall|t: int| 0 <= t < old(self).table_seq().len() && t != id.0 ==> #[trigger] final(self).table_seq()[t]
                == old(self).table_seq()[t],
            final(self).table_seq()[id.0 as int].ids() == old(self).table_seq()[id.0 as int].ids(),
            final(self).table_seq()[id.0 as int].entity_seq() == old(self).table_seq()[id.0 as int].entity_seq().push(entity),
            r.0 == old(self).table_seq()[id.0 as int].entity_seq().len(),
    {
        let r = self.tables[id.0 as usize].allocate(entity);
        proof {
            self.lemma_kept(*old(self), set![id.0 as int]);
        }
        r
    }

    /// Removes `row` of table `id` by moving its last row into it; returns the moved entity.
    pub fn swap_remove(&mut self, id: TableId, row: TableRow) -> (r: Option<Entity>)
        requires
            old(self).wf(),
            id.0 < old(self).table_seq().len(),
            row.0 < old(self).table_seq()[id.0 as int].entity_seq().len(),
        ensures
            final(self).wf(),
            final(self).table_seq().len() == old(self).table_seq().len(),
            forall|t: int| 0 <= t < old(self).table_seq().len() && t != id.0 ==> #[trigger] final(self).table_seq()[t]
                == old(self).table_seq()[t],
            final(self).table_seq()[id.0 as int].ids() == old(self).table_seq()[id.0 as int].ids(),
            final(self).table_seq()[id.0 as int].entity_seq() == swap_removed(
                old(self).table_seq()[id.0 as int].entity_seq(),
                row.0 as int,
            ),
            r == (if row.0 == old(self).table_seq()[id.0 as int].entity_seq().len() - 1 {
                None
            } else {
                Some(old(self).table_seq()[id.0 as int].entity_seq().last())
            }),
    {
        let r = self.tables[id.0 as usize].swap_remove_unchecked(row);
        proof {
            self.lemma_kept(*old(self), set![id.0 as int]);
        }
        r
    }

    /// Moves `row` of table `src` into table `dst`, whose columns include all of `src`'s.
    pub fn move_to_superset(&mut self, src: TableId, dst: TableId, row: TableRow) -> (r: TableMoveResult)
        requires
            old(self).wf(),
            src.0 < old(self).table_seq().len(),
            dst.0 < old(self).table_seq().len(),
            src != dst,
            row.0 < old(self).table_seq()[src.0 as int].entity_seq().len(),
            old(self).table_seq()[dst.0 as int].entity_seq().len() < u32::MAX,
            forall|c: ComponentId| old(self).table_seq()[src.0 as int].ids().contains(c) ==> old(self).table_seq()[dst.0 as int].ids().contains(c),
        ensures
            final(self).wf(),
            final(self).table_seq().len() == old(self).table_seq().len(),
            forall|t: int| 0 <= t < old(self).table_seq().len() && t != src.0 && t != dst.0 ==> #[trigger] final(self).table_seq()[t]
                == old(self).table_seq()[t],
            final(self).table_seq()[src.0 as int].ids() == old(self).table_seq()[src.0 as int].ids(),
            final(self).table_seq()[dst.0 as int].ids() == old(self).table_seq()[dst.0 as int].ids(),
            final(self).table_seq()[src.0 as int].entity_seq() == swap_removed(
                old(self).table_seq()[src.0 as int].entity_seq(),
                row.0 as int,
            ),
            final(self).table_seq()[dst.0 as int].entity_seq() == old(self).table_seq()[dst.0 as int].entity_seq().push(
                old(self).table_seq()[src.0 as int].entity_seq()[row.0 as int],
            ),
            r.new_row.0 == old(self).table_seq()[dst.0 as int].entity_seq().len(),
            r.swapped_entity == (if row.0 == old(self).table_seq()[src.0 as int].entity_seq().len() - 1 {
                None
            } else {
                Some(old(self).table_seq()[src.0 as int].entity_seq().last())
            }),
    {
        let mut a = Table::empty_table();
        let mut b = Table::empty_table();
        self.tables.set_and_swap(src.0 as usize, &mut a);
        self.tables.set_and_swap(dst.0 as usize, &mut b);
        let r = a.move_to_superset_unchecked(row, &mut b);
        self.tables.set_and_swap(src.0 as usize, &mut a);
        self.tables.set_and_swap(dst.0 as usize, &mut b);
        proof {
            self.lemma_kept(*old(self), set![src.0 as int, dst.0 as int]);
        }
        r
    }

    /// Writes `data` for component `component_id` at `row` of table `id`: as a fresh value
    /// stamped added and changed, or as an overwrite stamped changed.
    pub fn write(&mut self, id: TableId, component_id: ComponentId, row: TableRow, data: Vec<u8>, tick: Tick, fresh: bool)
        requires
            old(self).wf(),
            id.0 < old(self).table_seq().len(),
            row.0 < old(self).table_seq()[id.0 as int].entity_seq().len(),
            old(self).table_seq()[id.0 as int].ids().contains(component_id),
        ensures
            final(self).wf(),
            final(self).table_seq().len() == old(self).table_seq().len(),
            forall|t: int| 0 <= t < old(self).table_seq().len() && t != id.0 ==> #[trigger] final(self).table_seq()[t]
                == old(self).table_seq()[t],
            final(self).table_seq()[id.0 as int].ids() == old(self).table_seq()[id.0 as int].ids(),
            final(self).table_seq()[id.0 as int].entity_seq() == old(self).table_seq()[id.0 as int].entity_seq(),
            final(self).table_seq()[id.0 as int].cell_for(component_id, row.0 as int) == (
                data@,
                if fresh { tick } else { old(self).table_seq()[id.0 as int].cell_for(component_id, row.0 as int).1 },
                tick,
            ),
            forall|c: ComponentId, r: int| 0 <= r < old(self).table_seq()[id.0 as int].entity_seq().len() && (c != component_id
                || r != row.0) ==> #[trigger] final(self).table_seq()[id.0 as int].cell_for(c, r)
                == old(self).table_seq()[id.0 as int].cell_for(c, r),
    {
        let t = id.0 as usize;
        let p = self.tables[t].column_position(component_id).unwrap();
        self.tables[t].write_at(p, row, data, tick, fresh);
        proof {
            self.lemma_kept(*old(self), set![id.0 as int]);
            let tb = self.tables@[id.0 as int];
            let ob = old(self).tables@[id.0 as int];
            let q = position_of(tb.ids(), component_id).unwrap();
            assert(tb.ids()[q] == component_id);
            assert(q == p as int);
            assert forall|c: ComponentId, r: int| 0 <= r < ob.entity_seq().len() && (c != component_id || r != row.0)
                implies #[trigger] tb.cell_for(c, r) == ob.cell_for(c, r) by {
                if tb.ids().contains(c) {
                    let qc = position_of(tb.ids(), c).unwrap();
                    if qc == p as int {
                        assert(c == component_id);
                    }
                }
            }
        }
    }

    /// Rebases every stamp of every table that has grown too old relative to `change_tick`.
    pub fn check_change_ticks(&mut self, change_tick: Tick)
        requires
            old(self).wf(),
        ensures
            final(self).wf(),
            final(self).table_seq().len() == old(self).table_seq().len(),
            forall|t: int| 0 <= t < old(self).table_seq().len() ==> (#[trigger] final(self).table_seq()[t]).entity_seq()
                == old(self).table_seq()[t].entity_seq() && final(self).table_seq()[t].ids() == old(self).table_seq()[t].ids(),
    {
        let n = self.tables.len();
        let mut t: usize = 0;
        while t < n
            invariant
                t <= n,
                n == self.tables@.len(),
                n == old(self).tables@.len(),
                self.table_ids == old(self).table_ids,
                forall|k: int| 0 <= k < n ==> (#[trigger] self.tables@[k]).wf() && self.tables@[k].entity_seq()
                    == old(self).tables@[k].entity_seq() && self.tables@[k].ids() == old(self).tables@[k].ids(),
            decreases n - t,
        {
            self.tables[t].check_change_ticks(change_tick);
            t = t + 1;
        }
        proof {
            let all = Set::new(|k: int| 0 <= k < n);
            self.lemma_kept(*old(self), all);
        }
    }
}

} // verus!
