use vstd::prelude::*;

use crate::blob_vec::Layout;
use crate::change_detection::MAX_CHANGE_AGE;

verus! {

/// Where the values of one component type are kept.
#[derive(Debug, Clone, Copy, PartialEq, Eq, Structural)]
pub enum StorageType {
    Table,
    SparseSet,
}

impl StorageType {
    /// The storage kind used when a component does not ask for another one.
    pub fn default_kind() -> (r: StorageType)
        ensures
            r == StorageType::Table,
    {
        StorageType::Table
    }
}

/// Stable handle to a registered component type.
#[derive(Debug, Clone, Copy, Hash, PartialEq, Eq, Structural, PartialOrd, Ord)]
pub struct ComponentId(pub usize);

impl ComponentId {
    pub fn new(index: usize) -> (r: ComponentId)
        ensures
            r.0 == index,
    {
        ComponentId(index)
    }

    pub fn index(&self) -> (r: usize)
        ensures
            r == self.0,
    {
        self.0
    }
}

/// The age `now - then` of a stamp, computed on the 32-bit circle.
pub open spec fn tick_age(now: u32, then: u32) -> int {
    if now >= then {
        now - then
    } else {
        now - then + 0x1_0000_0000
    }
}

/// An age clamped to the largest age that comparisons distinguish.
pub open spec fn clamp_age(age: int) -> int {
    if age > MAX_CHANGE_AGE {
        MAX_CHANGE_AGE as int
    } else {
        age
    }
}

/// A wrapping logical write timestamp.
#[derive(Debug, Clone, Copy, PartialEq, Eq, Structural)]
pub struct Tick {
    pub tick: u32,
}

/// Whether a stamp written at `tick` counts as newer than the reader's last run.
pub open spec fn spec_is_newer_than(tick: u32, last_run: u32, this_run: u32) -> bool {
    clamp_age(tick_age(this_run, last_run)) > clamp_age(tick_age(this_run, tick))
}

impl Tick {
    pub fn new(tick: u32) -> (r: Tick)
        ensures
            r.tick == tick,
    {
        Tick { tick }
    }

    pub fn get(self) -> (r: u32)
        ensures
            r == self.tick,
    {
        self.tick
    }

    pub fn set(&mut self, tick: u32)
        ensures
            final(self).tick == tick,
    {
        self.tick = tick;
    }

    /// True iff this stamp was written more recently than `last_run`, both seen from `this_run`.
    pub fn is_newer_than(self, last_run: Tick, this_run: Tick) -> (r: bool)
        ensures
            r == spec_is_newer_than(self.tick, last_run.tick, this_run.tick),
    {
        let since_insert = this_run.relative_to(self).tick;
        let since_insert = if since_insert > MAX_CHANGE_AGE { MAX_CHANGE_AGE } else { since_insert };
        let since_system = this_run.relative_to(last_run).tick;
        let since_system = if since_system > MAX_CHANGE_AGE { MAX_CHANGE_AGE } else { since_system };
        since_system > since_insert
    }

    /// The wrapping difference `self - other`.
    pub fn relative_to(self, other: Tick) -> (r: Tick)
        ensures
            r.tick == tick_age(self.tick, other.tick),
    {
        Tick { tick: self.tick.wrapping_sub(other.tick) }
    }

    /// Rebases this stamp when it has grown older than `MAX_CHANGE_AGE` relative to `tick`.
    pub fn check_tick(&mut self, tick: Tick) -> (r: bool)
        ensures
            r == (tick_age(tick.tick, old(self).tick) > MAX_CHANGE_AGE),
            r ==> final(self).tick == tick_age(tick.tick, MAX_CHANGE_AGE),
            r ==> tick_age(tick.tick, final(self).tick) == MAX_CHANGE_AGE,
            !r ==> *final(self) == *old(self),
    {
        let age = tick.relative_to(*self);
        let max = Tick::new(MAX_CHANGE_AGE);
        if age.get() > max.get() {
            *self = tick.relative_to(max);
            true
        } else {
            false
        }
    }
}

/// The pair of stamps kept for every stored component value.
#[derive(Debug, Clone, Copy, PartialEq, Eq, Structural)]
pub struct ComponentTicks {
    pub added: Tick,
    pub changed: Tick,
}

impl ComponentTicks {
    pub fn new(change_tick: Tick) -> (r: ComponentTicks)
        ensures
            r.added == change_tick,
            r.changed == change_tick,
    {
        ComponentTicks { added: change_tick, changed: change_tick }
    }

    pub fn is_added(&self, last_run: Tick, this_run: Tick) -> (r: bool)
        ensures
            r == spec_is_newer_than(self.added.tick, last_run.tick, this_run.tick),
    {
        self.added.is_newer_than(last_run, this_run)
    }

    pub fn is_changed(&self, last_run: Tick, this_run: Tick) -> (r: bool)
        ensures
            r == spec_is_newer_than(self.changed.tick, last_run.tick, this_run.tick),
    {
        self.changed.is_newer_than(last_run, this_run)
    }

    pub fn set_changed(&mut self, change_tick: Tick)
        ensures
            final(self).changed == change_tick,
            final(self).added == old(self).added,
    {
        self.changed = change_tick;
    }
}

/// Marks the storage kinds below; nothing else implements it.
pub trait Sealed {}

/// A storage kind, chosen per component type.
pub trait ComponentStorage: Sealed {
    spec fn spec_storage_type() -> StorageType;

    fn storage_type() -> (r: StorageType)
        ensures
            r == Self::spec_storage_type(),
    ;
}

/// Dense storage: one table column per component type.
pub struct TableStorage;

/// Point storage: one entity-keyed sparse set per component type.
pub struct SparseStorage;

impl Sealed for TableStorage {}

impl Sealed for SparseStorage {}

impl ComponentStorage for TableStorage {
    open spec fn spec_storage_type() -> StorageType {
        StorageType::Table
    }

    fn storage_type() -> (r: StorageType) {
        StorageType::Table
    }
}

impl ComponentStorage for SparseStorage {
    open spec fn spec_storage_type() -> StorageType {
        StorageType::SparseSet
    }

    fn storage_type() -> (r: StorageType) {
        StorageType::SparseSet
    }
}

/// A type whose values can be attached to entities.
pub trait Component {
    type Storage: ComponentStorage;
}

/// Relies on `std::mem::needs_drop`: whether dropping a `T` runs code.
#[verifier::external_body]
fn needs_drop_of<T>() -> bool {
    std::mem::needs_drop::<T>()
}

/// What the storage needs to know of one component type.
pub struct ComponentDescriptor {
    pub name: &'static str,
    pub storage_type: StorageType,
    pub is_send_and_sync: bool,
    pub layout: Layout,
    pub needs_drop: bool,
}

impl ComponentDescriptor {
    /// The descriptor of component type `T`, shown under `name`.
    pub fn new<T: Component>(name: &'static str) -> (r: ComponentDescriptor)
        ensures
            r.name == name,
            r.storage_type == T::Storage::spec_storage_type(),
            r.is_send_and_sync,
            r.layout.size == vstd::layout::size_of::<T>(),
            r.layout.align == vstd::layout::align_of::<T>(),
    {
        ComponentDescriptor {
            name,
            storage_type: T::Storage::storage_type(),
            is_send_and_sync: true,
            layout: Layout::new::<T>(),
            needs_drop: needs_drop_of::<T>(),
        }
    }

    /// The descriptor of a type known only by its layout.
    pub fn new_with_layout(name: &'static str, storage_type: StorageType, layout: Layout, needs_drop: bool) -> (r:
        ComponentDescriptor)
        ensures
            r.name == name,
            r.storage_type == storage_type,
            r.is_send_and_sync,
            r.layout == layout,
            r.needs_drop == needs_drop,
    {
        ComponentDescriptor { name, storage_type, is_send_and_sync: true, layout, needs_drop }
    }

    /// The descriptor of a resource type `T`, kept in table storage.
    pub fn new_resource<T>(name: &'static str) -> (r: ComponentDescriptor)
        ensures
            r.name == name,
            r.storage_type == StorageType::Table,
            r.is_send_and_sync,
            r.layout.size == vstd::layout::size_of::<T>(),
            r.layout.align == vstd::layout::align_of::<T>(),
    {
        ComponentDescriptor {
            name,
            storage_type: StorageType::Table,
            is_send_and_sync: true,
            layout: Layout::new::<T>(),
            needs_drop: needs_drop_of::<T>(),
        }
    }

    /// The descriptor of a type that must stay on one thread.
    pub fn new_no_send<T>(name: &'static str, storage_type: StorageType) -> (r: ComponentDescriptor)
        ensures
            r.name == name,
            r.storage_type == storage_type,
            !r.is_send_and_sync,
            r.layout.size == vstd::layout::size_of::<T>(),
            r.layout.align == vstd::layout::align_of::<T>(),
    {
        ComponentDescriptor {
            name,
            storage_type,
            is_send_and_sync: false,
            layout: Layout::new::<T>(),
            needs_drop: needs_drop_of::<T>(),
        }
    }

    pub fn storage_type(&self) -> (r: StorageType)
        ensures
            r == self.storage_type,
    {
        self.storage_type
    }

    pub fn name(&self) -> (r: &str)
        ensures
            r == self.name,
    {
        self.name
    }
}

/// A registered component type: its id and descriptor.
pub struct ComponentInfo {
    pub id: ComponentId,
    pub descriptor: ComponentDescriptor,
}

impl ComponentInfo {
    pub fn new(id: ComponentId, descriptor: ComponentDescriptor) -> (r: ComponentInfo)
        ensures
            r.id == id,
            r.descriptor == descriptor,
    {
        ComponentInfo { id, descriptor }
    }

    pub fn id(&self) -> (r: ComponentId)
        ensures
            r == self.id,
    {
        self.id
    }

    pub fn name(&self) -> (r: &str)
        ensures
            r == self.descriptor.name,
    {
        self.descriptor.name
    }

    pub fn layout(&self) -> (r: Layout)
        ensures
            r == self.descriptor.layout,
    {
        self.descriptor.layout
    }

    /// Whether stored values need their destructor run when removed.
    pub fn drop(&self) -> (r: bool)
        ensures
            r == self.descriptor.needs_drop,
    {
        self.descriptor.needs_drop
    }

    pub fn storage_type(&self) -> (r: StorageType)
        ensures
            r == self.descriptor.storage_type,
    {
        self.descriptor.storage_type
    }

    pub fn is_send_and_sync(&self) -> (r: bool)
        ensures
            r == self.descriptor.is_send_and_sync,
    {
        self.descriptor.is_send_and_sync
    }
}

/// The id of component type `T`, carried with its type.
pub struct ComponentIdFor<T> {
    component_id: ComponentId,
    phantom: core::marker::PhantomData<T>,
}

impl<T> ComponentIdFor<T> {
    pub closed spec fn spec_id(&self) -> ComponentId {
        self.component_id
    }

    pub fn new(component_id: ComponentId) -> (r: ComponentIdFor<T>)
        ensures
            r.spec_id() == component_id,
    {
        ComponentIdFor { component_id, phantom: core::marker::PhantomData }
    }

    pub fn component_id(&self) -> (r: ComponentId)
        ensures
            r == self.spec_id(),
    {
        self.component_id
    }
}

/// The registry of component types: the info of each, indexed by its id.
pub struct Components {
    components: Vec<ComponentInfo>,
}

impl Components {
    /// The info of each registered component type, by id.
    pub closed spec fn infos(&self) -> Seq<ComponentInfo> {
        self.components@
    }

    pub open spec fn wf(&self) -> bool {
        forall|i: int| 0 <= i < self.infos().len() ==> (#[trigger] self.infos()[i]).id.0 == i
    }

    pub fn new() -> (r: Components)
        ensures
            r.wf(),
            r.infos().len() == 0,
    {
        Components { components: Vec::new() }
    }

    /// Registers a component type; its id is the next free index.
    pub fn init_component_with_descriptor(&mut self, descriptor: ComponentDescriptor) -> (r: ComponentId)
        requires
            old(self).wf(),
        ensures
            final(self).wf(),
            r.0 == old(self).infos().len(),
            final(self).infos() == old(self).infos().push(ComponentInfo { id: r, descriptor }),
    {
        let id = ComponentId(self.components.len());
        self.components.push(ComponentInfo { id, descriptor });
        id
    }

    pub fn len(&self) -> (r: usize)
        ensures
            r == self.infos().len(),
    {
        self.components.len()
    }

    pub fn is_empty(&self) -> (r: bool)
        ensures
            r == (self.infos().len() == 0),
    {
        self.components.len() == 0
    }

    pub fn get_info(&self, id: ComponentId) -> (r: Option<&ComponentInfo>)
        ensures
            r == (if id.0 < self.infos().len() {
                Some(&self.infos()[id.0 as int])
            } else {
                None
            }),
    {
        if id.0 < self.components.len() {
            Some(&self.components[id.0])
        } else {
            None
        }
    }

    pub fn get_name(&self, id: ComponentId) -> (r: Option<&str>)
        ensures
            r == (if id.0 < self.infos().len() {
                Some(self.infos()[id.0 as int].descriptor.name)
            } else {
                None
            }),
    {
        if id.0 < self.components.len() {
            Some(self.components[id.0].descriptor.name)
        } else {
            None
        }
    }

    /// The info of every registered type, by id.
    pub fn iter(&self) -> (r: &[ComponentInfo])
        ensures
            r@ == self.infos(),
    {
        self.components.as_slice()
    }
}

/// A stamp is not newer than a reader that last ran, and runs now, at the stamp's own tick; a
/// stamp written after the reader's last run (both seen from the current tick, on the 32-bit
/// circle, so across wrapping too) is newer.
pub proof fn lemma_tick_comparison(tick: u32, last_run: u32, this_run: u32)
    ensures
        !spec_is_newer_than(tick, tick, tick),
        tick_age(this_run, tick) < tick_age(this_run, last_run) <= MAX_CHANGE_AGE ==> spec_is_newer_than(
            tick,
            last_run,
            this_run,
        ),
        spec_is_newer_than(tick, last_run, this_run) ==> tick_age(this_run, tick) < tick_age(this_run, last_run),
{
}

} // verus!
