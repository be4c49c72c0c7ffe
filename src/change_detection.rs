use vstd::prelude::*;

use crate::component::{spec_is_newer_than, Tick};

verus! {

/// How many world ticks may pass between two rebasing passes over all stored ticks.
pub const CHECK_TICK_THRESHOLD: u32 = 518_400_000;

/// The largest age a stored tick is allowed to reach before it is rebased.
pub const MAX_CHANGE_AGE: u32 = 3_258_167_296;

/// `MAX_CHANGE_AGE` is `u32::MAX - (2 * CHECK_TICK_THRESHOLD - 1)`.
pub proof fn lemma_max_change_age_value()
    ensures
        MAX_CHANGE_AGE as int == u32::MAX as int - (2 * CHECK_TICK_THRESHOLD as int - 1),
{
}

/// The stamps of one value as a reader sees them: when it was added and last changed, and the
/// reader's last and current run.
#[derive(Clone, Copy, Debug, PartialEq, Eq, Structural)]
pub struct Ticks {
    pub added: Tick,
    pub changed: Tick,
    pub last_run: Tick,
    pub this_run: Tick,
}

/// The stamps of one value as a writer sees them.
#[derive(Clone, Copy, Debug, PartialEq, Eq, Structural)]
pub struct TicksMut {
    pub added: Tick,
    pub changed: Tick,
    pub last_run: Tick,
    pub this_run: Tick,
}

impl Ticks {
    /// The reader's view of a writer's stamps.
    pub fn from_mut(ticks: TicksMut) -> (r: Ticks)
        ensures
            r.added == ticks.added,
            r.changed == ticks.changed,
            r.last_run == ticks.last_run,
            r.this_run == ticks.this_run,
    {
        Ticks { added: ticks.added, changed: ticks.changed, last_run: ticks.last_run, this_run: ticks.this_run }
    }
}

/// Change queries on a value with stamps.
pub trait DetectChanges {
    spec fn spec_ticks(&self) -> Ticks;

    /// Whether the value was added since the reader last ran.
    fn is_added(&self) -> (r: bool)
        ensures
            r == spec_is_newer_than(self.spec_ticks().added.tick, self.spec_ticks().last_run.tick, self.spec_ticks().this_run.tick),
    ;

    /// Whether the value was changed since the reader last ran.
    fn is_changed(&self) -> (r: bool)
        ensures
            r == spec_is_newer_than(self.spec_ticks().changed.tick, self.spec_ticks().last_run.tick, self.spec_ticks().this_run.tick),
    ;

    /// When the value last changed.
    fn last_changed(&self) -> (r: Tick)
        ensures
            r == self.spec_ticks().changed,
    ;
}

/// Change updates on a value with stamps.
pub trait DetectChangesMut: DetectChanges {
    /// Marks the value changed now.
    fn set_changed(&mut self)
        ensures
            final(self).spec_ticks().changed == old(self).spec_ticks().this_run,
            final(self).spec_ticks().added == old(self).spec_ticks().added,
    ;

    /// Sets the tick the value last changed at.
    fn set_last_changed(&mut self, last_changed: Tick)
        ensures
            final(self).spec_ticks().changed == last_changed,
            final(self).spec_ticks().added == old(self).spec_ticks().added,
    ;
}

/// A shared reference to a resource value, with its stamps.
pub struct Res<'w, T> {
    pub value: &'w T,
    pub ticks: Ticks,
}

/// An exclusive reference to a resource value, with its stamps.
pub struct ResMut<'w, T> {
    pub value: &'w mut T,
    pub ticks: TicksMut,
}

/// An exclusive reference to a component value, with its stamps.
pub struct Mut<'w, T> {
    pub value: &'w mut T,
    pub ticks: TicksMut,
}

/// An exclusive reference to a value that must stay on one thread, with its stamps.
pub struct NonSendMut<'w, T> {
    pub value: &'w mut T,
    pub ticks: TicksMut,
}

impl<'w, T> Res<'w, T> {
    /// Another handle to the same value with the same stamps.
    pub fn clone(this: &Res<'w, T>) -> (r: Res<'w, T>)
        ensures
            r.value == this.value,
            r.ticks == this.ticks,
    {
        Res { value: this.value, ticks: this.ticks }
    }

    /// The value, without the stamps.
    pub fn into_inner(self) -> (r: &'w T)
        ensures
            r == self.value,
    {
        self.value
    }
}

impl<'w, T> DetectChanges for Res<'w, T> {
    open spec fn spec_ticks(&self) -> Ticks {
        self.ticks
    }

    fn is_added(&self) -> (r: bool) {
        self.ticks.added.is_newer_than(self.ticks.last_run, self.ticks.this_run)
    }

    fn is_changed(&self) -> (r: bool) {
        self.ticks.changed.is_newer_than(self.ticks.last_run, self.ticks.this_run)
    }

    fn last_changed(&self) -> (r: Tick) {
        self.ticks.changed
    }
}

impl<'w, T> DetectChanges for ResMut<'w, T> {
    open spec fn spec_ticks(&self) -> Ticks {
        Ticks { added: self.ticks.added, changed: self.ticks.changed, last_run: self.ticks.last_run, this_run: self.ticks.this_run }
    }

    fn is_added(&self) -> (r: bool) {
        self.ticks.added.is_newer_than(self.ticks.last_run, self.ticks.this_run)
    }

    fn is_changed(&self) -> (r: bool) {
        self.ticks.changed.is_newer_than(self.ticks.last_run, self.ticks.this_run)
    }

    fn last_changed(&self) -> (r: Tick) {
        self.ticks.changed
    }
}

impl<'w, T> DetectChangesMut for ResMut<'w, T> {
    fn set_changed(&mut self) {
        self.ticks.changed = self.ticks.this_run;
    }

    fn set_last_changed(&mut self, last_changed: Tick) {
        self.ticks.changed = last_changed;
    }
}

} // verus!
