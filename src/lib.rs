//! An archetype-based entity/component storage engine with verified contracts: an entity id
//! allocator with generation recycling, layout-described columns, tables and sparse stores, the
//! archetype graph with cached transitions, the bundle spawn/insert/despawn engine that keeps
//! every entity's location record in step with its storage, the wrapping change clock, and the
//! read/write access-conflict analysis.

pub mod access;
pub mod archetype;
pub mod blob_vec;
pub mod bundle;
pub mod change_detection;
pub mod component;
pub mod entity;
pub mod signature;
pub mod sparse_set;
pub mod table;
pub mod world;

use vstd::prelude::*;

verus! {

/// Relies on `Vec::capacity`: the capacity is never below the length.
#[verifier::external_body]
pub(crate) fn vec_capacity<T>(v: &Vec<T>) -> (r: usize)
    ensures
        r >= v@.len(),
{
    v.capacity()
}

} // verus!
