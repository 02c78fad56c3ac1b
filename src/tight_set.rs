//! A hash set of identities that gives back its memory as it empties.

use vstd::prelude::*;
use fnv::FnvHashSet;
use std::collections::HashSet;
use crate::util::HbId;

verus! {

/// fnv's hasher, which the set's type names; held opaque.
#[verifier::external_type_specification]
#[verifier::external_body]
pub struct ExFnvHasher(fnv::FnvHasher);

/// std's builder of default hashers, which the set's type names; held opaque.
#[verifier::external_type_specification]
#[verifier::external_body]
#[verifier::reject_recursive_types(H)]
pub struct ExBuildHasherDefault<H>(std::hash::BuildHasherDefault<H>);

/// Capacity below which the set never shrinks.
const MIN_TIGHT_SET_CAPACITY: usize = 4;

/// Relies on `HashSet::with_capacity_and_hasher`: a new set is empty.
#[verifier::external_body]
fn fnv_set_with_capacity(capacity: usize) -> (r: FnvHashSet<HbId>)
    ensures
        r@ == Set::<HbId>::empty(),
{
    HashSet::with_capacity_and_hasher(capacity, Default::default())
}

/// Relies on `HashSet::insert`: adds the value, and says whether it was new.
#[verifier::external_body]
fn fnv_set_insert(s: &mut FnvHashSet<HbId>, value: HbId) -> (r: bool)
    ensures
        final(s)@ == old(s)@.insert(value),
        r == !old(s)@.contains(value),
{
    s.insert(value)
}

/// Relies on `HashSet::contains`.
#[verifier::external_body]
fn fnv_set_contains(s: &FnvHashSet<HbId>, value: &HbId) -> (r: bool)
    ensures
        r == s@.contains(*value),
{
    s.contains(value)
}

/// Relies on `HashSet::remove`: takes the value out, and says whether it was
/// there.
#[verifier::external_body]
fn fnv_set_remove(s: &mut FnvHashSet<HbId>, value: &HbId) -> (r: bool)
    ensures
        final(s)@ == old(s)@.remove(*value),
        r == old(s)@.contains(*value),
{
    s.remove(value)
}

/// Relies on `HashSet::len`: the number of values.
#[verifier::external_body]
fn fnv_set_len(s: &FnvHashSet<HbId>) -> (r: usize)
    ensures
        r == s@.len(),
{
    s.len()
}

/// Relies on `HashSet::capacity`: never below the number of values. The
/// exact figure is up to the allocator.
#[verifier::external_body]
fn fnv_set_capacity(s: &FnvHashSet<HbId>) -> (r: usize)
    ensures
        r >= s@.len(),
{
    s.capacity()
}

/// Relies on `HashSet::shrink_to_fit`: the values stay.
#[verifier::external_body]
fn fnv_set_shrink_to_fit(s: &mut FnvHashSet<HbId>)
    ensures
        final(s)@ == old(s)@,
{
    s.shrink_to_fit()
}

/// Relies on `HashSet::iter`: each value once, in an order that the set
/// chooses.
#[verifier::external_body]
fn fnv_set_values(s: &FnvHashSet<HbId>) -> (r: Vec<HbId>)
    ensures
        r@.to_set() == s@,
        r@.no_duplicates(),
{
    s.iter().copied().collect()
}

/// Relies on `HashSet::drain`: each value once, leaving the set empty.
#[verifier::external_body]
fn fnv_set_drain(s: &mut FnvHashSet<HbId>) -> (r: Vec<HbId>)
    ensures
        r@.to_set() == old(s)@,
        r@.no_duplicates(),
        final(s)@ == Set::<HbId>::empty(),
{
    s.drain().collect()
}

/// A set of identities that shrinks its storage when it falls below a
/// quarter full, but not below a small floor.
pub struct TightSet {
    set: FnvHashSet<HbId>,
}

impl View for TightSet {
    type V = Set<HbId>;

    closed spec fn view(&self) -> Set<HbId> {
        self.set@
    }
}

impl TightSet {
    /// An empty set.
    pub fn new() -> (r: TightSet)
        ensures
            r@ == Set::<HbId>::empty(),
    {
        TightSet { set: fnv_set_with_capacity(MIN_TIGHT_SET_CAPACITY) }
    }

    /// Adds `value`; true when it was not there.
    pub fn insert(&mut self, value: HbId) -> (r: bool)
        ensures
            final(self)@ == old(self)@.insert(value),
            r == !old(self)@.contains(value),
    {
        fnv_set_insert(&mut self.set, value)
    }

    /// Whether `value` is in the set.
    pub fn contains(&self, value: &HbId) -> (r: bool)
        ensures
            r == self@.contains(*value),
    {
        fnv_set_contains(&self.set, value)
    }

    /// Removes `value`; true when it was there. Storage shrinks when the set
    /// is at most a quarter full and above the floor.
    pub fn remove(&mut self, value: &HbId) -> (r: bool)
        ensures
            final(self)@ == old(self)@.remove(*value),
            r == old(self)@.contains(*value),
    {
        let success = fnv_set_remove(&mut self.set, value);
        if success {
            let capacity = fnv_set_capacity(&self.set);
            let len = fnv_set_len(&self.set);
            if capacity > MIN_TIGHT_SET_CAPACITY && len <= capacity / 4 {
                fnv_set_shrink_to_fit(&mut self.set);
            }
        }
        success
    }

    /// The values, each once.
    pub fn iter(&self) -> (r: Vec<HbId>)
        ensures
            r@.to_set() == self@,
            r@.no_duplicates(),
    {
        fnv_set_values(&self.set)
    }

    /// Takes all values out, each once.
    pub fn drain(&mut self) -> (r: Vec<HbId>)
        ensures
            r@.to_set() == old(self)@,
            r@.no_duplicates(),
            final(self)@ == Set::<HbId>::empty(),
    {
        fnv_set_drain(&mut self.set)
    }

    /// Whether the set is empty.
    pub fn is_empty(&self) -> (r: bool)
        ensures
            r == (self@ == Set::<HbId>::empty()),
    {
        let r = self.set.is_empty();
        proof {
            if r {
                assert(self.set@ =~= Set::<HbId>::empty());
            }
        }
        r
    }

    /// Removes all values, giving back storage above the floor.
    pub fn clear(&mut self)
        ensures
            final(self)@ == Set::<HbId>::empty(),
    {
        if fnv_set_capacity(&self.set) <= MIN_TIGHT_SET_CAPACITY {
            self.set.clear();
        } else {
            self.set = fnv_set_with_capacity(MIN_TIGHT_SET_CAPACITY);
        }
    }
}

} // verus!
