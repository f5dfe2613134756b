//! The storage that the profiler keeps for each live span, by span id.

use vstd::prelude::*;
use std::collections::HashMap;
use crate::error::TraceError;

verus! {

/// A table from the ids of live spans to what is stored for each.
#[verifier::reject_recursive_types(T)]
pub struct SpanStorage<T> {
    slots: HashMap<u64, T>,
}

impl<T> View for SpanStorage<T> {
    type V = Map<u64, T>;

    closed spec fn view(&self) -> Map<u64, T> {
        self.slots@
    }
}

impl<T> SpanStorage<T> {
    /// A table with nothing stored.
    pub fn new() -> (r: Self)
        ensures
            r@ == Map::<u64, T>::empty(),
    {
        SpanStorage { slots: HashMap::new() }
    }

    /// Whether anything is stored for `id`.
    pub fn contains(&self, id: u64) -> (b: bool)
        ensures
            b == self@.dom().contains(id),
    {
        self.slots.contains_key(&id)
    }

    /// What is stored for `id`.
    pub fn get(&self, id: u64) -> (r: Option<&T>)
        ensures
            r == (if self@.dom().contains(id) {
                Some(&self@[id])
            } else {
                None
            }),
    {
        self.slots.get(&id)
    }

    /// Takes out what is stored for `id`, if anything.
    pub fn remove(&mut self, id: u64) -> (r: Option<T>)
        ensures
            r == (if old(self)@.dom().contains(id) {
                Some(old(self)@[id])
            } else {
                None
            }),
            final(self)@ == old(self)@.remove(id),
    {
        self.slots.remove(&id)
    }

    /// The number of spans that something is stored for.
    pub fn len(&self) -> (n: usize)
        ensures
            n == self@.dom().len(),
    {
        self.slots.len()
    }
}

/// Stores `storage` for the span `id`, in place of what was stored before.
pub fn insert_to_span_storage<T>(table: &mut SpanStorage<T>, id: u64, storage: T)
    ensures
        final(table)@ == old(table)@.insert(id, storage),
{
    table.slots.insert(id, storage);
}

/// Replaces what is stored for the span `id` by what `f` makes of it. Where
/// nothing is stored for `id`, the table stays as it is and the error says so.
pub fn with_span_storage_mut<T, F: FnOnce(T) -> T>(table: &mut SpanStorage<T>, id: u64, f: F) -> (r:
    Result<(), TraceError>)
    requires
        old(table)@.dom().contains(id) ==> call_requires(f, (old(table)@[id],)),
    ensures
        match r {
            Ok(_) => old(table)@.dom().contains(id) && final(table)@.dom() == old(table)@.dom()
                && call_ensures(f, (old(table)@[id],), final(table)@[id]) && final(table)@
                == old(table)@.insert(id, final(table)@[id]),
            Err(e) => e == TraceError::SpanNotFound && !old(table)@.dom().contains(id)
                && final(table)@ == old(table)@,
        },
{
    match table.slots.remove(&id) {
        Some(storage) => {
            let changed = f(storage);
            table.slots.insert(id, changed);
            assert(table@ =~= old(table)@.insert(id, changed));
            assert(table@.dom() =~= old(table)@.dom());
            Ok(())
        },
        None => {
            assert(table@ =~= old(table)@);
            Err(TraceError::SpanNotFound)
        },
    }
}

/// What `f` reads out of the storage of the span `id`. Where nothing is stored
/// for `id`, the error says so.
pub fn with_span_storage<T, R, F: FnOnce(&T) -> R>(table: &SpanStorage<T>, id: u64, f: F) -> (r:
    Result<R, TraceError>)
    requires
        table@.dom().contains(id) ==> call_requires(f, (&table@[id],)),
    ensures
        match r {
            Ok(value) => table@.dom().contains(id) && call_ensures(f, (&table@[id],), value),
            Err(e) => e == TraceError::SpanNotFound && !table@.dom().contains(id),
        },
{
    match table.slots.get(&id) {
        Some(storage) => Ok(f(storage)),
        None => Err(TraceError::SpanNotFound),
    }
}

} // verus!
