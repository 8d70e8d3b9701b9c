//! Monotonic counters: the next value of a named counter.

use vstd::prelude::*;

use crate::tables::{Counter, Fault, Store, StoreView};
use crate::text::same_text;

verus! {

/// Why a counter gave no value.
#[derive(Debug)]
pub enum SequenceError {
    /// The store has no counter of the name: it has been tampered with or was
    /// restored in part.
    Missing(&'static str),
    /// The counter cannot count on.
    Sqlite(Fault),
}

impl Counter {
    /// The name of the counter.
    pub open spec fn label(self) -> &'static str {
        match self {
            Counter::ItemCreated => "item_created_seq",
            Counter::Display => "display_seq",
            Counter::Mutation => "mutation_seq",
        }
    }

    /// The name of the counter.
    pub fn text(self) -> (r: &'static str)
        ensures
            r == self.label(),
    {
        match self {
            Counter::ItemCreated => "item_created_seq",
            Counter::Display => "display_seq",
            Counter::Mutation => "mutation_seq",
        }
    }
}

/// The value that a counter gives next.
pub open spec fn next_of(v: StoreView, counter: Counter) -> Result<int, SequenceError> {
    match v.counter(counter) {
        None => Err(SequenceError::Missing(counter.label())),
        Some(value) => if value == i64::MAX {
            Err(SequenceError::Sqlite(Fault::Overflow))
        } else {
            Ok(value + 1)
        },
    }
}

/// The value that a counter gives next; the counter stays.
pub(crate) fn peek(store: &Store, counter: Counter) -> (r: Result<i64, SequenceError>)
    ensures
        match r {
            Ok(value) => next_of(store@, counter) == Ok::<int, SequenceError>(value as int),
            Err(error) => next_of(store@, counter) == Err::<int, SequenceError>(error),
        },
{
    match store.counter(counter) {
        None => Err(SequenceError::Missing(counter.text())),
        Some(value) => {
            if value == i64::MAX {
                Err(SequenceError::Sqlite(Fault::Overflow))
            } else {
                Ok(value + 1)
            }
        },
    }
}

/// The counter of a name, if there is one.
pub open spec fn counter_named(name: Seq<char>) -> Option<Counter> {
    if name == "item_created_seq"@ {
        Some(Counter::ItemCreated)
    } else if name == "display_seq"@ {
        Some(Counter::Display)
    } else if name == "mutation_seq"@ {
        Some(Counter::Mutation)
    } else {
        None
    }
}

/// Increment the named counter and return the new value.
pub fn next(store: &mut Store, name: &'static str) -> (r: Result<i64, SequenceError>)
    requires
        old(store).wf(),
    ensures
        final(store).wf(),
        match (counter_named(name@), r) {
            (Some(counter), Ok(value)) => {
                &&& old(store)@.counter(counter) == Some(value - 1)
                &&& final(store)@ == old(store)@.with_counter(counter, Some(value as int))
            },
            (Some(counter), Err(SequenceError::Missing(missing))) => {
                &&& old(store)@.counter(counter) is None
                &&& missing == name
                &&& final(store)@ == old(store)@
            },
            (Some(counter), Err(SequenceError::Sqlite(fault))) => {
                &&& old(store)@.counter(counter) == Some(i64::MAX as int)
                &&& fault == Fault::Overflow
                &&& final(store)@ == old(store)@
            },
            (None, Err(SequenceError::Missing(missing))) => missing == name && final(store)@
                == old(store)@,
            (None, _) => false,
        },
{
    let counter = if same_text(name, "item_created_seq") {
        Counter::ItemCreated
    } else if same_text(name, "display_seq") {
        Counter::Display
    } else if same_text(name, "mutation_seq") {
        Counter::Mutation
    } else {
        return Err(SequenceError::Missing(name));
    };
    match store.counter(counter) {
        None => Err(SequenceError::Missing(name)),
        Some(value) => {
            if value == i64::MAX {
                Err(SequenceError::Sqlite(Fault::Overflow))
            } else {
                store.set_counter(counter, Some(value + 1));
                Ok(value + 1)
            }
        },
    }
}

/// A counter counts up by one, and no other counter moves.
pub proof fn law_counters_are_independent(v: StoreView, counter: Counter, other: Counter, value: int)
    requires
        next_of(v, counter) == Ok::<int, SequenceError>(value),
        other != counter,
    ensures
        v.counter(counter) == Some(value - 1),
        v.with_counter(counter, Some(value)).counter(counter) == Some(value),
        v.with_counter(counter, Some(value)).counter(other) == v.counter(other),
{
}

} // verus!
