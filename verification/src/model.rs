//! The buffer as a mathematical object: a capacity and the sequence of stored
//! elements, oldest first. Each operation is a function on that pair. Two
//! further functions name what the operations do to the slots themselves.

use crate::error::Error;
use vstd::prelude::*;

verus! {

/// The slot that follows slot `index` in a ring of `capacity` slots: the next
/// one, and the first one after the last.
pub open spec fn next_slot(index: nat, capacity: nat) -> nat {
    ((index as int + 1) % (capacity as int)) as nat
}

/// `capacity` slots that hold nothing.
pub open spec fn empty_slots<T>(capacity: nat) -> Seq<Option<T>> {
    Seq::new(capacity, |i: int| None)
}

/// What `write(element)` reports on a buffer of `capacity` slots that holds
/// `items`. A full buffer hands the element back with the error.
pub open spec fn write_outcome<T>(capacity: nat, items: Seq<T>, element: T) -> Result<
    (),
    (Error, T),
> {
    if items.len() < capacity {
        Ok(())
    } else {
        Err((Error::FullBuffer, element))
    }
}

/// The stored elements after `write(element)`: the element goes last where a
/// slot is free, and nothing changes where none is.
pub open spec fn after_write<T>(capacity: nat, items: Seq<T>, element: T) -> Seq<T> {
    if items.len() < capacity {
        items.push(element)
    } else {
        items
    }
}

/// What `read` reports on a buffer that holds `items`: the oldest element.
pub open spec fn read_outcome<T>(items: Seq<T>) -> Result<T, Error> {
    if items.len() > 0 {
        Ok(items[0])
    } else {
        Err(Error::EmptyBuffer)
    }
}

/// The stored elements after `read`: the oldest one is gone.
pub open spec fn after_read<T>(items: Seq<T>) -> Seq<T> {
    if items.len() > 0 {
        items.drop_first()
    } else {
        items
    }
}

/// The stored elements after `overwrite(element)`.
///
/// With a free slot this is a write. On a full buffer the oldest element makes
/// room for the new one. A buffer without slots stays empty.
pub open spec fn after_overwrite<T>(capacity: nat, items: Seq<T>, element: T) -> Seq<T> {
    if items.len() < capacity {
        items.push(element)
    } else if items.len() > 0 {
        items.drop_first().push(element)
    } else {
        items
    }
}

/// The stored elements after `clear`: none, whatever was stored.
pub open spec fn after_clear<T>(items: Seq<T>) -> Seq<T> {
    Seq::empty()
}

/// The stored elements after one `write` for each of `elements`, in order.
pub open spec fn after_writes<T>(capacity: nat, items: Seq<T>, elements: Seq<T>) -> Seq<T>
    decreases elements.len(),
{
    if elements.len() == 0 {
        items
    } else {
        after_writes(
            capacity,
            after_write(capacity, items, elements[0]),
            elements.drop_first(),
        )
    }
}

/// What those writes report, in order.
pub open spec fn write_outcomes<T>(capacity: nat, items: Seq<T>, elements: Seq<T>) -> Seq<
    Result<(), (Error, T)>,
>
    decreases elements.len(),
{
    if elements.len() == 0 {
        Seq::empty()
    } else {
        seq![write_outcome(capacity, items, elements[0])] + write_outcomes(
            capacity,
            after_write(capacity, items, elements[0]),
            elements.drop_first(),
        )
    }
}

/// The stored elements after `count` calls of `read`.
pub open spec fn after_reads<T>(items: Seq<T>, count: nat) -> Seq<T>
    decreases count,
{
    if count == 0 {
        items
    } else {
        after_reads(after_read(items), (count - 1) as nat)
    }
}

/// What those reads report, in order.
pub open spec fn read_outcomes<T>(items: Seq<T>, count: nat) -> Seq<Result<T, Error>>
    decreases count,
{
    if count == 0 {
        Seq::empty()
    } else {
        seq![read_outcome(items)] + read_outcomes(after_read(items), (count - 1) as nat)
    }
}

/// The stored elements after a `write` followed by a `read` for each of
/// `elements`, in order.
pub open spec fn after_turns<T>(capacity: nat, items: Seq<T>, elements: Seq<T>) -> Seq<T>
    decreases elements.len(),
{
    if elements.len() == 0 {
        items
    } else {
        after_turns(
            capacity,
            after_read(after_write(capacity, items, elements[0])),
            elements.drop_first(),
        )
    }
}

/// What each of those turns reports: the outcome of its `write` and the
/// outcome of its `read`.
pub open spec fn turn_outcomes<T>(capacity: nat, items: Seq<T>, elements: Seq<T>) -> Seq<
    (Result<(), (Error, T)>, Result<T, Error>),
>
    decreases elements.len(),
{
    if elements.len() == 0 {
        Seq::empty()
    } else {
        let written = after_write(capacity, items, elements[0]);
        seq![(write_outcome(capacity, items, elements[0]), read_outcome(written))] + turn_outcomes(
            capacity,
            after_read(written),
            elements.drop_first(),
        )
    }
}

} // verus!
