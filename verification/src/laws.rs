//! What holds of every buffer, stated over the model of its operations.

use crate::buffer::CircularBuffer;
use crate::error::Error;
use crate::model::{
    after_clear, after_overwrite, after_read, after_reads, after_turns, after_write,
    after_writes, empty_slots, next_slot, read_outcome, read_outcomes, turn_outcomes,
    write_outcome, write_outcomes,
};
use vstd::arithmetic::div_mod::lemma_fundamental_div_mod_converse;
use vstd::prelude::*;

verus! {

/// A read that hands out `element`.
pub open spec fn handed_out<T>(element: T) -> Result<T, Error> {
    Ok(element)
}

/// A turn in which the write succeeds and the read hands out `element`.
pub open spec fn turned_round<T>(element: T) -> (Result<(), (Error, T)>, Result<T, Error>) {
    (Ok(()), Ok(element))
}

/// While they fit, writes succeed and put their elements behind the stored
/// ones, in the order of the calls.
pub proof fn writes_that_fit_append<T>(capacity: nat, items: Seq<T>, elements: Seq<T>)
    requires
        items.len() + elements.len() <= capacity,
    ensures
        after_writes(capacity, items, elements) == items + elements,
        write_outcomes(capacity, items, elements) == Seq::new(
            elements.len(),
            |i: int| Ok::<(), (Error, T)>(()),
        ),
    decreases elements.len(),
{
    if elements.len() > 0 {
        writes_that_fit_append(capacity, items.push(elements[0]), elements.drop_first());
    }
    assert(write_outcomes(capacity, items, elements) =~= Seq::new(
        elements.len(),
        |i: int| Ok::<(), (Error, T)>(()),
    ));
}

/// Reads hand out the stored elements oldest first, as long as there are any.
pub proof fn reads_hand_out_oldest_first<T>(items: Seq<T>, count: nat)
    requires
        count <= items.len(),
    ensures
        read_outcomes(items, count) == items.take(count as int).map_values(
            |element: T| handed_out(element),
        ),
        after_reads(items, count) == items.skip(count as int),
    decreases count,
{
    if count > 0 {
        reads_hand_out_oldest_first(items.drop_first(), (count - 1) as nat);
    }
}

/// Nothing can be read from a buffer that was just made, whatever its
/// capacity: the read reports `EmptyBuffer` and the buffer stays empty.
pub proof fn fresh_buffer_has_nothing_to_read<T>()
    ensures
        read_outcome(Seq::<T>::empty()) == Err::<T, Error>(Error::EmptyBuffer),
        after_read(Seq::<T>::empty()) == Seq::<T>::empty(),
{
}

/// A buffer takes exactly as many writes as it has slots: starting empty, one
/// write for each of `capacity` elements succeeds and stores them in order,
/// and the next write hands its element back with `FullBuffer` and changes
/// nothing.
pub proof fn buffer_fills_to_capacity<T>(capacity: nat, elements: Seq<T>, extra: T)
    requires
        elements.len() == capacity,
    ensures
        write_outcomes(capacity, Seq::<T>::empty(), elements) == Seq::new(
            capacity,
            |i: int| Ok::<(), (Error, T)>(()),
        ),
        after_writes(capacity, Seq::<T>::empty(), elements) == elements,
        write_outcome(capacity, elements, extra) == Err::<(), (Error, T)>(
            (Error::FullBuffer, extra),
        ),
        after_write(capacity, elements, extra) == elements,
{
    writes_that_fit_append(capacity, Seq::<T>::empty(), elements);
}

/// First in, first out: after writing elements that fit into an empty
/// buffer, as many reads hand them out in the order in which they were
/// written, and leave the buffer empty.
pub proof fn first_in_first_out<T>(capacity: nat, elements: Seq<T>)
    requires
        elements.len() <= capacity,
    ensures
        read_outcomes(
            after_writes(capacity, Seq::<T>::empty(), elements),
            elements.len(),
        ) == elements.map_values(|element: T| handed_out(element)),
        after_reads(after_writes(capacity, Seq::<T>::empty(), elements), elements.len())
            == Seq::<T>::empty(),
{
    writes_that_fit_append(capacity, Seq::<T>::empty(), elements);
    reads_hand_out_oldest_first(elements, elements.len());
}

/// Going round: on an empty buffer with at least one slot, a write followed
/// by a read can be repeated any number of times. No call fails, each read
/// hands out the element just written, and the buffer is empty again after
/// each turn.
pub proof fn write_then_read_goes_round<T>(capacity: nat, elements: Seq<T>)
    requires
        capacity >= 1,
    ensures
        turn_outcomes(capacity, Seq::<T>::empty(), elements) == elements.map_values(
            |element: T| turned_round(element),
        ),
        after_turns(capacity, Seq::<T>::empty(), elements) == Seq::<T>::empty(),
    decreases elements.len(),
{
    if elements.len() > 0 {
        let written = after_write(capacity, Seq::<T>::empty(), elements[0]);
        assert(after_read(written) =~= Seq::<T>::empty());
        write_then_read_goes_round(capacity, elements.drop_first());
    }
}

/// Overwriting on a full buffer drops the oldest element and nothing else:
/// the reads that drain the buffer hand out the second oldest up to the
/// newest of the elements stored before, and then the new one.
pub proof fn overwrite_on_full_drops_oldest<T>(capacity: nat, items: Seq<T>, element: T)
    requires
        capacity >= 1,
        items.len() == capacity,
    ensures
        after_overwrite(capacity, items, element) == items.drop_first().push(element),
        read_outcomes(after_overwrite(capacity, items, element), capacity) == items.drop_first().push(
            element,
        ).map_values(|stored: T| handed_out(stored)),
        after_reads(after_overwrite(capacity, items, element), capacity) == Seq::<T>::empty(),
{
    reads_hand_out_oldest_first(items.drop_first().push(element), capacity);
}

/// Clearing keeps the capacity and nothing else: whatever was stored, the
/// next read reports `EmptyBuffer`, and the buffer then takes writes up to
/// its capacity again, storing their elements in order.
pub proof fn clear_leaves_all_slots_free<T>(capacity: nat, items: Seq<T>, elements: Seq<T>)
    requires
        elements.len() <= capacity,
    ensures
        read_outcome(after_clear(items)) == Err::<T, Error>(Error::EmptyBuffer),
        write_outcomes(capacity, after_clear(items), elements) == Seq::new(
            elements.len(),
            |i: int| Ok::<(), (Error, T)>(()),
        ),
        after_writes(capacity, after_clear(items), elements) == elements,
{
    writes_that_fit_append(capacity, Seq::<T>::empty(), elements);
}

/// Clearing twice is clearing once.
pub proof fn clear_is_idempotent<T>(items: Seq<T>)
    ensures
        after_clear(after_clear(items)) == after_clear(items),
{
}

/// Going on by one slot stays within the ring: it is the next index, and the
/// first one after the last.
pub proof fn next_slot_goes_round(index: nat, capacity: nat)
    requires
        index < capacity,
    ensures
        next_slot(index, capacity) < capacity,
        next_slot(index, capacity) == if index + 1 < capacity {
            index + 1
        } else {
            0
        },
{
    if index + 1 < capacity {
        lemma_fundamental_div_mod_converse(index as int + 1, capacity as int, 0, index as int + 1);
    } else {
        lemma_fundamental_div_mod_converse(index as int + 1, capacity as int, 1, 0);
    }
}

/// On a full buffer, where `start` and `end` are one slot, overwriting leaves
/// the slots that a read followed by a write leaves: the slot is emptied and
/// filled again, and nothing else is touched.
pub proof fn overwrite_on_full_is_read_then_write<T>(
    slots: Seq<Option<T>>,
    start: nat,
    end: nat,
    element: T,
)
    requires
        start == end,
        start < slots.len(),
    ensures
        slots.update(start as int, None).update(end as int, Some(element)) == slots.update(
            start as int,
            Some(element),
        ),
{
    assert(slots.update(start as int, None).update(end as int, Some(element)) =~= slots.update(
        start as int,
        Some(element),
    ));
}

/// Clearing twice leaves the whole state that clearing once leaves: whatever
/// `clear` makes of a buffer, `clear` makes of the cleared buffer again.
pub proof fn second_clear_changes_nothing<T>(
    before: CircularBuffer<T>,
    once: CircularBuffer<T>,
    twice: CircularBuffer<T>,
)
    requires
        once@ == after_clear(before@),
        once.capacity() == before.capacity(),
        once.start() == 0,
        once.end() == 0,
        once.slots() == empty_slots::<T>(before.capacity()),
        twice@ == after_clear(once@),
        twice.capacity() == once.capacity(),
        twice.start() == 0,
        twice.end() == 0,
        twice.slots() == empty_slots::<T>(once.capacity()),
    ensures
        twice.same_state(&once),
{
}

} // verus!
