use crate::error::Error;
use crate::model::{
    after_clear, after_overwrite, after_read, after_write, empty_slots, next_slot, read_outcome,
    write_outcome,
};
use vstd::arithmetic::div_mod::lemma_fundamental_div_mod_converse;
use vstd::prelude::*;

verus! {

/// A queue of at most `capacity` elements that reuses its slots cyclically.
///
/// The slots are allocated once, when the buffer is made. Each slot either
/// holds one element or is empty; `size` slots are occupied, beginning with
/// the oldest element at `start` and going round, and `end` is the slot that
/// the next element goes into.
pub struct CircularBuffer<T> {
    data: Vec<Option<T>>,
    start: usize,
    end: usize,
    capacity: usize,
    size: usize,
}

/// The slot reached from slot `from` after `steps` slots, going round.
spec fn slot_after(from: int, steps: int, capacity: int) -> int {
    (from + steps) % capacity
}

/// How many slots lie between slot `from` and slot `slot`, going round.
spec fn steps_between(from: int, slot: int, capacity: int) -> int {
    (slot - from) % capacity
}

/// The representation is coherent: the occupied slots are the `size` slots
/// from `start` on, going round, and `end` is the slot behind them.
spec fn coherent<T>(
    data: Seq<Option<T>>,
    start: int,
    end: int,
    capacity: int,
    size: int,
) -> bool {
    &&& data.len() == capacity
    &&& 0 <= size <= capacity
    &&& capacity == 0 ==> start == 0 && end == 0
    &&& capacity > 0 ==> 0 <= start < capacity && end == slot_after(start, size, capacity)
    &&& forall|i: int|
        0 <= i < capacity ==> ((#[trigger] data[i]) is Some <==> steps_between(start, i, capacity)
            < size)
}

/// The stored elements, oldest first, as the representation holds them.
spec fn stored<T>(data: Seq<Option<T>>, start: int, capacity: int, size: int) -> Seq<T> {
    Seq::new(size as nat, |k: int| data[slot_after(start, k, capacity)].unwrap())
}

impl<T> View for CircularBuffer<T> {
    type V = Seq<T>;

    /// The stored elements, oldest first. Their number is the buffer's size.
    closed spec fn view(&self) -> Seq<T> {
        stored(self.data@, self.start as int, self.capacity as int, self.size as int)
    }
}

/// Within one lap either side of the ring, going round is adding or taking
/// away one lap.
proof fn lemma_one_lap(position: int, capacity: int)
    requires
        capacity > 0,
        -capacity <= position < 2 * capacity,
    ensures
        position % capacity == if position < 0 {
            position + capacity
        } else if position < capacity {
            position
        } else {
            position - capacity
        },
{
    if position < 0 {
        lemma_fundamental_div_mod_converse(position, capacity, -1, position + capacity);
    } else if position < capacity {
        lemma_fundamental_div_mod_converse(position, capacity, 0, position);
    } else {
        lemma_fundamental_div_mod_converse(position, capacity, 1, position - capacity);
    }
}

/// Counting from `next`, the slot behind `first`, is counting one slot more
/// from `first`, and within a lap it does not come back to `first`.
proof fn lemma_count_from_next(first: int, next: int, capacity: int, count: int)
    requires
        0 <= first < capacity,
        next == slot_after(first, 1, capacity),
        0 <= count < capacity,
    ensures
        forall|k: int|
            0 <= k < count ==> #[trigger] slot_after(next, k, capacity) == slot_after(
                first,
                k + 1,
                capacity,
            ) && slot_after(next, k, capacity) != first,
{
    lemma_one_lap(first + 1, capacity);
    assert forall|k: int| 0 <= k < count implies #[trigger] slot_after(next, k, capacity)
        == slot_after(first, k + 1, capacity) && slot_after(next, k, capacity) != first by {
        lemma_one_lap(next + k, capacity);
        lemma_one_lap(first + k + 1, capacity);
    }
}

/// A ring whose slots are all empty is coherent from its first slot on, and
/// stores nothing.
proof fn lemma_empty_ring<T>(data: Seq<Option<T>>, capacity: int)
    requires
        data.len() == capacity,
        forall|i: int| 0 <= i < capacity ==> (#[trigger] data[i]) is None,
    ensures
        coherent(data, 0, 0, capacity, 0),
        stored(data, 0, capacity, 0) == Seq::<T>::empty(),
        data == empty_slots::<T>(capacity as nat),
{
    if capacity > 0 {
        lemma_one_lap(0, capacity);
    }
}

/// Puts `element` into the free slot at `end` and moves `end` on by one slot.
fn store_at_end<T>(
    data: &mut Vec<Option<T>>,
    start: usize,
    end: &mut usize,
    capacity: usize,
    size: &mut usize,
    element: T,
)
    requires
        coherent(old(data)@, start as int, *old(end) as int, capacity as int, *old(size) as int),
        *old(size) < capacity,
    ensures
        final(data)@ == old(data)@.update(*old(end) as int, Some(element)),
        *final(end) == (*old(end) + 1) % (capacity as int),
        *final(size) == *old(size) + 1,
        coherent(
            final(data)@,
            start as int,
            *final(end) as int,
            capacity as int,
            *final(size) as int,
        ),
        stored(final(data)@, start as int, capacity as int, *final(size) as int) == stored(
            old(data)@,
            start as int,
            capacity as int,
            *old(size) as int,
        ).push(element),
    no_unwind
{
    let ghost before = data@;
    let ghost first = start as int;
    let ghost free = *end as int;
    let ghost slots = capacity as int;
    let ghost held = *size as int;
    proof {
        lemma_one_lap(first + held, slots);
        lemma_one_lap(free + 1, slots);
        lemma_one_lap(first + held + 1, slots);
    }
    data[*end] = Some(element);
    *end = (*end + 1) % capacity;
    *size = *size + 1;
    proof {
        assert forall|i: int| 0 <= i < slots implies ((#[trigger] data@[i]) is Some
            <==> steps_between(first, i, slots) < held + 1) by {
            lemma_one_lap(i - first, slots);
        }
        assert forall|k: int| 0 <= k < held implies slot_after(first, k, slots) != free by {
            lemma_one_lap(first + k, slots);
        }
        assert(stored(data@, first, slots, held + 1) =~= stored(before, first, slots, held).push(
            element,
        ));
    }
}

/// Empties the slot at `start`, hands out what it held and moves `start` on
/// by one slot.
fn take_at_start<T>(
    data: &mut Vec<Option<T>>,
    start: &mut usize,
    end: usize,
    capacity: usize,
    size: &mut usize,
) -> (slot: Option<T>)
    requires
        coherent(old(data)@, *old(start) as int, end as int, capacity as int, *old(size) as int),
        *old(size) > 0,
    ensures
        final(data)@ == old(data)@.update(*old(start) as int, None),
        *final(start) == (*old(start) + 1) % (capacity as int),
        *final(size) == *old(size) - 1,
        coherent(
            final(data)@,
            *final(start) as int,
            end as int,
            capacity as int,
            *final(size) as int,
        ),
        slot == Some(
            stored(old(data)@, *old(start) as int, capacity as int, *old(size) as int)[0],
        ),
        stored(final(data)@, *final(start) as int, capacity as int, *final(size) as int) == stored(
            old(data)@,
            *old(start) as int,
            capacity as int,
            *old(size) as int,
        ).drop_first(),
    no_unwind
{
    let ghost before = data@;
    let ghost first = *start as int;
    let ghost slots = capacity as int;
    let ghost held = *size as int;
    proof {
        lemma_one_lap(first, slots);
        lemma_one_lap(first + 1, slots);
        lemma_one_lap(first + held, slots);
    }
    let mut slot: Option<T> = None;
    core::mem::swap(&mut data[*start], &mut slot);
    *start = (*start + 1) % capacity;
    *size = *size - 1;
    proof {
        let next = *start as int;
        lemma_one_lap(next + held - 1, slots);
        assert forall|i: int| 0 <= i < slots implies ((#[trigger] data@[i]) is Some
            <==> steps_between(next, i, slots) < held - 1) by {
            lemma_one_lap(i - first, slots);
            lemma_one_lap(i - next, slots);
        }
        lemma_count_from_next(first, next, slots, held - 1);
        assert(stored(data@, next, slots, held - 1) =~= stored(
            before,
            first,
            slots,
            held,
        ).drop_first());
    }
    slot
}

/// Replaces the oldest element of a full ring by `element`, which becomes the
/// newest: the slot at `start` is also the one at `end`, and both move on.
fn replace_oldest<T>(
    data: &mut Vec<Option<T>>,
    start: &mut usize,
    end: &mut usize,
    capacity: usize,
    size: usize,
    element: T,
)
    requires
        coherent(old(data)@, *old(start) as int, *old(end) as int, capacity as int, size as int),
        size == capacity,
        capacity > 0,
    ensures
        final(data)@ == old(data)@.update(*old(start) as int, Some(element)),
        *final(start) == (*old(start) + 1) % (capacity as int),
        *final(end) == (*old(end) + 1) % (capacity as int),
        coherent(
            final(data)@,
            *final(start) as int,
            *final(end) as int,
            capacity as int,
            size as int,
        ),
        stored(final(data)@, *final(start) as int, capacity as int, size as int) == stored(
            old(data)@,
            *old(start) as int,
            capacity as int,
            size as int,
        ).drop_first().push(element),
    no_unwind
{
    let ghost before = data@;
    let ghost first = *start as int;
    let ghost slots = capacity as int;
    proof {
        lemma_one_lap(first + 1, slots);
        lemma_one_lap(first + slots, slots);
    }
    data[*start] = Some(element);
    *start = (*start + 1) % capacity;
    *end = (*end + 1) % capacity;
    proof {
        let next = *start as int;
        lemma_one_lap(next + slots, slots);
        lemma_count_from_next(first, next, slots, slots - 1);
        assert(slot_after(next, slots - 1, slots) == first) by {
            lemma_one_lap(next + slots - 1, slots);
        }
        assert(stored(data@, next, slots, slots) =~= stored(
            before,
            first,
            slots,
            slots,
        ).drop_first().push(element));
    }
}

/// Empties every slot and puts `start` and `end` back on the first one.
fn empty_all<T>(
    data: &mut Vec<Option<T>>,
    start: &mut usize,
    end: &mut usize,
    capacity: usize,
    size: &mut usize,
)
    requires
        old(data)@.len() == capacity,
    ensures
        final(data)@ == empty_slots::<T>(capacity as nat),
        *final(start) == 0,
        *final(end) == 0,
        *final(size) == 0,
        coherent(final(data)@, 0, 0, capacity as int, 0),
        stored(final(data)@, 0, capacity as int, 0) == Seq::<T>::empty(),
    no_unwind
{
    let mut emptied: usize = 0;
    while emptied < capacity
        invariant
            emptied <= capacity,
            data@.len() == capacity,
            forall|i: int| 0 <= i < emptied ==> (#[trigger] data@[i]) is None,
        decreases capacity - emptied,
    {
        data[emptied] = None;
        emptied = emptied + 1;
    }
    *start = 0;
    *end = 0;
    *size = 0;
    proof {
        lemma_empty_ring(data@, capacity as int);
    }
}

impl<T> CircularBuffer<T> {
    #[verifier::type_invariant]
    spec fn inv(self) -> bool {
        coherent(
            self.data@,
            self.start as int,
            self.end as int,
            self.capacity as int,
            self.size as int,
        )
    }

    /// The number of slots, fixed when the buffer is made.
    pub closed spec fn capacity(&self) -> nat {
        self.capacity as nat
    }

    /// The index of the slot that holds the oldest element, where there is one.
    pub closed spec fn start(&self) -> nat {
        self.start as nat
    }

    /// The index of the slot that the next element goes into.
    pub closed spec fn end(&self) -> nat {
        self.end as nat
    }

    /// The slots, by index: each holds one element or nothing.
    pub closed spec fn slots(&self) -> Seq<Option<T>> {
        self.data@
    }

    /// What holds of every buffer at all times.
    ///
    /// There are `capacity` slots and at most as many stored elements. Both
    /// indices point at a slot, and `end` lies as many slots behind `start`,
    /// going round, as elements are stored: on an empty and on a full buffer
    /// the two are the same slot. The stored elements sit in the slots from
    /// `start` on, going round, oldest first, so the oldest one is in the slot
    /// at `start`; every other slot is empty. Without slots, both indices
    /// are 0.
    pub open spec fn well_formed(&self) -> bool {
        let capacity = self.capacity() as int;
        let size = self@.len() as int;
        let start = self.start() as int;
        &&& self.slots().len() == capacity
        &&& size <= capacity
        &&& capacity == 0 ==> start == 0 && self.end() == 0
        &&& capacity > 0 ==> start < capacity && self.end() == (start + size) % capacity
        &&& size == 0 || size == capacity ==> self.end() == start
        &&& size > 0 ==> self.slots()[start] == Some(self@[0])
        &&& forall|k: int|
            0 <= k < size ==> self.slots()[(start + k) % capacity] == Some(#[trigger] self@[k])
        &&& forall|i: int|
            0 <= i < capacity && (i - start) % capacity >= size ==> (#[trigger] self.slots()[i])
                is None
    }

    /// Nothing of `self` differs from `other`: slots, indices, capacity and
    /// stored elements are the same.
    pub open spec fn same_state(&self, other: &Self) -> bool {
        &&& self.slots() == other.slots()
        &&& self.start() == other.start()
        &&& self.end() == other.end()
        &&& self.capacity() == other.capacity()
        &&& self@ == other@
    }

    /// The type's invariant, in the words of `well_formed`.
    proof fn lemma_well_formed(self)
        requires
            self.inv(),
        ensures
            self.well_formed(),
    {
        let capacity = self.capacity as int;
        let start = self.start as int;
        if capacity > 0 {
            lemma_one_lap(start, capacity);
            lemma_one_lap(start + capacity, capacity);
        }
        assert forall|k: int| 0 <= k < self.size implies self.data@[(start + k) % capacity]
            == Some(#[trigger] self@[k]) by {
            let slot = slot_after(start, k, capacity);
            lemma_one_lap(start + k, capacity);
            lemma_one_lap(slot - start, capacity);
        }
    }

    /// Makes an empty buffer of `capacity` slots, with both indices on the
    /// first slot.
    ///
    /// A capacity of 0 is accepted: such a buffer is full and empty at once,
    /// so every `write` and every `read` on it fails.
    pub fn new(capacity: usize) -> (buffer: Self)
        ensures
            buffer@ == Seq::<T>::empty(),
            buffer.capacity() == capacity,
            buffer.start() == 0,
            buffer.end() == 0,
            buffer.slots() == empty_slots::<T>(capacity as nat),
            buffer.well_formed(),
    {
        let mut data: Vec<Option<T>> = Vec::with_capacity(capacity);
        let mut filled: usize = 0;
        while filled < capacity
            invariant
                filled <= capacity,
                data@.len() == filled,
                forall|i: int| 0 <= i < filled ==> (#[trigger] data@[i]) is None,
            decreases capacity - filled,
        {
            data.push(None);
            filled = filled + 1;
        }
        proof {
            lemma_empty_ring(data@, capacity as int);
        }
        let buffer = CircularBuffer { data, start: 0, end: 0, capacity, size: 0 };
        proof {
            buffer.lemma_well_formed();
        }
        buffer
    }

    /// Appends `element` behind the stored ones, unless the buffer is full.
    ///
    /// With a free slot the element goes into the slot at `end`, and `end`
    /// moves on by one slot, going round. A full buffer is left exactly as it
    /// was, and the element comes back to the caller beside
    /// `Error::FullBuffer`: it is never dropped here.
    pub fn write(&mut self, element: T) -> (result: Result<(), (Error, T)>)
        ensures
            result == write_outcome(old(self).capacity(), old(self)@, element),
            final(self)@ == after_write(old(self).capacity(), old(self)@, element),
            final(self).capacity() == old(self).capacity(),
            final(self).start() == old(self).start(),
            old(self)@.len() < old(self).capacity() ==> final(self).slots() == old(
                self,
            ).slots().update(old(self).end() as int, Some(element)),
            old(self)@.len() < old(self).capacity() ==> final(self).end() == next_slot(
                old(self).end(),
                old(self).capacity(),
            ),
            old(self)@.len() >= old(self).capacity() ==> final(self).same_state(old(self)),
            old(self).well_formed(),
            final(self).well_formed(),
    {
        proof {
            use_type_invariant(&*self);
            self.lemma_well_formed();
        }
        if self.size == self.capacity {
            return Err((Error::FullBuffer, element));
        }
        store_at_end(
            &mut self.data,
            self.start,
            &mut self.end,
            self.capacity,
            &mut self.size,
            element,
        );
        proof {
            self.lemma_well_formed();
        }
        Ok(())
    }

    /// Removes the oldest element and hands it out, unless the buffer is empty.
    ///
    /// The element comes out of the slot at `start`, which is left empty, and
    /// `start` moves on by one slot, going round. An empty buffer is left
    /// exactly as it was and `Error::EmptyBuffer` is returned.
    pub fn read(&mut self) -> (result: Result<T, Error>)
        ensures
            result == read_outcome(old(self)@),
            final(self)@ == after_read(old(self)@),
            final(self).capacity() == old(self).capacity(),
            final(self).end() == old(self).end(),
            old(self)@.len() > 0 ==> final(self).slots() == old(self).slots().update(
                old(self).start() as int,
                None,
            ),
            old(self)@.len() > 0 ==> final(self).start() == next_slot(
                old(self).start(),
                old(self).capacity(),
            ),
            old(self)@.len() == 0 ==> final(self).same_state(old(self)),
            old(self).well_formed(),
            final(self).well_formed(),
    {
        proof {
            use_type_invariant(&*self);
            self.lemma_well_formed();
        }
        if self.size == 0 {
            return Err(Error::EmptyBuffer);
        }
        let slot = take_at_start(
            &mut self.data,
            &mut self.start,
            self.end,
            self.capacity,
            &mut self.size,
        );
        proof {
            self.lemma_well_formed();
        }
        Ok(slot.unwrap())
    }

    /// Drops every stored element and leaves the buffer as `new` made it:
    /// every slot empty, both indices on the first slot, the capacity kept.
    pub fn clear(&mut self)
        ensures
            final(self)@ == after_clear(old(self)@),
            final(self).capacity() == old(self).capacity(),
            final(self).start() == 0,
            final(self).end() == 0,
            final(self).slots() == empty_slots::<T>(old(self).capacity()),
            old(self).well_formed(),
            final(self).well_formed(),
    {
        proof {
            use_type_invariant(&*self);
            self.lemma_well_formed();
        }
        empty_all(
            &mut self.data,
            &mut self.start,
            &mut self.end,
            self.capacity,
            &mut self.size,
        );
    }

    /// Stores `element` whether or not a slot is free.
    ///
    /// With a free slot this is a `write`. On a full buffer the oldest element
    /// is dropped, not handed out: `element` takes its slot, the one at
    /// `start`, which is also the one at `end`, and both indices move on by
    /// one slot, so that `element` is the newest. A buffer of capacity 0 has
    /// no slot to reuse: there the call drops `element` and changes nothing.
    pub fn overwrite(&mut self, element: T)
        ensures
            final(self)@ == after_overwrite(old(self).capacity(), old(self)@, element),
            final(self).capacity() == old(self).capacity(),
            old(self)@.len() < old(self).capacity() ==> final(self).slots() == old(
                self,
            ).slots().update(old(self).end() as int, Some(element)),
            old(self)@.len() < old(self).capacity() ==> final(self).start() == old(self).start(),
            old(self)@.len() >= old(self).capacity() > 0 ==> final(self).slots() == old(
                self,
            ).slots().update(old(self).start() as int, Some(element)),
            old(self)@.len() >= old(self).capacity() > 0 ==> final(self).start() == next_slot(
                old(self).start(),
                old(self).capacity(),
            ),
            old(self).capacity() > 0 ==> final(self).end() == next_slot(
                old(self).end(),
                old(self).capacity(),
            ),
            old(self).capacity() == 0 ==> final(self).same_state(old(self)),
            old(self).well_formed(),
            final(self).well_formed(),
    {
        proof {
            use_type_invariant(&*self);
            self.lemma_well_formed();
        }
        if self.size < self.capacity {
            store_at_end(
                &mut self.data,
                self.start,
                &mut self.end,
                self.capacity,
                &mut self.size,
                element,
            );
        } else if self.capacity > 0 {
            replace_oldest(
                &mut self.data,
                &mut self.start,
                &mut self.end,
                self.capacity,
                self.size,
                element,
            );
        }
        proof {
            self.lemma_well_formed();
        }
    }
}

} // verus!
