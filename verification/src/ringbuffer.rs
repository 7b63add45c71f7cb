use std::collections::VecDeque;
use vstd::prelude::*;

verus! {

/// A fixed-capacity history buffer with overwrite-oldest eviction: once the
/// buffer is full, each push drops the oldest element before appending the
/// newest. The backing storage is reserved once at construction, so pushes
/// never grow it afterwards.
#[derive(Debug)]
pub struct RingBuffer<T> {
    capacity: usize,
    buffer: VecDeque<T>,
}

impl<T> View for RingBuffer<T> {
    type V = Seq<T>;

    /// The elements currently held, oldest first.
    closed spec fn view(&self) -> Seq<T> {
        self.buffer@
    }
}

/// What one push leaves in a buffer whose contents are `s` and whose capacity
/// is `cap`: at capacity the oldest element is evicted, then the new value is
/// appended at the tail.
pub open spec fn pushed<T>(s: Seq<T>, cap: nat, value: T) -> Seq<T> {
    if s.len() < cap {
        s.push(value)
    } else {
        s.skip(1).push(value)
    }
}

/// What a whole sequence of pushes leaves in the buffer, applied first to
/// last.
pub open spec fn pushed_all<T>(s: Seq<T>, cap: nat, values: Seq<T>) -> Seq<T>
    decreases values.len(),
{
    if values.len() == 0 {
        s
    } else {
        pushed_all(pushed(s, cap, values[0]), cap, values.skip(1))
    }
}

/// The at most `cap` most recent elements of `s`, oldest first.
pub open spec fn most_recent<T>(s: Seq<T>, cap: nat) -> Seq<T> {
    if s.len() <= cap {
        s
    } else {
        s.skip(s.len() - cap)
    }
}

/// A run of pushes keeps exactly the most recent elements: starting from
/// contents `s` within capacity, pushing all of `values` leaves the at most
/// `cap` most recent elements of `s + values`, in insertion order.
proof fn lemma_pushed_all_most_recent<T>(s: Seq<T>, cap: nat, values: Seq<T>)
    requires
        1 <= cap,
        s.len() <= cap,
    ensures
        pushed_all(s, cap, values) == most_recent(s + values, cap),
    decreases values.len(),
{
    if values.len() == 0 {
        assert(s + values =~= s);
    } else {
        let stepped = pushed(s, cap, values[0]);
        lemma_pushed_all_most_recent(stepped, cap, values.skip(1));
        if s.len() < cap {
            assert(stepped + values.skip(1) =~= s + values);
        } else {
            assert(stepped + values.skip(1) =~= (s + values).skip(1));
            assert(most_recent((s + values).skip(1), cap) =~= most_recent(s + values, cap));
        }
    }
}

/// However many values are pushed, a buffer within its capacity stays within
/// it; and once at least `cap` values have been pushed, the buffer holds
/// exactly the `cap` most recently pushed values, in insertion order.
pub proof fn lemma_pushes_stay_bounded<T>(s: Seq<T>, cap: nat, values: Seq<T>)
    requires
        1 <= cap,
        s.len() <= cap,
    ensures
        pushed_all(s, cap, values).len() <= cap,
        values.len() >= cap ==> pushed_all(s, cap, values) == values.skip(values.len() - cap),
{
    lemma_pushed_all_most_recent(s, cap, values);
    if values.len() >= cap {
        assert(most_recent(s + values, cap) =~= values.skip(values.len() - cap));
    }
}

/// A cleared buffer behaves like a freshly constructed buffer of the same
/// capacity: both are empty, so any sequence of pushes leaves the same
/// contents in each.
pub proof fn lemma_cleared_behaves_like_fresh<T>(
    cleared: RingBuffer<T>,
    fresh: RingBuffer<T>,
    values: Seq<T>,
)
    requires
        cleared@ == Seq::<T>::empty(),
        fresh@ == Seq::<T>::empty(),
        cleared.spec_capacity() == fresh.spec_capacity(),
    ensures
        pushed_all(cleared@, cleared.spec_capacity(), values) == pushed_all(
            fresh@,
            fresh.spec_capacity(),
            values,
        ),
{
}

impl<T> RingBuffer<T> {
    /// The fixed number of elements the buffer can hold.
    pub closed spec fn spec_capacity(&self) -> nat {
        self.capacity as nat
    }

    /// Well-formedness: the capacity is positive and the buffer never holds
    /// more elements than it.
    pub open spec fn well_formed(&self) -> bool {
        1 <= self.spec_capacity() && self@.len() <= self.spec_capacity()
    }

    /// Creates an empty buffer that will hold at most `capacity` elements.
    pub fn new(capacity: usize) -> (result: Self)
        requires
            1 <= capacity,
        ensures
            result.well_formed(),
            result@ == Seq::<T>::empty(),
            result.spec_capacity() == capacity,
    {
        Self { capacity, buffer: VecDeque::with_capacity(capacity) }
    }

    /// Appends `item` at the tail; if the buffer is already at capacity, the
    /// oldest element is evicted first, so the length never exceeds the
    /// capacity. Always succeeds.
    pub fn push(&mut self, item: T)
        requires
            old(self).well_formed(),
        ensures
            final(self).well_formed(),
            final(self).spec_capacity() == old(self).spec_capacity(),
            final(self)@ == pushed(old(self)@, old(self).spec_capacity(), item),
    {
        if self.buffer.len() == self.capacity {
            self.buffer.pop_front();
        }

        self.buffer.push_back(item);

        proof {
            assert(self@ =~= pushed(old(self)@, old(self).spec_capacity(), item));
        }
    }

    /// Removes and returns the oldest element, or `None` when the buffer is
    /// empty. Never fails and does not affect the capacity.
    pub fn pop(&mut self) -> (result: Option<T>)
        requires
            old(self).well_formed(),
        ensures
            final(self).well_formed(),
            final(self).spec_capacity() == old(self).spec_capacity(),
            match result {
                Some(value) => {
                    &&& old(self)@.len() > 0
                    &&& value == old(self)@[0]
                    &&& final(self)@ == old(self)@.skip(1)
                },
                None => {
                    &&& old(self)@.len() == 0
                    &&& final(self)@ == old(self)@
                },
            },
    {
        let result = self.buffer.pop_front();
        proof {
            if old(self)@.len() > 0 {
                assert(self@ =~= old(self)@.skip(1));
            }
        }
        result
    }

    /// Removes every element; the capacity is unchanged, and the backing
    /// storage is kept, so later pushes still do not allocate.
    pub fn clear(&mut self)
        requires
            old(self).well_formed(),
        ensures
            final(self).well_formed(),
            final(self).spec_capacity() == old(self).spec_capacity(),
            final(self)@ == Seq::<T>::empty(),
    {
        self.buffer.clear();
    }
}

} // verus!
