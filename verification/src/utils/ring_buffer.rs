//! A queue of a fixed capacity.
use vstd::prelude::*;

use crate::wire::Extract;

verus! {

/// A fixed-capacity ring buffer. It allocates nothing after it was made.
#[derive(Debug)]
pub struct RingBuffer<T> {
    buffer: Vec<T>,
    capacity: usize,
    /// Read position.
    head: usize,
    /// Write position.
    tail: usize,
    /// Current number of elements.
    len: usize,
}

/// The position `i` places after `head`.
spec fn place(head: int, i: int, capacity: int) -> int {
    if head + i < capacity {
        head + i
    } else {
        head + i - capacity
    }
}

impl<T> View for RingBuffer<T> {
    type V = Seq<T>;

    closed spec fn view(&self) -> Seq<T> {
        Seq::new(
            self.len as nat,
            |i: int| self.buffer@[place(self.head as int, i, self.capacity as int)],
        )
    }
}

impl<T> RingBuffer<T> {
    /// How many elements fit.
    pub closed spec fn spec_capacity(&self) -> nat {
        self.capacity as nat
    }

    /// The positions are within the buffer, and the elements lie between them.
    pub closed spec fn valid(&self) -> bool {
        &&& self.buffer@.len() == self.capacity
        &&& self.len <= self.capacity
        &&& self.capacity > 0 ==> self.head < self.capacity && self.tail < self.capacity
        &&& self.capacity > 0 ==> self.tail == place(
            self.head as int,
            self.len as int,
            self.capacity as int,
        )
    }

    /// No more elements are kept than fit.
    pub proof fn lemma_len_is_bounded(&self)
        requires
            self.valid(),
        ensures
            self@.len() <= self.spec_capacity(),
    {
    }

    /// A ring buffer for `capacity` elements.
    #[inline]
    pub fn new(capacity: usize) -> (ring: Self) where T: Default + Clone
        ensures
            ring.valid(),
            ring@ == Seq::<T>::empty(),
            ring.spec_capacity() == capacity,
    {
        let ring = RingBuffer {
            buffer: vec![T::default(); capacity],
            capacity,
            head: 0,
            tail: 0,
            len: 0,
        };
        assert(ring@ =~= Seq::<T>::empty());
        ring
    }

    /// The number of elements.
    #[inline]
    pub fn len(&self) -> (len: usize)
        ensures
            len == self@.len(),
    {
        self.len
    }

    #[inline]
    pub fn is_empty(&self) -> (empty: bool)
        ensures
            empty == (self@.len() == 0),
    {
        self.len == 0
    }

    #[inline]
    pub fn is_full(&self) -> (full: bool)
        ensures
            full == (self@.len() == self.spec_capacity()),
    {
        self.len == self.capacity
    }

    /// Appends an element, or gives it back where the buffer is full.
    #[inline]
    pub fn push_back(&mut self, value: T) -> (rejected: Option<T>)
        requires
            old(self).valid(),
        ensures
            final(self).valid(),
            final(self).spec_capacity() == old(self).spec_capacity(),
            old(self)@.len() < old(self).spec_capacity() ==> rejected is None && final(self)@
                == old(self)@.push(value),
            old(self)@.len() >= old(self).spec_capacity() ==> rejected == Some(value) && final(self)@ == old(self)@,
            final(self)@ == appended(old(self)@, old(self).spec_capacity(), value),
    {
        if self.is_full() {
            return Some(value);
        }
        let ghost before = self@;
        let at: usize = self.tail;
        self.buffer[at] = value;
        self.tail = if self.tail + 1 == self.capacity {
            0
        } else {
            self.tail + 1
        };
        self.len = self.len + 1;
        assert(self@ =~= before.push(value));
        None
    }

    /// Puts an element in front, or gives it back where the buffer is full.
    #[inline]
    pub fn push_front(&mut self, value: T) -> (rejected: Option<T>)
        requires
            old(self).valid(),
        ensures
            final(self).valid(),
            final(self).spec_capacity() == old(self).spec_capacity(),
            old(self)@.len() < old(self).spec_capacity() ==> rejected is None && final(self)@
                == seq![value] + old(self)@,
            old(self)@.len() >= old(self).spec_capacity() ==> rejected == Some(value) && final(self)@ == old(self)@,
            final(self)@ == put_in_front(old(self)@, old(self).spec_capacity(), value),
    {
        if self.is_full() {
            return Some(value);
        }
        let ghost before = self@;
        self.head = if self.head == 0 {
            self.capacity - 1
        } else {
            self.head - 1
        };
        let at: usize = self.head;
        self.buffer[at] = value;
        self.len = self.len + 1;
        assert(self@ =~= seq![value] + before);
        None
    }

    /// Takes the first element out.
    #[inline]
    pub fn pop_front(&mut self) -> (first: Option<T>) where T: Default
        requires
            old(self).valid(),
        ensures
            final(self).valid(),
            final(self).spec_capacity() == old(self).spec_capacity(),
            old(self)@.len() > 0 ==> first == Some(old(self)@[0]) && final(self)@ == old(
                self,
            )@.skip(1),
            old(self)@.len() == 0 ==> first is None && final(self)@ == old(self)@,
            final(self)@ == taken_out(old(self)@),
    {
        if self.is_empty() {
            return None;
        }
        let ghost before = self@;
        let at: usize = self.head;
        let value: T = self.buffer[at].extract();
        self.head = if self.head + 1 == self.capacity {
            0
        } else {
            self.head + 1
        };
        self.len = self.len - 1;
        assert(self@ =~= before.skip(1));
        Some(value)
    }

    /// The first element.
    #[inline]
    pub fn front(&self) -> (first: Option<&T>)
        requires
            self.valid(),
        ensures
            match first {
                Some(first) => self@.len() > 0 && *first == self@[0],
                None => self@.len() == 0,
            },
    {
        if self.is_empty() {
            return None;
        }
        Some(&self.buffer[self.head])
    }

    /// Takes all elements out.
    #[inline]
    pub fn clear(&mut self) where T: Default
        requires
            old(self).valid(),
        ensures
            final(self).valid(),
            final(self).spec_capacity() == old(self).spec_capacity(),
            final(self)@ == Seq::<T>::empty(),
    {
        let ghost capacity = self.spec_capacity();
        while !self.is_empty()
            invariant
                self.valid(),
                self.spec_capacity() == capacity,
            decreases self@.len(),
        {
            let _ = self.pop_front();
        }
        assert(self@ =~= Seq::<T>::empty());
    }
}

impl<T: Default + Clone> Default for RingBuffer<T> {
    fn default() -> (ring: Self)
        ensures
            ring.valid(),
            ring@ == Seq::<T>::empty(),
            ring.spec_capacity() == 128,
    {
        Self::new(128)
    }
}

/// Elements leave a ring buffer in the order in which they were appended: to
/// append one does not change which one leaves first, and one that was put in
/// front leaves first.
pub proof fn law_first_in_first_out<T>(elements: Seq<T>, value: T)
    ensures
        elements.len() > 0 ==> elements.push(value)[0] == elements[0] && elements.push(value).skip(
            1,
        ) == elements.skip(1).push(value),
        (seq![value] + elements)[0] == value,
        (seq![value] + elements).skip(1) == elements,
{
    if elements.len() > 0 {
        assert(elements.push(value).skip(1) =~= elements.skip(1).push(value));
    }
    assert((seq![value] + elements).skip(1) =~= elements);
}

/// The elements after one more is appended, where it fits.
pub open spec fn appended<T>(elements: Seq<T>, capacity: nat, value: T) -> Seq<T> {
    if elements.len() < capacity {
        elements.push(value)
    } else {
        elements
    }
}

/// The elements after one more is put in front, where it fits.
pub open spec fn put_in_front<T>(elements: Seq<T>, capacity: nat, value: T) -> Seq<T> {
    if elements.len() < capacity {
        seq![value] + elements
    } else {
        elements
    }
}

/// The elements after the first was taken out.
pub open spec fn taken_out<T>(elements: Seq<T>) -> Seq<T> {
    if elements.len() > 0 {
        elements.skip(1)
    } else {
        elements
    }
}

/// The elements after all values were appended, one after the other.
pub open spec fn all_appended<T>(elements: Seq<T>, capacity: nat, values: Seq<T>) -> Seq<T>
    decreases values.len(),
{
    if values.len() == 0 {
        elements
    } else {
        appended(
            all_appended(elements, capacity, values.drop_last()),
            capacity,
            values.last(),
        )
    }
}

/// The elements after so many were taken out.
pub open spec fn many_taken_out<T>(elements: Seq<T>, count: nat) -> Seq<T>
    decreases count,
{
    if count == 0 {
        elements
    } else {
        taken_out(many_taken_out(elements, (count - 1) as nat))
    }
}

/// A ring buffer is a queue: all values that fit are kept in the order in which they
/// were appended, behind those that were there, and they leave it in that order; what
/// is put in front leaves first; and what does not fit changes nothing.
pub proof fn law_ring_is_a_queue<T>(
    elements: Seq<T>,
    capacity: nat,
    values: Seq<T>,
    value: T,
    i: int,
)
    requires
        elements.len() + values.len() <= capacity,
        0 <= i < elements.len() + values.len(),
    ensures
        all_appended(elements, capacity, values) == elements + values,
        many_taken_out(all_appended(elements, capacity, values), i as nat)[0] == (elements
            + values)[i],
        elements.len() < capacity ==> put_in_front(elements, capacity, value)[0] == value
            && taken_out(put_in_front(elements, capacity, value)) == elements,
        appended(elements, elements.len(), value) == elements,
        put_in_front(elements, elements.len(), value) == elements,
        taken_out(Seq::<T>::empty()) == Seq::<T>::empty(),
{
    lemma_appended(elements, capacity, values);
    lemma_taken(elements + values, i as nat);
    assert(taken_out(seq![value] + elements) =~= elements);
}

proof fn lemma_appended<T>(elements: Seq<T>, capacity: nat, values: Seq<T>)
    requires
        elements.len() + values.len() <= capacity,
    ensures
        all_appended(elements, capacity, values) == elements + values,
    decreases values.len(),
{
    if values.len() == 0 {
        assert(elements + values =~= elements);
    } else {
        lemma_appended(elements, capacity, values.drop_last());
        assert((elements + values.drop_last()).push(values.last()) =~= elements + values);
    }
}

proof fn lemma_taken<T>(elements: Seq<T>, count: nat)
    requires
        count <= elements.len(),
    ensures
        many_taken_out(elements, count) == elements.skip(count as int),
    decreases count,
{
    if count == 0 {
        assert(elements.skip(0) =~= elements);
    } else {
        lemma_taken(elements, (count - 1) as nat);
        assert(elements.skip(count - 1).skip(1) =~= elements.skip(count as int));
    }
}

} // verus!
