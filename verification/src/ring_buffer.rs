//! A fixed-capacity circular store with a read and a write cursor.

use vstd::prelude::*;
use crate::error::InvalidCapacity;
use crate::fixed::Fixed;

verus! {

/// What a ring buffer holds: its slots and the positions of its two cursors.
pub struct RingModel<T> {
    pub slots: Seq<T>,
    pub read: int,
    pub write: int,
}

impl<T> RingModel<T> {
    /// At least one slot, and both cursors on a slot.
    pub open spec fn wf(self) -> bool {
        &&& self.slots.len() >= 1
        &&& 0 <= self.read < self.slots.len()
        &&& 0 <= self.write < self.slots.len()
    }

    /// Number of slots.
    pub open spec fn capacity(self) -> int {
        self.slots.len() as int
    }

    /// Number of samples between the read cursor and the write cursor.
    pub open spec fn len(self) -> int {
        (self.write - self.read) % self.capacity()
    }

    /// The slot under the read cursor.
    pub open spec fn peek(self) -> T {
        self.slots[self.read]
    }

    /// The slot `offset` places after the read cursor, going round.
    pub open spec fn get(self, offset: int) -> T {
        self.slots[(self.read + offset) % self.capacity()]
    }

    /// `value` written under the write cursor; no cursor moves.
    pub open spec fn put(self, value: T) -> Self {
        RingModel { slots: self.slots.update(self.write, value), ..self }
    }

    /// `value` written under the write cursor, which then advances; a read
    /// cursor that the write cursor lands on advances too.
    pub open spec fn push(self, value: T) -> Self {
        let write = (self.write + 1) % self.capacity();
        let read = if write == self.read {
            (self.read + 1) % self.capacity()
        } else {
            self.read
        };
        RingModel { slots: self.slots.update(self.write, value), read, write }
    }

    /// The read cursor advanced by one slot.
    pub open spec fn pop(self) -> Self {
        RingModel { read: (self.read + 1) % self.capacity(), ..self }
    }

    /// The read cursor put on slot `index`, taken modulo the capacity.
    pub open spec fn set_read(self, index: int) -> Self {
        RingModel { read: index % self.capacity(), ..self }
    }

    /// The write cursor put on slot `index`, taken modulo the capacity.
    pub open spec fn set_write(self, index: int) -> Self {
        RingModel { write: index % self.capacity(), ..self }
    }

    /// The slots in the order in which they were written: the slot under the
    /// write cursor, which is the next to be overwritten, comes first, and
    /// the one written last comes last.
    pub open spec fn history(self) -> Seq<T> {
        Seq::new(self.slots.len(), |j: int| self.slots[(self.write + j) % self.capacity()])
    }

    /// The values of `values` pushed one after the other, first one first.
    pub open spec fn push_all(self, values: Seq<T>) -> Self
        decreases values.len(),
    {
        if values.len() == 0 {
            self
        } else {
            self.push_all(values.drop_last()).push(values.last())
        }
    }
}

/// The number of samples held is less than the capacity.
pub proof fn lemma_len_below_capacity<T>(m: RingModel<T>)
    requires
        m.wf(),
    ensures
        0 <= m.len() < m.capacity(),
{
    crate::modular::lemma_mod_range(m.write - m.read, m.capacity());
}

/// A push drops the oldest sample of the history and appends the new one.
pub proof fn lemma_history_push<T>(m: RingModel<T>, value: T)
    requires
        m.wf(),
    ensures
        m.push(value).history() == m.history().drop_first().push(value),
{
    let n: int = m.capacity();
    let r: RingModel<T> = m.push(value);
    crate::modular::lemma_mod_range(m.write + 1, n);
    assert forall|j: int| 0 <= j < n implies r.history()[j] == m.history().drop_first().push(
        value,
    )[j] by {
        crate::modular::lemma_mod_add_left(m.write + 1, j, n);
        if j < n - 1 {
            crate::modular::lemma_mod_distinct(m.write, 1 + j, n);
            crate::modular::lemma_mod_small(m.write, n);
        } else {
            crate::modular::lemma_mod_congruent(m.write + 1 + j, m.write, 1, n);
            crate::modular::lemma_mod_small(m.write, n);
        }
    }
    assert(r.history() =~= m.history().drop_first().push(value));
}

/// With the read cursor `delay` slots behind the write cursor, the sample
/// read is the one `delay` places from the end of the history, and the one
/// at its start for a delay of zero.
pub proof fn lemma_history_tap<T>(m: RingModel<T>, delay: int)
    requires
        m.wf(),
        0 <= delay < m.capacity(),
    ensures
        m.set_read(m.write + m.capacity() - delay).peek() == m.history()[(m.capacity() - delay)
            % m.capacity()],
        m.set_read(m.write + m.capacity() - delay).history() == m.history(),
{
    let n: int = m.capacity();
    crate::modular::lemma_mod_range(n - delay, n);
    crate::modular::lemma_mod_range(m.write + n - delay, n);
    crate::modular::lemma_mod_add_right(m.write, n - delay, n);
    assert(m.set_read(m.write + n - delay).history() =~= m.history());
}

/// With the read cursor on the sample written last, a read `k` slots from it
/// gives the history `k` places from its end, going round.
pub proof fn lemma_history_read<T>(m: RingModel<T>, k: int)
    requires
        m.wf(),
        m.read == (m.write + m.capacity() - 1) % m.capacity(),
    ensures
        m.get(k) == m.history()[(m.capacity() - 1 + k) % m.capacity()],
{
    let n: int = m.capacity();
    crate::modular::lemma_mod_range(n - 1 + k, n);
    crate::modular::lemma_mod_add_left(m.write + n - 1, k, n);
    crate::modular::lemma_mod_add_right(m.write, n - 1 + k, n);
}

/// What a run of pushes leaves: the capacity is kept, the write cursor has
/// gone forward by their number, and each of the last `capacity` values pushed
/// lies where the write cursor stood when it came. Once the write cursor has
/// caught up with the read cursor, the read cursor stays one slot ahead of it,
/// and after `capacity` pushes it has.
pub proof fn lemma_push_all<T>(m: RingModel<T>, values: Seq<T>)
    requires
        m.wf(),
    ensures
        m.push_all(values).wf(),
        m.push_all(values).capacity() == m.capacity(),
        m.push_all(values).write == (m.write + values.len()) % m.capacity(),
        forall|i: int|
            0 <= i < values.len() && values.len() - m.capacity() <= i ==> m.push_all(values).slots[(
            m.write + i) % m.capacity()] == #[trigger] values[i],
        m.push_all(values).read == (m.push_all(values).write + 1) % m.capacity() || (m.push_all(
            values,
        ).read == m.read && forall|i: int|
            1 <= i <= values.len() ==> #[trigger] ((m.write + i) % m.capacity()) != m.read),
        values.len() >= m.capacity() ==> m.push_all(values).read == (m.push_all(values).write + 1)
            % m.capacity(),
    decreases values.len(),
{
    let n: int = m.capacity();
    let k: int = values.len() as int;
    let r: RingModel<T> = m.push_all(values);
    if k == 0 {
        crate::modular::lemma_mod_small(m.write, n);
    } else {
        let front: Seq<T> = values.drop_last();
        let p: RingModel<T> = m.push_all(front);
        lemma_push_all(m, front);
        assert(r == p.push(values.last()));
        crate::modular::lemma_mod_range(p.write + 1, n);
        crate::modular::lemma_mod_range(p.read + 1, n);
        crate::modular::lemma_mod_add_left(m.write + (k - 1), 1, n);
        assert(r.write == (m.write + k) % n);
        assert forall|i: int| 0 <= i < k && k - n <= i implies r.slots[(m.write + i) % n]
            == #[trigger] values[i] by {
            crate::modular::lemma_mod_range(m.write + i, n);
            if i < k - 1 {
                crate::modular::lemma_mod_distinct(m.write + i, k - 1 - i, n);
                assert(front[i] == values[i]);
            }
        }
        if p.read == (p.write + 1) % n {
            assert(r.read == (r.write + 1) % n);
        } else if r.write == p.read {
            assert(r.read == (r.write + 1) % n);
        } else {
            assert forall|i: int| 1 <= i <= k implies #[trigger] ((m.write + i) % n) != m.read by {
                if i == k {
                } else {
                    assert((m.write + i) % n != m.read);
                }
            }
        }
        if k >= n && r.read != (r.write + 1) % n {
            let gap: int = (m.read - m.write - 1) % n + 1;
            crate::modular::lemma_mod_range(m.read - m.write - 1, n);
            crate::modular::lemma_mod_add_right(m.write + 1, m.read - m.write - 1, n);
            crate::modular::lemma_mod_small(m.read, n);
            assert((m.write + gap) % n == m.read);
            assert(false);
        }
    }
}

/// After at least `capacity` pushes the buffer holds `capacity - 1` samples,
/// and reading forward from the read cursor gives the most recent
/// `capacity - 1` values in the order they were pushed; the one slot left,
/// under the write cursor, holds the value pushed just before those.
pub proof fn lemma_wraparound<T>(m: RingModel<T>, values: Seq<T>)
    requires
        m.wf(),
        values.len() >= m.capacity(),
    ensures
        m.push_all(values).len() == m.capacity() - 1,
        forall|i: int|
            0 <= i < m.capacity() - 1 ==> #[trigger] m.push_all(values).get(i) == values[values.len()
                - (m.capacity() - 1) + i],
        m.push_all(values).get(m.capacity() - 1) == values[values.len() - m.capacity()],
{
    let n: int = m.capacity();
    let k: int = values.len() as int;
    let r: RingModel<T> = m.push_all(values);
    lemma_push_all(m, values);
    crate::modular::lemma_mod_range(m.write + k, n);
    crate::modular::lemma_mod_once(r.write + 1, n);
    crate::modular::lemma_mod_once_below(r.write - r.read, n);
    assert(r.len() == n - 1);
    assert forall|i: int| 0 <= i < n - 1 implies #[trigger] r.get(i) == values[k - (n - 1) + i] by {
        let j: int = k - (n - 1) + i;
        crate::modular::lemma_mod_add_left(r.write + 1, i, n);
        crate::modular::lemma_mod_add_left(m.write + k, 1 + i, n);
        crate::modular::lemma_mod_congruent(m.write + k + 1 + i, m.write + j, 1, n);
        assert((r.read + i) % n == (m.write + j) % n);
        assert(r.slots[(m.write + j) % n] == values[j]);
    }
    assert(r.get(n - 1) == values[k - n]) by {
        crate::modular::lemma_mod_add_left(r.write + 1, n - 1, n);
        crate::modular::lemma_mod_add_left(m.write + k, n, n);
        crate::modular::lemma_mod_congruent(m.write + k + n, m.write + (k - n), 2, n);
        assert((r.read + (n - 1)) % n == (m.write + (k - n)) % n);
        assert(r.slots[(m.write + (k - n)) % n] == values[k - n]);
    }
}

impl RingModel<Fixed> {
    /// The sample at a fractional place after the read cursor: between the
    /// slot at the floor of `offset` and the next one, by the fraction.
    /// `offset` is a scaled integer, and may be negative.
    pub open spec fn get_fractional(self, offset: int) -> Fixed {
        let whole = offset / Fixed::scale();
        let part = Fixed { raw: (offset % Fixed::scale()) as i64 };
        self.get(whole).lerp_spec(self.get(whole + 1), part)
    }
}

/// A fractional read at a whole offset is the plain read at that offset.
pub proof fn lemma_fractional_at_whole(m: RingModel<Fixed>, k: int)
    ensures
        m.get_fractional(k * Fixed::scale()) == m.get(k),
{
    crate::modular::lemma_div_mod_unique(k * Fixed::scale(), Fixed::scale(), k, 0);
    crate::fixed::lemma_lerp_at_zero(m.get(k), m.get(k + 1));
}

/// A fractional read half way between two whole offsets is the mean of the
/// two plain reads, rounded down to the next step.
pub proof fn lemma_fractional_at_half(m: RingModel<Fixed>, k: int)
    ensures
        m.get_fractional(k * Fixed::scale() + Fixed::scale() / 2)@ == (m.get(k)@ + m.get(k + 1)@) / 2,
{
    let s: int = Fixed::scale();
    let a: int = m.get(k)@;
    let b: int = m.get(k + 1)@;
    crate::modular::lemma_div_mod_unique(k * s + s / 2, s, k, s / 2);
    crate::fixed::lemma_lerp_between(m.get(k), m.get(k + 1), Fixed { raw: (s / 2) as i64 });
    crate::modular::lemma_div_mod(b - a, 2);
    let q: int = (b - a) / 2;
    let r: int = (b - a) % 2;
    assert((b - a) * (s / 2) == q * s + r * (s / 2)) by (nonlinear_arith)
        requires
            b - a == q * 2 + r,
            s == 0x1_0000_0000,
    ;
    crate::modular::lemma_div_mod_unique((b - a) * (s / 2), s, q, r * (s / 2));
    crate::modular::lemma_div_mod_unique(a + b, 2, a + q, r);
}

/// A circular buffer of `capacity` slots.
pub struct RingBuffer<T> {
    buffer: Vec<T>,
    read_index: usize,
    write_index: usize,
}

impl<T> View for RingBuffer<T> {
    type V = RingModel<T>;

    closed spec fn view(&self) -> RingModel<T> {
        RingModel {
            slots: self.buffer@,
            read: self.read_index as int,
            write: self.write_index as int,
        }
    }
}

impl<T> RingBuffer<T> {
    #[verifier::type_invariant]
    spec fn inv(self) -> bool {
        self@.wf()
    }
}

impl<T: Copy + Default> RingBuffer<T> {
    /// A buffer of `capacity` slots, each holding the default value, with
    /// both cursors on the first slot.
    pub fn new(capacity: usize) -> (r: Result<Self, InvalidCapacity>)
        ensures
            r is Ok <==> capacity > 0,
            r matches Ok(b) ==> {
                &&& b@.wf()
                &&& b@.capacity() == capacity
                &&& b@.read == 0
                &&& b@.write == 0
                &&& forall|i: int| 0 <= i < capacity ==> call_ensures(T::default, (), #[trigger] b@.slots[i])
            },
    {
        if capacity == 0 {
            return Err(InvalidCapacity);
        }
        let mut buffer: Vec<T> = Vec::with_capacity(capacity);
        let mut i: usize = 0;
        while i < capacity
            invariant
                i <= capacity,
                buffer@.len() == i,
                forall|j: int| 0 <= j < i ==> call_ensures(T::default, (), #[trigger] buffer@[j]),
            decreases capacity - i,
        {
            buffer.push(T::default());
            i = i + 1;
        }
        Ok(RingBuffer { buffer, read_index: 0, write_index: 0 })
    }

    /// Every slot back to the default value and both cursors back to the
    /// first slot.
    pub fn reset(&mut self)
        ensures
            final(self)@.wf(),
            final(self)@.capacity() == old(self)@.capacity(),
            final(self)@.read == 0,
            final(self)@.write == 0,
            forall|i: int| 0 <= i < final(self)@.capacity() ==> call_ensures(T::default, (), #[trigger] final(self)@.slots[i]),
    {
        proof {
            use_type_invariant(&*self);
        }
        self.read_index = 0;
        self.write_index = 0;
        let n: usize = self.buffer.len();
        let mut i: usize = 0;
        while i < n
            invariant
                i <= n,
                n == self.buffer@.len(),
                n >= 1,
                self.read_index == 0,
                self.write_index == 0,
                forall|j: int| 0 <= j < i ==> call_ensures(T::default, (), #[trigger] self.buffer@[j]),
            decreases n - i,
        {
            self.buffer[i] = T::default();
            i = i + 1;
        }
    }

    /// Writes under the write cursor without moving it.
    pub fn put(&mut self, value: T)
        ensures
            final(self)@ == old(self)@.put(value),
            final(self)@.wf(),
    {
        proof {
            use_type_invariant(&*self);
        }
        self.buffer[self.write_index] = value;
    }

    /// Reads under the read cursor without moving it.
    pub fn peek(&self) -> (r: T)
        ensures
            r == self@.peek(),
            self@.wf(),
    {
        proof {
            use_type_invariant(self);
        }
        self.buffer[self.read_index]
    }

    /// Reads `offset` slots after the read cursor, going round, without
    /// moving it.
    pub fn get(&self, offset: usize) -> (r: T)
        ensures
            r == self@.get(offset as int),
            self@.wf(),
    {
        proof {
            use_type_invariant(self);
        }
        let index: usize = self.slot_after(self.read_index, offset);
        self.buffer[index]
    }

    /// Writes under the write cursor and advances it; the oldest sample is
    /// dropped when the write cursor catches up with the read cursor.
    pub fn push(&mut self, value: T)
        ensures
            final(self)@ == old(self)@.push(value),
            final(self)@.wf(),
    {
        proof {
            use_type_invariant(&*self);
        }
        self.buffer[self.write_index] = value;
        let write: usize = self.slot_after(self.write_index, 1);
        self.write_index = write;
        if self.write_index == self.read_index {
            let read: usize = self.slot_after(self.read_index, 1);
            self.read_index = read;
        }
    }

    /// Reads under the read cursor and advances it.
    pub fn pop(&mut self) -> (r: T)
        ensures
            r == old(self)@.peek(),
            final(self)@ == old(self)@.pop(),
            final(self)@.wf(),
    {
        proof {
            use_type_invariant(&*self);
        }
        let value: T = self.buffer[self.read_index];
        let read: usize = self.slot_after(self.read_index, 1);
        self.read_index = read;
        value
    }

    /// The slot that the read cursor is on.
    pub fn get_read_index(&self) -> (r: usize)
        ensures
            r == self@.read,
            self@.wf(),
    {
        proof {
            use_type_invariant(self);
        }
        self.read_index
    }

    /// Puts the read cursor on slot `index`, taken modulo the capacity.
    pub fn set_read_index(&mut self, index: usize)
        ensures
            final(self)@ == old(self)@.set_read(index as int),
            final(self)@.wf(),
    {
        proof {
            use_type_invariant(&*self);
        }
        self.read_index = index % self.buffer.len();
    }

    /// The slot that the write cursor is on.
    pub fn get_write_index(&self) -> (r: usize)
        ensures
            r == self@.write,
            self@.wf(),
    {
        proof {
            use_type_invariant(self);
        }
        self.write_index
    }

    /// Puts the write cursor on slot `index`, taken modulo the capacity.
    pub fn set_write_index(&mut self, index: usize)
        ensures
            final(self)@ == old(self)@.set_write(index as int),
            final(self)@.wf(),
    {
        proof {
            use_type_invariant(&*self);
        }
        self.write_index = index % self.buffer.len();
    }

    /// Number of samples between the read cursor and the write cursor.
    pub fn len(&self) -> (r: usize)
        ensures
            r == self@.len(),
            r < self@.capacity(),
            self@.wf(),
    {
        proof {
            use_type_invariant(self);
            crate::modular::lemma_mod_once_below(
                self.write_index - self.read_index,
                self.buffer@.len() as int,
            );
        }
        if self.write_index >= self.read_index {
            self.write_index - self.read_index
        } else {
            self.buffer.len() - self.read_index + self.write_index
        }
    }

    /// Number of slots.
    pub fn capacity(&self) -> (r: usize)
        ensures
            r == self@.capacity(),
            r >= 1,
            self@.wf(),
    {
        proof {
            use_type_invariant(self);
        }
        self.buffer.len()
    }

    /// The slot `offset` places after slot `from`, going round.
    fn slot_after(&self, from: usize, offset: usize) -> (r: usize)
        requires
            from < self@.capacity(),
        ensures
            r == (from + offset) % self@.capacity(),
            r < self@.capacity(),
    {
        let n: usize = self.buffer.len();
        let step: usize = offset % n;
        proof {
            crate::modular::lemma_mod_add_right(from as int, offset as int, n as int);
            crate::modular::lemma_mod_once(from + step, n as int);
        }
        if step >= n - from {
            step - (n - from)
        } else {
            from + step
        }
    }
}

impl RingBuffer<Fixed> {
    /// Reads at a fractional place after the read cursor, going round:
    /// between the slot at the floor of `offset` and the next one, in
    /// proportion to the fraction. No cursor moves.
    pub fn get_fractional(&self, offset: Fixed) -> (r: Fixed)
        ensures
            r == self@.get_fractional(offset@),
            self@.wf(),
    {
        proof {
            use_type_invariant(self);
        }
        let whole: i64 = offset.floor();
        let part: Fixed = offset.fract();
        let first: usize = self.slot_at(whole);
        let second: usize = self.slot_after(first, 1);
        proof {
            crate::modular::lemma_mod_add_left(self.read_index + whole, 1, self.buffer@.len() as int);
        }
        let from: Fixed = self.buffer[first];
        let to: Fixed = self.buffer[second];
        from.lerp(to, part)
    }

    /// The slot `offset` places from the read cursor, forward or backward,
    /// going round.
    fn slot_at(&self, offset: i64) -> (r: usize)
        ensures
            r == (self@.read + offset) % self@.capacity(),
            r < self@.capacity(),
    {
        proof {
            use_type_invariant(self);
        }
        let n: u64 = self.buffer.len() as u64;
        let ghost m: int = n as int;
        let step: u64 = if offset >= 0 {
            let forward: u64 = offset as u64 % n;
            proof {
                crate::modular::lemma_mod_add_right(self.read_index as int, offset as int, m);
            }
            forward
        } else {
            let back: u64 = (-(offset + 1)) as u64;
            let rest: u64 = back % n;
            proof {
                crate::modular::lemma_div_mod(back as int, m);
                let q: int = back as int / m;
                assert((-q - 1) * m == -(q * m) - m) by (nonlinear_arith);
                crate::modular::lemma_mod_congruent(
                    self.read_index + offset,
                    self.read_index + (m - 1 - rest),
                    -(back as int / m) - 1,
                    m,
                );
            }
            n - 1 - rest
        };
        self.slot_after(self.read_index, step as usize)
    }
}

} // verus!
