//! Bounded first-in first-out ring of MIDI events between the input side and the
//! synthesizer.
//!
//! Head and tail are free-running indices that wrap with the machine word; a slot is found
//! by masking an index with `capacity - 1`, so the capacity is a power of two. One slot is
//! always left empty, which tells a full ring from an empty one. Nothing is allocated after
//! construction, and an event that finds the ring full is dropped.

use vstd::prelude::*;
use vstd::arithmetic::div_mod::{
    lemma_fundamental_div_mod, lemma_mod_add_multiples_vanish, lemma_mod_equivalence, lemma_mod_multiples_basic,
    lemma_mod_multiples_vanish, lemma_mod_sub_multiples_vanish, lemma_small_mod,
};
use vstd::arithmetic::power::pow;
use vstd::arithmetic::power2::{
    is_pow2, is_pow2_equiv, lemma_pow2, lemma_pow2_adds, lemma_pow2_pos,
    lemma_pow2_strictly_increases, lemma_pow2_unfold, pow2,
};
use vstd::bits::lemma_usize_low_bits_mask_is_mod;

use crate::midi::MidiEvent;

verus! {

/// A ring of MIDI events. Its view is the queued events, oldest first.
pub struct EventRing {
    /// Slot storage, one slot per index modulo the capacity.
    buffer: Vec<Option<MidiEvent>>,
    /// Capacity minus one.
    mask: usize,
    /// Index of the oldest event.
    head: usize,
    /// Index of the slot that the next event goes to.
    tail: usize,
}

/// Number of values of a machine word.
pub open spec fn word_range() -> int {
    usize::MAX + 1
}

/// How far the free-running index `tail` is ahead of `head`.
pub open spec fn distance(head: usize, tail: usize) -> int {
    if tail >= head {
        tail - head
    } else {
        tail - head + word_range()
    }
}

/// The slot of the `i`th event behind `head`.
spec fn slot_at(head: usize, i: int, mask: usize) -> int {
    (head + i) % (mask + 1)
}

/// All the slots that the indices from `head` on hold an event, `n` of them.
spec fn occupied(buffer: Seq<Option<MidiEvent>>, mask: usize, head: usize, n: int) -> bool {
    forall|i: int| 0 <= i < n ==> buffer[#[trigger] slot_at(head, i, mask)] is Some
}

impl EventRing {
    /// The number of slots, a power of two.
    pub closed spec fn spec_capacity(&self) -> int {
        self.mask + 1
    }

    spec fn queued(&self) -> int {
        distance(self.head, self.tail)
    }

    #[verifier::type_invariant]
    spec fn well_formed(&self) -> bool {
        &&& is_pow2(self.mask + 1)
        &&& self.mask < usize::MAX
        &&& self.buffer@.len() == self.mask + 1
        &&& self.queued() <= self.mask
        &&& occupied(self.buffer@, self.mask, self.head, self.queued())
    }
}

impl View for EventRing {
    type V = Seq<MidiEvent>;

    closed spec fn view(&self) -> Seq<MidiEvent> {
        Seq::new(self.queued() as nat, |i: int| self.buffer@[slot_at(self.head, i, self.mask)]->0)
    }
}

/// `p` is the smallest power of two that is at least `n`.
pub open spec fn rounds_up_to(n: int, p: int) -> bool {
    &&& is_pow2(p)
    &&& n <= p
    &&& forall|q: int| #[trigger] is_pow2(q) && n <= q ==> p <= q
}

/// The queue after one event is offered to a ring of `capacity` slots: one slot stays
/// empty, and an event that finds no room is dropped.
pub open spec fn offered(queue: Seq<MidiEvent>, capacity: int, event: MidiEvent) -> Seq<MidiEvent> {
    if queue.len() < capacity - 1 {
        queue.push(event)
    } else {
        queue
    }
}

/// How many of `n` events a ring of `capacity` slots takes while it holds `queued`.
pub open spec fn room(queued: int, capacity: int, n: int) -> int {
    if n <= capacity - 1 - queued {
        n
    } else {
        capacity - 1 - queued
    }
}

/// An upper bound on the bytes of one slot, as a power of two.
pub const SLOT_BYTES: usize = 32;

/// Masking an index is taking it modulo the capacity, and the word range is a multiple of
/// the capacity, so that wrapping an index keeps its slot.
proof fn lemma_mask(x: usize, mask: usize)
    requires
        is_pow2(mask + 1),
        mask < usize::MAX,
    ensures
        x & mask == x as int % (mask + 1),
        word_range() % (mask + 1) == 0,
{
    is_pow2_equiv(mask + 1);
    let k = choose|k: nat| pow(2, k) == mask + 1;
    lemma_pow2(k);
    vstd::layout::unsigned_int_max_values();
    let bits = usize::BITS as nat;
    if k >= bits {
        if k > bits {
            lemma_pow2_strictly_increases(bits, k);
        }
        assert(false);
    }
    lemma_usize_low_bits_mask_is_mod(x, k);
    let rest = (bits - k) as nat;
    lemma_pow2_adds(rest, k);
    lemma_pow2_pos(k);
    lemma_mod_multiples_basic(pow2(rest) as int, pow2(k) as int);
}

/// Adding a multiple of the word range to an index does not move its slot.
proof fn lemma_wrap_keeps_slot(x: int, capacity: int)
    requires
        capacity > 0,
        word_range() % capacity == 0,
    ensures
        (x - word_range()) % capacity == x % capacity,
        (x + word_range()) % capacity == x % capacity,
{
    lemma_mod_sub_multiples_vanish(x, capacity);
    let k = word_range() / capacity;
    lemma_fundamental_div_mod(word_range(), capacity);
    lemma_mod_multiples_vanish(k, x, capacity);
    lemma_mod_multiples_vanish(-k, x, capacity);
    assert(capacity * (-k) + x == x - word_range()) by (nonlinear_arith)
        requires
            word_range() == capacity * k,
    ;
}

/// Two indices less than a capacity apart share a slot only if they are equal.
proof fn lemma_slots_distinct(x: int, i: int, j: int, capacity: int)
    requires
        capacity > 0,
        0 <= i < capacity,
        0 <= j < capacity,
        (x + i) % capacity == (x + j) % capacity,
    ensures
        i == j,
{
    lemma_mod_equivalence(x + i, x + j, capacity);
    let d = i - j;
    assert(d % capacity == 0);
    if d > 0 {
        lemma_small_mod(d as nat, capacity as nat);
    } else if d < 0 {
        lemma_mod_multiples_vanish(1, d, capacity);
        lemma_small_mod((d + capacity) as nat, capacity as nat);
    }
}

/// The next power of two above half of `p` is `p`.
proof fn lemma_pow2_gap(p: int, q: int)
    requires
        is_pow2(p),
        is_pow2(q),
        p < 2 * q,
    ensures
        p <= q,
{
    is_pow2_equiv(p);
    is_pow2_equiv(q);
    let i = choose|i: nat| pow(2, i) == p;
    let j = choose|j: nat| pow(2, j) == q;
    lemma_pow2(i);
    lemma_pow2(j);
    if i > j {
        lemma_pow2_unfold(j + 1);
        if i > j + 1 {
            lemma_pow2_strictly_increases(j + 1, i);
        }
        assert(false);
    }
    if i < j {
        lemma_pow2_strictly_increases(i, j);
    }
}

impl EventRing {
    /// A new, empty ring of `capacity` slots, rounded up to a power of two.
    ///
    /// The slots have to fit into one allocation.
    pub fn new(capacity: usize) -> (ring: EventRing)
        requires
            capacity * SLOT_BYTES <= isize::MAX + 1,
        ensures
            ring@ == Seq::<MidiEvent>::empty(),
            rounds_up_to(capacity as int, ring.spec_capacity()),
    {
        let mut cap: usize = 1;
        proof {
            reveal(is_pow2);
            assert(is_pow2(1));
        }
        while cap < capacity
            invariant
                capacity * SLOT_BYTES <= isize::MAX + 1,
                is_pow2(cap as int),
                cap >= 1,
                cap == 1 || cap < 2 * capacity,
            decreases (if cap < capacity { capacity - cap } else { 0 }),
        {
            proof {
                reveal(is_pow2);
                assert(is_pow2(2 * cap as int));
            }
            cap = cap * 2;
        }
        proof {
            assert forall|q: int| #[trigger] is_pow2(q) && capacity <= q implies cap <= q by {
                if cap == 1 {
                    reveal(is_pow2);
                } else {
                    lemma_pow2_gap(cap as int, q);
                }
            }
        }
        let mut buffer: Vec<Option<MidiEvent>> = Vec::with_capacity(cap);
        for i in 0..cap
            invariant
                buffer@.len() == i,
        {
            buffer.push(None);
        }
        let ring = EventRing { buffer, mask: cap - 1, head: 0, tail: 0 };
        assert(ring@ =~= Seq::<MidiEvent>::empty());
        ring
    }

    /// Push an event into the ring. Returns `false`, and drops the event, if the ring is
    /// full.
    pub fn push(&mut self, event: MidiEvent) -> (pushed: bool)
        ensures
            pushed == (old(self)@.len() < old(self).spec_capacity() - 1),
            final(self)@ == offered(old(self)@, old(self).spec_capacity(), event),
            final(self)@.len() < final(self).spec_capacity(),
            final(self).spec_capacity() == old(self).spec_capacity(),
    {
        proof {
            use_type_invariant(&*self);
        }
        let ghost before = *self;
        let ghost capacity = self.spec_capacity();
        let ghost n = self.queued();
        let next_tail: usize = self.tail.wrapping_add(1);
        proof {
            lemma_mask(next_tail, self.mask);
            lemma_mask(self.head, self.mask);
            lemma_mask(self.tail, self.mask);
            lemma_wrap_keeps_slot(self.tail + 1, capacity);
            lemma_wrap_keeps_slot(self.head + n, capacity);
            lemma_wrap_keeps_slot(self.head + n + 1, capacity);
            assert((self.tail & self.mask) as int == slot_at(self.head, n, self.mask));
            assert((next_tail & self.mask) as int == (self.head + n + 1) % capacity);
            if n == self.mask {
                lemma_mod_add_multiples_vanish(self.head as int, capacity);
                assert((next_tail & self.mask) == (self.head & self.mask));
            } else if (next_tail & self.mask) == (self.head & self.mask) {
                lemma_slots_distinct(self.head as int, n + 1, 0, capacity);
            }
        }
        if (next_tail & self.mask) == (self.head & self.mask) {
            return false;
        }
        let idx: usize = self.tail & self.mask;
        proof {
            assert forall|i: int| 0 <= i < n implies #[trigger] slot_at(self.head, i, self.mask) != idx by {
                if slot_at(self.head, i, self.mask) == idx {
                    lemma_slots_distinct(self.head as int, i, n, capacity);
                }
            }
        }
        self.buffer[idx] = Some(event);
        self.tail = next_tail;
        assert(self@ =~= before@.push(event));
        true
    }

    /// Pop the oldest event, or `None` if the ring is empty.
    pub fn pop(&mut self) -> (popped: Option<MidiEvent>)
        ensures
            old(self)@.len() == 0 ==> popped is None && final(self)@ == old(self)@,
            old(self)@.len() > 0 ==> popped == Some(old(self)@[0])
                && final(self)@ == old(self)@.drop_first(),
            final(self).spec_capacity() == old(self).spec_capacity(),
    {
        proof {
            use_type_invariant(&*self);
        }
        let ghost before = *self;
        let ghost capacity = self.spec_capacity();
        let ghost n = self.queued();
        let next_head: usize = self.head.wrapping_add(1);
        proof {
            lemma_mask(self.head, self.mask);
            lemma_mask(self.tail, self.mask);
            lemma_wrap_keeps_slot(self.head + n, capacity);
            assert((self.tail & self.mask) as int == slot_at(self.head, n, self.mask));
            assert((self.head & self.mask) as int == slot_at(self.head, 0, self.mask));
            if (self.head & self.mask) == (self.tail & self.mask) {
                lemma_slots_distinct(self.head as int, n, 0, capacity);
            }
        }
        if (self.head & self.mask) == (self.tail & self.mask) {
            return None;
        }
        let idx: usize = self.head & self.mask;
        let event = self.buffer[idx];
        proof {
            assert forall|i: int| 0 <= i < n - 1 implies #[trigger] slot_at(next_head, i, self.mask) == slot_at(
                self.head,
                i + 1,
                self.mask,
            ) && slot_at(next_head, i, self.mask) != idx by {
                lemma_wrap_keeps_slot(self.head + 1 + i, capacity);
                if slot_at(self.head, i + 1, self.mask) == idx {
                    lemma_slots_distinct(self.head as int, i + 1, 0, capacity);
                }
            }
        }
        self.head = next_head;
        self.buffer[idx] = None;
        assert(self@ =~= before@.drop_first());
        event
    }

    /// Drain the oldest events into `out`, as many as it holds. Returns their number; the
    /// rest of `out` stays as it was.
    pub fn drain_into(&mut self, out: &mut [MidiEvent]) -> (count: usize)
        ensures
            count == (if old(out)@.len() < old(self)@.len() {
                old(out)@.len()
            } else {
                old(self)@.len()
            }),
            final(out)@ == old(self)@.take(count as int) + old(out)@.skip(count as int),
            final(self)@ == old(self)@.skip(count as int),
            final(self).spec_capacity() == old(self).spec_capacity(),
    {
        let ghost queue = self@;
        let ghost filler = out@;
        let total: usize = out.len();
        let mut count: usize = 0;
        assert(queue.skip(0) =~= queue);
        assert(queue.take(0) + filler.skip(0) =~= filler);
        while count < total
            invariant_except_break
                count <= queue.len(),
            invariant
                total == filler.len(),
                out@.len() == total,
                count <= total,
                count <= queue.len(),
                self@ == queue.skip(count as int),
                out@ == queue.take(count as int) + filler.skip(count as int),
                self.spec_capacity() == old(self).spec_capacity(),
            ensures
                count == total || count == queue.len(),
            decreases total - count,
        {
            let ghost pending = self@;
            match self.pop() {
                Some(event) => {
                    out[count] = event;
                    proof {
                        assert(pending.drop_first() =~= queue.skip(count + 1));
                        assert(out@ =~= queue.take(count + 1) + filler.skip(count + 1));
                    }
                    count = count + 1;
                },
                None => {
                    break;
                },
            }
        }
        count
    }

    /// Offer all of `events` in order. Returns how many the ring took; the others are
    /// dropped.
    pub fn push_all(&mut self, events: &[MidiEvent]) -> (pushed: usize)
        ensures
            pushed == room(old(self)@.len() as int, old(self).spec_capacity(), events@.len() as int),
            final(self)@ == old(self)@ + events@.take(pushed as int),
            final(self).spec_capacity() == old(self).spec_capacity(),
    {
        proof {
            use_type_invariant(&*self);
        }
        let ghost queue = self@;
        let ghost capacity = self.spec_capacity();
        let mut pushed: usize = 0;
        assert(queue + events@.take(0) =~= queue);
        for i in 0..events.len()
            invariant
                queue.len() < capacity,
                self.spec_capacity() == capacity,
                pushed <= i <= events@.len(),
                pushed == room(queue.len() as int, capacity, i as int),
                self@ == queue + events@.take(pushed as int),
        {
            if self.push(events[i]) {
                proof {
                    assert((queue + events@.take(i as int)).push(events@[i as int]) =~= queue
                        + events@.take(i + 1));
                }
                pushed = pushed + 1;
            }
        }
        pushed
    }

    /// Number of events in the ring.
    pub fn len(&self) -> (n: usize)
        ensures
            n == self@.len(),
            n < self.spec_capacity(),
    {
        proof {
            use_type_invariant(self);
            lemma_mask(self.tail.wrapping_sub(self.head), self.mask);
            lemma_small_mod(self.queued() as nat, self.spec_capacity() as nat);
        }
        self.tail.wrapping_sub(self.head) & self.mask
    }

    /// Is the ring empty?
    pub fn is_empty(&self) -> (empty: bool)
        ensures
            empty == (self@.len() == 0),
    {
        proof {
            use_type_invariant(self);
            let capacity = self.spec_capacity();
            let n = self.queued();
            lemma_mask(self.head, self.mask);
            lemma_mask(self.tail, self.mask);
            lemma_wrap_keeps_slot(self.head + n, capacity);
            if (self.head & self.mask) == (self.tail & self.mask) {
                lemma_slots_distinct(self.head as int, n, 0, capacity);
            }
        }
        (self.head & self.mask) == (self.tail & self.mask)
    }

    /// Total number of slots. One of them always stays empty.
    pub fn capacity(&self) -> (n: usize)
        ensures
            n == self.spec_capacity(),
            is_pow2(n as int),
    {
        proof {
            use_type_invariant(self);
        }
        self.mask + 1
    }
}

/// The queue after each of `events` is offered in turn.
pub open spec fn offered_each(
    queue: Seq<MidiEvent>,
    capacity: int,
    events: Seq<MidiEvent>,
) -> Seq<MidiEvent>
    decreases events.len(),
{
    if events.len() == 0 {
        queue
    } else {
        offered(offered_each(queue, capacity, events.drop_last()), capacity, events.last())
    }
}

/// Offering events one by one keeps their order behind what was queued, loses only the
/// last ones, and never fills the slot that stays empty.
pub proof fn law_offers_keep_order(queue: Seq<MidiEvent>, capacity: int, events: Seq<MidiEvent>)
    requires
        queue.len() < capacity,
    ensures
        offered_each(queue, capacity, events) == queue + events.take(
            room(queue.len() as int, capacity, events.len() as int),
        ),
        offered_each(queue, capacity, events).len() < capacity,
    decreases events.len(),
{
    if events.len() == 0 {
        assert(queue + events.take(0) =~= queue);
    } else {
        let init = events.drop_last();
        law_offers_keep_order(queue, capacity, init);
        let taken = room(queue.len() as int, capacity, init.len() as int);
        if taken == init.len() && queue.len() + taken < capacity - 1 {
            assert((queue + init.take(taken)).push(events.last()) =~= queue + events.take(taken + 1));
        } else {
            assert(init.take(taken) =~= events.take(taken));
        }
    }
}

/// First in, first out: events that fit come out again, all of them and in the order in
/// which they went in, once what was queued before them has come out.
pub proof fn law_first_in_first_out(queue: Seq<MidiEvent>, capacity: int, events: Seq<MidiEvent>)
    requires
        queue.len() + events.len() < capacity,
    ensures
        offered_each(queue, capacity, events).take(queue.len() as int) == queue,
        offered_each(queue, capacity, events).skip(queue.len() as int) == events,
{
    law_offers_keep_order(queue, capacity, events);
    let all = queue + events.take(events.len() as int);
    assert(all.take(queue.len() as int) =~= queue);
    assert(all.skip(queue.len() as int) =~= events);
}

/// Draining `k` events and then `m` more hands out what draining `k + m` at once does, and
/// leaves the same queue.
pub proof fn law_drains_compose(queue: Seq<MidiEvent>, k: int, m: int)
    requires
        0 <= k,
        0 <= m,
        k + m <= queue.len(),
    ensures
        queue.take(k) + queue.skip(k).take(m) == queue.take(k + m),
        queue.skip(k).skip(m) == queue.skip(k + m),
{
    assert(queue.take(k) + queue.skip(k).take(m) =~= queue.take(k + m));
    assert(queue.skip(k).skip(m) =~= queue.skip(k + m));
}

/// A ring takes every event until all slots but one are full, and drops the new one then: it
/// takes exactly one event at a time, and nothing that is queued gives way.
pub proof fn law_full_ring_drops_the_new(
    queue: Seq<MidiEvent>,
    capacity: int,
    event: MidiEvent,
    n: int,
)
    requires
        queue.len() < capacity,
        n >= 0,
    ensures
        queue.len() + 1 < capacity ==> offered(queue, capacity, event) == queue.push(event),
        queue.len() + 1 == capacity ==> offered(queue, capacity, event) == queue,
        ({
            let taken = room(queue.len() as int, capacity, n);
            &&& 0 <= taken <= n
            &&& queue.len() + taken < capacity
            &&& taken < n ==> queue.len() + taken + 1 == capacity
        }),
{
}

/// Offering is one by one: what two runs of events leave queued is what the second leaves behind
/// what the first did.
pub proof fn law_offers_go_on(
    queue: Seq<MidiEvent>,
    capacity: int,
    first: Seq<MidiEvent>,
    second: Seq<MidiEvent>,
)
    ensures
        offered_each(queue, capacity, first + second) == offered_each(
            offered_each(queue, capacity, first),
            capacity,
            second,
        ),
        first.len() == 1 ==> offered_each(queue, capacity, first) == offered(
            queue,
            capacity,
            first[0],
        ),
    decreases second.len(),
{
    if second.len() == 0 {
        assert(first + second =~= first);
    } else {
        law_offers_go_on(queue, capacity, first, second.drop_last());
        assert((first + second).drop_last() =~= first + second.drop_last());
        assert((first + second).last() == second.last());
    }
    if first.len() == 1 {
        assert(offered_each(queue, capacity, first.drop_last()) == queue);
    }
}

/// How far one index is ahead of another: as many steps lead from the one to the other, round
/// the range of words if need be.
pub proof fn law_distance_counts_steps(head: usize, tail: usize)
    ensures
        0 <= distance(head, tail) < word_range(),
        head + distance(head, tail) == tail || head + distance(head, tail) == tail + word_range(),
        distance(head, head) == 0,
{
}

/// An event that was pushed comes out when those queued before it are out: a pop after a push
/// gives the oldest event, which is the new one if there was none, and the number of events is
/// then what it was. A push that is refused changes nothing.
pub proof fn law_push_then_pop(
    pushing: &mut EventRing,
    event: MidiEvent,
    pushed: bool,
    popping: &mut EventRing,
    popped: Option<MidiEvent>,
)
    requires
        call_ensures(EventRing::push, (pushing, event), pushed),
        *old(popping) == *final(pushing),
        call_ensures(EventRing::pop, (popping,), popped),
        old(pushing)@.len() < old(pushing).spec_capacity(),
    ensures
        ({
            let queue = old(pushing)@;
            &&& pushed <==> queue.len() + 1 < old(pushing).spec_capacity()
            &&& !pushed ==> final(pushing)@ == queue
            &&& pushed ==> final(popping)@.len() == queue.len()
            &&& pushed && queue.len() == 0 ==> popped == Some(event)
            &&& pushed && queue.len() > 0 ==> popped == Some(queue.first())
            &&& pushed && queue.len() > 0 ==> final(popping)@.last() == event
            &&& !pushed && queue.len() > 0 ==> popped == Some(queue.first())
            &&& final(popping).spec_capacity() == old(pushing).spec_capacity()
        }),
{
}

/// Draining hands out what popping would: the oldest events in order, until either side has no
/// more. What stood behind them in the buffer is untouched, and nothing is lost.
pub proof fn law_drain_hands_out_the_oldest(
    ring: &mut EventRing,
    out: &mut [MidiEvent],
    count: usize,
)
    requires
        call_ensures(EventRing::drain_into, (ring, out), count),
    ensures
        count <= old(out)@.len(),
        count <= old(ring)@.len(),
        count == old(out)@.len() || final(ring)@.len() == 0,
        final(out)@.len() == old(out)@.len(),
        final(out)@.take(count as int) + final(ring)@ == old(ring)@,
        forall|i: int| count <= i < old(out)@.len() ==> #[trigger] final(out)@[i] == old(out)@[i],
{
    assert(final(out)@.take(count as int) =~= old(ring)@.take(count as int));
    assert(final(out)@.take(count as int) + final(ring)@ =~= old(ring)@);
}

/// Offering a list takes its first events, until the ring is full: none is skipped, none is taken
/// twice, and one is left out only if there is no room for it.
pub proof fn law_list_is_taken_from_the_front(
    ring: &mut EventRing,
    events: &[MidiEvent],
    pushed: usize,
)
    requires
        call_ensures(EventRing::push_all, (ring, events), pushed),
        old(ring)@.len() < old(ring).spec_capacity(),
    ensures
        pushed <= events@.len(),
        final(ring)@.len() == old(ring)@.len() + pushed,
        final(ring)@.take(old(ring)@.len() as int) == old(ring)@,
        final(ring)@.skip(old(ring)@.len() as int) == events@.take(pushed as int),
        pushed < events@.len() ==> final(ring)@.len() + 1 == final(ring).spec_capacity(),
{
    assert(final(ring)@.take(old(ring)@.len() as int) =~= old(ring)@);
    assert(final(ring)@.skip(old(ring)@.len() as int) =~= events@.take(pushed as int));
}

/// The capacity that a ring is asked for has one answer: the smallest power of two that is not
/// below it.
pub proof fn law_capacity_is_the_next_power(n: int, p: int, q: int)
    requires
        rounds_up_to(n, p),
        is_pow2(q),
        n <= q,
    ensures
        is_pow2(p),
        n <= p <= q,
        rounds_up_to(n, q) ==> p == q,
{
}

} // verus!
