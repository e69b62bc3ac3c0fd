//! A bounded FIFO queue of `Copy` items whose capacity is a power of two.
//! Every slot carries a sequence number that says whether it is free for the
//! position being written or holds the item of the position being read.

use vstd::prelude::*;
use vstd::arithmetic::power2::{pow2, lemma2_to64, lemma2_to64_rest, lemma_pow2_pos};

verus! {

/// `r` is the smallest power of two, at least 2, that is not below `n`.
pub open spec fn is_ring_capacity(n: int, r: int) -> bool {
    exists|k: nat|
        #![trigger pow2(k)]
        k >= 1 && r == pow2(k) && (k == 1 || pow2((k - 1) as nat) < n) && n <= r
}

proof fn lemma_pow2_from_bits(r: u64) -> (k: nat)
    requires
        r > 0,
        r & ((r - 1) as u64) == 0,
    ensures
        r == pow2(k),
        k < 64,
    decreases r,
{
    lemma2_to64();
    if r == 1 {
        0
    } else {
        assert(r % 2 == 0 && (r / 2) > 0 && (r / 2) & (((r / 2) - 1) as u64) == 0) by (bit_vector)
            requires
                r > 1,
                r & ((r - 1) as u64) == 0,
        ;
        let k = lemma_pow2_from_bits(r / 2);
        vstd::arithmetic::power2::lemma_pow2_unfold(k + 1);
        if k + 1 >= 64 {
            vstd::arithmetic::power2::lemma_pow2_strictly_increases(63, k);
            lemma2_to64_rest();
            assert(false);
        }
        k + 1
    }
}

/// Rounds `n` up to a power of two, never below 2.
fn next_power_of_two(n: u64) -> (r: u64)
    requires
        n <= 0x8000_0000_0000_0000,
    ensures
        is_ring_capacity(n as int, r as int),
{
    if n <= 1 {
        proof {
            lemma2_to64();
            assert(pow2(1) == 2);
        }
        return 2;
    }
    let mut m = n - 1;
    m = m | (m >> 1);
    m = m | (m >> 2);
    m = m | (m >> 4);
    m = m | (m >> 8);
    m = m | (m >> 16);
    m = m | (m >> 32);
    proof {
        let m0: u64 = (n - 1) as u64;
        let m1: u64 = m0 | (m0 >> 1u64);
        let m2: u64 = m1 | (m1 >> 2u64);
        let m3: u64 = m2 | (m2 >> 4u64);
        let m4: u64 = m3 | (m3 >> 8u64);
        let m5: u64 = m4 | (m4 >> 16u64);
        let m6: u64 = m5 | (m5 >> 32u64);
        assert(m == m6);
        assert(m6 < 0xffff_ffff_ffff_ffff && ((m6 + 1) as u64) & m6 == 0 && m6 + 1 >= n && (m6 + 1) / 2 < n)
            by (bit_vector)
            requires
                2 <= n <= 0x8000_0000_0000_0000,
                m0 == n - 1,
                m1 == m0 | (m0 >> 1u64),
                m2 == m1 | (m1 >> 2u64),
                m3 == m2 | (m2 >> 4u64),
                m4 == m3 | (m3 >> 8u64),
                m5 == m4 | (m4 >> 16u64),
                m6 == m5 | (m5 >> 32u64),
        ;
        let r: u64 = (m6 + 1) as u64;
        let k = lemma_pow2_from_bits(r);
        assert(k >= 1) by {
            lemma2_to64();
        }
        vstd::arithmetic::power2::lemma_pow2_unfold(k);
        assert(is_ring_capacity(n as int, r as int)) by {
            assert(pow2((k - 1) as nat) < n);
        }
    }
    m + 1
}


/// The queue after offering `v` to a queue `q` of capacity `cap`, and whether
/// `v` was taken: it is appended unless the queue is full.
pub open spec fn spec_enqueue<T>(q: Seq<T>, cap: nat, v: T) -> (Seq<T>, bool) {
    if q.len() < cap {
        (q.push(v), true)
    } else {
        (q, false)
    }
}

/// The queue after taking from `q`, and what was taken: the oldest item,
/// unless the queue is empty.
pub open spec fn spec_dequeue<T>(q: Seq<T>) -> (Seq<T>, Option<T>) {
    if q.len() > 0 {
        (q.drop_first(), Some(q[0]))
    } else {
        (q, None)
    }
}

/// The queue after offering every item of `vs`, in order, to `q`.
pub open spec fn enqueue_all<T>(q: Seq<T>, cap: nat, vs: Seq<T>) -> Seq<T>
    decreases vs.len(),
{
    if vs.len() == 0 {
        q
    } else {
        enqueue_all(spec_enqueue(q, cap, vs[0]).0, cap, vs.drop_first())
    }
}

/// The items obtained by taking from `q` `n` times, in the order taken.
pub open spec fn dequeue_n<T>(q: Seq<T>, n: nat) -> Seq<T>
    decreases n,
{
    if n == 0 {
        Seq::empty()
    } else {
        match spec_dequeue(q) {
            (rest, Some(x)) => seq![x] + dequeue_n(rest, (n - 1) as nat),
            (_, None) => Seq::empty(),
        }
    }
}

/// Offering items to a queue with room for all of them appends them all, in order.
pub proof fn law_enqueue_all_appends<T>(q: Seq<T>, cap: nat, vs: Seq<T>)
    requires
        q.len() + vs.len() <= cap,
    ensures
        enqueue_all(q, cap, vs) == q + vs,
    decreases vs.len(),
{
    if vs.len() > 0 {
        law_enqueue_all_appends(q.push(vs[0]), cap, vs.drop_first());
        assert(q.push(vs[0]) + vs.drop_first() =~= q + vs);
    } else {
        assert(q + vs =~= q);
    }
}

/// Taking `n` times from a queue of at least `n` items yields its `n` oldest items.
pub proof fn law_dequeue_n_takes_front<T>(q: Seq<T>, n: nat)
    requires
        n <= q.len(),
    ensures
        dequeue_n(q, n) == q.take(n as int),
    decreases n,
{
    if n > 0 {
        law_dequeue_n_takes_front(q.drop_first(), (n - 1) as nat);
        assert(seq![q[0]] + q.drop_first().take(n - 1) =~= q.take(n as int));
    } else {
        assert(q.take(0) =~= Seq::<T>::empty());
    }
}

/// First in, first out: items offered to an empty queue with room for all of
/// them come back out exactly, and in the order they went in.
pub proof fn law_fifo<T>(cap: nat, vs: Seq<T>)
    requires
        vs.len() <= cap,
    ensures
        dequeue_n(enqueue_all(Seq::<T>::empty(), cap, vs), vs.len()) == vs,
{
    law_enqueue_all_appends(Seq::<T>::empty(), cap, vs);
    assert(Seq::<T>::empty() + vs =~= vs);
    law_dequeue_n_takes_front(vs, vs.len());
    assert(vs.take(vs.len() as int) =~= vs);
}

/// A full queue refuses an item and stays as it was; a queue never holds
/// more than its capacity.
pub proof fn law_capacity_bound<T>(q: Seq<T>, cap: nat, v: T)
    requires
        q.len() <= cap,
    ensures
        spec_enqueue(q, cap, v).0.len() <= cap,
        q.len() == cap ==> spec_enqueue(q, cap, v) == (q, false),
{
}

/// One call on a queue: offering an item, or taking the oldest one.
pub enum QueueOp<T> {
    Enqueue(T),
    Dequeue,
}

/// The outcome of a run of calls on a queue: the queue afterwards, the items
/// whose offer was accepted, in the order offered, and the items taken, in
/// the order taken.
pub struct QueueRun<T> {
    pub queue: Seq<T>,
    pub accepted: Seq<T>,
    pub taken: Seq<T>,
}

/// Performs the calls of `ops`, in order, on a queue `q` of capacity `cap`,
/// each as `spec_enqueue` or `spec_dequeue` says.
pub open spec fn run_queue<T>(q: Seq<T>, cap: nat, ops: Seq<QueueOp<T>>) -> QueueRun<T>
    decreases ops.len(),
{
    if ops.len() == 0 {
        QueueRun { queue: q, accepted: Seq::empty(), taken: Seq::empty() }
    } else {
        let prev = run_queue(q, cap, ops.drop_last());
        match ops.last() {
            QueueOp::Enqueue(v) => {
                let (q2, ok) = spec_enqueue(prev.queue, cap, v);
                QueueRun {
                    queue: q2,
                    accepted: if ok {
                        prev.accepted.push(v)
                    } else {
                        prev.accepted
                    },
                    taken: prev.taken,
                }
            },
            QueueOp::Dequeue => {
                let (q2, r) = spec_dequeue(prev.queue);
                QueueRun {
                    queue: q2,
                    accepted: prev.accepted,
                    taken: match r {
                        Some(x) => prev.taken.push(x),
                        None => prev.taken,
                    },
                }
            },
        }
    }
}

/// Over any run of calls, nothing is lost, duplicated or reordered: the items
/// taken, followed by those still queued, are exactly the items queued at
/// the start followed by those accepted. So the queue holds its start plus
/// the accepted items minus the taken ones, never more than its capacity,
/// and, as multisets, every accepted item is taken or still queued exactly
/// once.
pub proof fn law_run_conserves_items<T>(q: Seq<T>, cap: nat, ops: Seq<QueueOp<T>>)
    requires
        q.len() <= cap,
    ensures
        run_queue(q, cap, ops).taken + run_queue(q, cap, ops).queue == q + run_queue(
            q,
            cap,
            ops,
        ).accepted,
        run_queue(q, cap, ops).queue.len() == q.len() + run_queue(q, cap, ops).accepted.len()
            - run_queue(q, cap, ops).taken.len(),
        run_queue(q, cap, ops).queue.len() <= cap,
        run_queue(q, cap, ops).taken.to_multiset().add(run_queue(q, cap, ops).queue.to_multiset())
            == q.to_multiset().add(run_queue(q, cap, ops).accepted.to_multiset()),
    decreases ops.len(),
{
    let r = run_queue(q, cap, ops);
    if ops.len() > 0 {
        law_run_conserves_items(q, cap, ops.drop_last());
        let p = run_queue(q, cap, ops.drop_last());
        match ops.last() {
            QueueOp::Enqueue(v) => {
                if p.queue.len() < cap {
                    assert(p.taken + p.queue.push(v) =~= (p.taken + p.queue).push(v));
                    assert(q + p.accepted.push(v) =~= (q + p.accepted).push(v));
                }
            },
            QueueOp::Dequeue => {
                if p.queue.len() > 0 {
                    assert(p.taken.push(p.queue[0]) + p.queue.drop_first() =~= p.taken + p.queue);
                }
            },
        }
    } else {
        assert(r.taken + r.queue =~= q + r.accepted);
    }
    assert((r.taken + r.queue).len() == (q + r.accepted).len());
    vstd::seq_lib::lemma_multiset_commutative(r.taken, r.queue);
    vstd::seq_lib::lemma_multiset_commutative(q, r.accepted);
}

/// First in, first out over any run that starts from an empty queue: the
/// items taken are the oldest accepted items, in the order they were
/// offered, and those still queued are the rest.
pub proof fn law_run_fifo<T>(cap: nat, ops: Seq<QueueOp<T>>)
    ensures
        run_queue(Seq::<T>::empty(), cap, ops).taken == run_queue(
            Seq::<T>::empty(),
            cap,
            ops,
        ).accepted.take(run_queue(Seq::<T>::empty(), cap, ops).taken.len() as int),
        run_queue(Seq::<T>::empty(), cap, ops).queue == run_queue(
            Seq::<T>::empty(),
            cap,
            ops,
        ).accepted.skip(run_queue(Seq::<T>::empty(), cap, ops).taken.len() as int),
{
    let e = Seq::<T>::empty();
    let r = run_queue(e, cap, ops);
    law_run_conserves_items(e, cap, ops);
    assert(e + r.accepted =~= r.accepted);
    let n = r.taken.len() as int;
    assert(r.taken =~= (r.taken + r.queue).take(n));
    assert(r.queue =~= (r.taken + r.queue).skip(n));
}

/// One cell of the buffer: the sequence number that says which position the
/// cell is ready for, and the item last written to it.
struct Slot<T> {
    seq: u64,
    val: Option<T>,
}

/// A bounded FIFO queue whose capacity is a power of two, at least 2.
pub struct RingBuffer<T: Copy + Send> {
    slots: Vec<Slot<T>>,
    cap: u64,
    mask: u64,
    head: u64,
    tail: u64,
    log_cap: Ghost<nat>,
}

/// Two positions in a window of `cap` consecutive positions that share a
/// residue modulo `cap` are the same position.
proof fn lemma_window_distinct(a: int, p: int, q: int, cap: int)
    requires
        cap > 0,
        a <= p < a + cap,
        a <= q < a + cap,
        p % cap == q % cap,
    ensures
        p == q,
{
    vstd::arithmetic::div_mod::lemma_fundamental_div_mod(p, cap);
    vstd::arithmetic::div_mod::lemma_fundamental_div_mod(q, cap);
    let dp = p / cap;
    let dq = q / cap;
    assert(p - q == cap * (dp - dq)) by (nonlinear_arith)
        requires
            p == cap * dp + p % cap,
            q == cap * dq + q % cap,
            p % cap == q % cap,
    ;
    if dp != dq {
        assert(cap * (dp - dq) >= cap || cap * (dp - dq) <= -cap) by (nonlinear_arith)
            requires
                cap > 0,
                dp != dq,
        ;
    }
}

/// Moving a position forward by `cap` keeps its residue modulo `cap`.
proof fn lemma_mod_shift(p: int, cap: int)
    requires
        cap > 0,
    ensures
        (p + cap) % cap == p % cap,
{
    vstd::arithmetic::div_mod::lemma_mod_add_multiples_vanish(p, cap);
}

impl<T: Copy + Send> RingBuffer<T> {
    /// The slot that holds position `p` of the stream of items.
    closed spec fn slot_at(&self, p: int) -> Slot<T> {
        self.slots@[p % (self.cap as int)]
    }

    /// The buffer's internal invariant: the capacity is a power of two, the
    /// queued positions are `dequeued_total..enqueued_total`, and every slot
    /// of the current window carries the sequence number of its state.
    pub closed spec fn wf(&self) -> bool {
        &&& self.cap == self.slots@.len()
        &&& self.cap == pow2(self.log_cap@)
        &&& 1 <= self.log_cap@ < 64
        &&& self.cap <= usize::MAX
        &&& self.mask == self.cap - 1
        &&& self.head <= self.tail <= self.head + self.cap
        &&& forall|p: int|
            #![trigger self.slot_at(p)]
            self.head <= p < self.head + self.cap ==> {
                &&& self.slot_at(p).seq == if p < self.tail {
                    p + 1
                } else {
                    p
                }
                &&& p < self.tail ==> self.slot_at(p).val is Some
            }
    }

    /// Number of items the buffer holds at most.
    pub closed spec fn spec_capacity(&self) -> nat {
        self.cap as nat
    }

    /// Number of items enqueued so far.
    pub closed spec fn enqueued_total(&self) -> nat {
        self.tail as nat
    }

    /// Number of items dequeued so far.
    pub closed spec fn dequeued_total(&self) -> nat {
        self.head as nat
    }
}

impl<T: Copy + Send> RingBuffer<T> {
    /// Creates an empty buffer whose capacity is `capacity` rounded up to a
    /// power of two, and at least 2.
    pub fn new(capacity: usize) -> (rb: Self)
        requires
            capacity <= usize::MAX / 2 + 1,
        ensures
            rb.wf(),
            rb@ == Seq::<T>::empty(),
            is_ring_capacity(if capacity < 2 { 2 } else { capacity as int }, rb.spec_capacity() as int),
            2 <= rb.spec_capacity() <= usize::MAX,
            capacity <= rb.spec_capacity(),
            rb.spec_capacity() < 2 * (if capacity < 2 { 2 } else { capacity as int }),
            rb.enqueued_total() == 0,
            rb.dequeued_total() == 0,
    {
        let want: usize = if capacity < 2 { 2 } else { capacity };
        proof {
            if usize::BITS == 64 {
                assert(usize::MAX / 2 + 1 == 0x8000_0000_0000_0000);
            }
        }
        let cap = next_power_of_two(want as u64);
        let ghost k = choose|k: nat|
            #![trigger pow2(k)]
            k >= 1 && cap == pow2(k) && (k == 1 || pow2((k - 1) as nat) < want) && want <= cap;
        proof {
            lemma2_to64();
            lemma2_to64_rest();
            vstd::arithmetic::power2::lemma_pow2_unfold(k);
            assert(cap <= usize::MAX) by {
                if k > 1 {
                    assert(cap == 2 * pow2((k - 1) as nat));
                }
            }
            if k >= 64 {
                if k > 64 {
                    vstd::arithmetic::power2::lemma_pow2_strictly_increases(64, k);
                }
                assert(pow2(64) == 0x1_0000_0000_0000_0000);
                assert(false);
            }
        }
        let mut slots: Vec<Slot<T>> = Vec::with_capacity(cap as usize);
        let mut i: u64 = 0;
        while i < cap
            invariant
                cap <= usize::MAX,
                i <= cap,
                slots@.len() == i,
                forall|j: int| 0 <= j < i ==> (#[trigger] slots@[j]).seq == j,
            decreases cap - i,
        {
            slots.push(Slot { seq: i, val: None });
            i = i + 1;
        }
        proof {
            assert forall|p: int| 0 <= p < cap implies #[trigger] slots@[p % (cap as int)].seq == p by {
                vstd::arithmetic::div_mod::lemma_small_mod(p as nat, cap as nat);
            }
        }
        let rb = RingBuffer { slots, cap, mask: cap - 1, head: 0, tail: 0, log_cap: Ghost(k) };
        proof {
            assert(rb@ =~= Seq::<T>::empty());
        }
        rb
    }

    /// Number of items the buffer holds at most.
    pub fn capacity(&self) -> (n: usize)
        requires
            self.wf(),
        ensures
            n == self.spec_capacity(),
    {
        self.cap as usize
    }

    /// Number of queued items.
    pub fn len(&self) -> (n: usize)
        requires
            self.wf(),
        ensures
            n == self@.len(),
            n <= self.spec_capacity(),
    {
        let head = self.head;
        let tail = self.tail;
        tail.saturating_sub(head) as usize
    }

    /// Whether no item is queued.
    pub fn is_empty(&self) -> (b: bool)
        requires
            self.wf(),
        ensures
            b == (self@.len() == 0),
    {
        self.head == self.tail
    }

    /// Appends `val` unless the buffer is full; returns whether it did.
    pub fn enqueue(&mut self, val: T) -> (ok: bool)
        requires
            old(self).wf(),
            old(self)@.len() < old(self).spec_capacity() ==> old(self).enqueued_total() < u64::MAX,
        ensures
            final(self).wf(),
            (final(self)@, ok) == spec_enqueue(old(self)@, old(self).spec_capacity(), val),
            final(self).spec_capacity() == old(self).spec_capacity(),
            final(self).dequeued_total() == old(self).dequeued_total(),
            final(self).enqueued_total() == old(self).enqueued_total() + if ok {
                1nat
            } else {
                0nat
            },
    {
        let tail = self.tail;
        let ghost cap = self.cap as int;
        let ghost head = self.head as int;
        proof {
            vstd::bits::lemma_u64_low_bits_mask_is_mod(tail, self.log_cap@);
            assert(self.mask == vstd::bits::low_bits_mask(self.log_cap@));
        }
        let idx = tail & self.mask;
        proof {
            lemma2_to64();
            if self.log_cap@ > 1 {
                vstd::arithmetic::power2::lemma_pow2_strictly_increases(1, self.log_cap@);
            }
            assert(cap >= 2);
            assert(idx == tail % (cap as u64));
            if tail < head + cap {
                assert(self.slot_at(tail as int).seq == tail);
            } else {
                lemma_mod_shift(head, cap);
                assert(self.slot_at(head).seq == head + 1);
                assert(self.slot_at(head) == self.slot_at(tail as int));
            }
        }
        let seq = self.slots[idx as usize].seq;
        if seq == tail {
            let ghost old_self = *self;
            self.slots.set(idx as usize, Slot { seq: tail + 1, val: Some(val) });
            self.tail = tail + 1;
            proof {
                assert forall|p: int|
                    #![trigger self.slot_at(p)]
                    head <= p < head + cap && p != tail implies self.slot_at(p) == old_self.slot_at(p) by {
                    if p % cap == (tail as int) % cap {
                        lemma_window_distinct(head, p, tail as int, cap);
                    }
                }
                assert forall|p: int|
                    #![trigger self.slot_at(p)]
                    head <= p < head + cap implies {
                        &&& self.slot_at(p).seq == if p < self.tail {
                            p + 1
                        } else {
                            p
                        }
                        &&& p < self.tail ==> self.slot_at(p).val is Some
                    } by {
                    if p != tail {
                        assert(self.slot_at(p) == old_self.slot_at(p));
                    }
                }
                assert(self@ =~= old_self@.push(val)) by {
                    assert forall|i: int| 0 <= i < old_self@.len() implies self@[i] == old_self@[i] by {
                        assert(self.slot_at(head + i) == old_self.slot_at(head + i));
                    }
                }
            }
            true
        } else {
            false
        }
    }

    /// Removes and returns the oldest item, or `None` when the buffer is empty.
    pub fn dequeue(&mut self) -> (res: Option<T>)
        requires
            old(self).wf(),
            old(self).dequeued_total() < u64::MAX,
            old(self)@.len() > 0 ==> old(self).dequeued_total() + old(self).spec_capacity()
                <= u64::MAX,
        ensures
            final(self).wf(),
            (final(self)@, res) == spec_dequeue(old(self)@),
            final(self).spec_capacity() == old(self).spec_capacity(),
            final(self).enqueued_total() == old(self).enqueued_total(),
            final(self).dequeued_total() == old(self).dequeued_total() + if res is Some {
                1nat
            } else {
                0nat
            },
    {
        let head = self.head;
        let ghost cap = self.cap as int;
        let ghost tail = self.tail as int;
        proof {
            vstd::bits::lemma_u64_low_bits_mask_is_mod(head, self.log_cap@);
            assert(self.mask == vstd::bits::low_bits_mask(self.log_cap@));
        }
        let idx = head & self.mask;
        proof {
            assert(idx == head % (cap as u64));
            assert(self.slot_at(head as int).seq == if head < tail {
                head + 1
            } else {
                head as int
            });
        }
        let seq = self.slots[idx as usize].seq;
        let expected = head + 1;
        if seq == expected {
            let item = match self.slots[idx as usize].val {
                Some(v) => v,
                None => {
                    proof {
                        assert(false);
                    }
                    return None;
                },
            };
            let ghost old_self = *self;
            let kept = self.slots[idx as usize].val;
            self.slots.set(idx as usize, Slot { seq: head + self.cap, val: kept });
            self.head = head + 1;
            proof {
                lemma_mod_shift(head as int, cap);
                assert forall|p: int|
                    #![trigger self.slot_at(p)]
                    head + 1 <= p < head + 1 + cap implies {
                        &&& self.slot_at(p).seq == if p < tail {
                            p + 1
                        } else {
                            p
                        }
                        &&& p < tail ==> self.slot_at(p).val is Some
                    } by {
                    if p == head + cap {
                        assert(self.slot_at(p) == Slot { seq: (head + self.cap) as u64, val: kept });
                    } else {
                        if p % cap == (head as int) % cap {
                            lemma_window_distinct(head as int, p, head as int, cap);
                        }
                        assert(self.slot_at(p) == old_self.slot_at(p));
                    }
                }
                assert(self@ =~= old_self@.drop_first()) by {
                    assert forall|i: int| 0 <= i < self@.len() implies self@[i] == old_self@[i + 1] by {
                        let p = head + 1 + i;
                        if p % cap == (head as int) % cap {
                            lemma_window_distinct(head as int, p, head as int, cap);
                        }
                        assert(self.slot_at(p) == old_self.slot_at(p));
                    }
                }
                assert(old_self@[0] == item);
            }
            Some(item)
        } else {
            None
        }
    }
}

/// A well-formed buffer holds exactly the items enqueued and not yet
/// dequeued, never more than its capacity.
pub proof fn law_len_is_balance<T: Copy + Send>(rb: &RingBuffer<T>)
    requires
        rb.wf(),
    ensures
        rb@.len() == rb.enqueued_total() - rb.dequeued_total(),
        rb@.len() <= rb.spec_capacity(),
{
}

impl<T: Copy + Send> View for RingBuffer<T> {
    type V = Seq<T>;

    /// The queued items, oldest first.
    closed spec fn view(&self) -> Seq<T> {
        Seq::new(
            (self.tail - self.head) as nat,
            |i: int| self.slot_at(self.head + i).val->Some_0,
        )
    }
}

} // verus!
