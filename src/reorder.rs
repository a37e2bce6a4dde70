//! The writer side of a parallel segment download: segments arrive from the
//! workers in any order and leave in strict index order.

use vstd::prelude::*;

verus! {

/// The bytes of `bodies`, one after the other.
pub open spec fn concat(bodies: Seq<Seq<u8>>) -> Seq<u8>
    decreases bodies.len(),
{
    if bodies.len() == 0 {
        Seq::empty()
    } else {
        concat(bodies.drop_last()) + bodies.last()
    }
}

/// Writes out every buffered segment from `next` on that continues the
/// written prefix: the new next index, the bytes written, and the buffer left.
pub open spec fn drain(next: nat, slots: Seq<Option<Seq<u8>>>) -> (nat, Seq<u8>, Seq<Option<Seq<u8>>>)
    decreases slots.len() - next,
{
    if next < slots.len() && slots[next as int] is Some {
        let rest = drain(next + 1, slots.update(next as int, None));
        (rest.0, slots[next as int]->0 + rest.1, rest.2)
    } else {
        (next, Seq::empty(), slots)
    }
}

/// One arrival: segment `index` with `body` is buffered, then everything
/// that is now contiguous with the written prefix is written.
pub open spec fn arrive(next: nat, slots: Seq<Option<Seq<u8>>>, index: nat, body: Seq<u8>) -> (nat, Seq<u8>, Seq<Option<Seq<u8>>>) {
    drain(next, slots.update(index as int, Some(body)))
}

/// Feeds segments in the order `order` (each index with its body from
/// `bodies`), starting from an empty buffer; the final next index, all bytes
/// written, and the buffer left.
pub open spec fn feed(bodies: Seq<Seq<u8>>, order: Seq<nat>) -> (nat, Seq<u8>, Seq<Option<Seq<u8>>>)
    decreases order.len(),
{
    if order.len() == 0 {
        (0, Seq::empty(), Seq::new(bodies.len(), |i: int| None::<Seq<u8>>))
    } else {
        let before = feed(bodies, order.drop_last());
        let after = arrive(before.0, before.2, order.last(), bodies[order.last() as int]);
        (after.0, before.1 + after.1, after.2)
    }
}

/// The indices of the segments still held among the first `n` slots, in order.
pub open spec fn held_indices(slots: Seq<Option<Seq<u8>>>, n: nat) -> Seq<nat>
    decreases n,
{
    if n == 0 {
        Seq::empty()
    } else {
        let h = held_indices(slots, (n - 1) as nat);
        if slots[n - 1] is Some {
            h.push((n - 1) as nat)
        } else {
            h
        }
    }
}

/// `order` delivers each of the segments `0..n` exactly once.
pub open spec fn is_arrival_order(order: Seq<nat>, n: nat) -> bool {
    &&& order.len() == n
    &&& order.no_duplicates()
    &&& forall|k: int| 0 <= k < order.len() ==> order[k] < n
    &&& forall|i: nat| i < n ==> order.contains(i)
}

/// The first index from `from` on (at most `n`) that is not in `s`.
pub open spec fn first_gap(s: Set<nat>, from: nat, n: nat) -> nat
    decreases n - from,
{
    if from < n && s.contains(from) {
        first_gap(s, from + 1, n)
    } else {
        from
    }
}

/// The buffer holding the segments of `s` from `from` on.
pub open spec fn held_for(bodies: Seq<Seq<u8>>, s: Set<nat>, from: nat) -> Seq<Option<Seq<u8>>> {
    Seq::new(bodies.len(), |i: int| if i >= from && s.contains(i as nat) { Some(bodies[i]) } else { None })
}

proof fn lemma_gap_facts(s: Set<nat>, from: nat, n: nat)
    requires
        from <= n,
    ensures
        from <= first_gap(s, from, n) <= n,
        forall|i: nat| from <= i < first_gap(s, from, n) ==> s.contains(i),
        first_gap(s, from, n) < n ==> !s.contains(first_gap(s, from, n)),
    decreases n - from,
{
    if from < n && s.contains(from) {
        lemma_gap_facts(s, from + 1, n);
    }
}

proof fn lemma_gap_skip(s: Set<nat>, a: nat, b: nat, n: nat)
    requires
        a <= b <= n,
        forall|i: nat| a <= i < b ==> s.contains(i),
    ensures
        first_gap(s, a, n) == first_gap(s, b, n),
    decreases b - a,
{
    if a < b {
        lemma_gap_skip(s, a + 1, b, n);
    }
}

proof fn lemma_concat_step(bodies: Seq<Seq<u8>>, k: nat)
    requires
        k < bodies.len(),
    ensures
        concat(bodies.take(k + 1 as int)) == concat(bodies.take(k as int)) + bodies[k as int],
{
    assert(bodies.take(k + 1 as int).drop_last() =~= bodies.take(k as int));
}

proof fn lemma_drain_run(bodies: Seq<Seq<u8>>, s: Set<nat>, from: nat)
    requires
        from <= bodies.len(),
    ensures
        drain(from, held_for(bodies, s, from)).0 == first_gap(s, from, bodies.len()),
        concat(bodies.take(from as int)) + drain(from, held_for(bodies, s, from)).1
            == concat(bodies.take(first_gap(s, from, bodies.len()) as int)),
        drain(from, held_for(bodies, s, from)).2 == held_for(bodies, s, first_gap(s, from, bodies.len())),
    decreases bodies.len() - from,
{
    let n = bodies.len();
    if from < n && s.contains(from) {
        assert(held_for(bodies, s, from).update(from as int, None) =~= held_for(bodies, s, from + 1));
        lemma_drain_run(bodies, s, from + 1);
        lemma_concat_step(bodies, from);
        let rest = drain(from + 1, held_for(bodies, s, from + 1)).1;
        assert(concat(bodies.take(from as int)) + (bodies[from as int] + rest)
            =~= (concat(bodies.take(from as int)) + bodies[from as int]) + rest);
    } else {
        assert(concat(bodies.take(from as int)) + Seq::<u8>::empty() =~= concat(bodies.take(from as int)));
    }
}

proof fn lemma_feed_state(bodies: Seq<Seq<u8>>, order: Seq<nat>, k: nat)
    requires
        is_arrival_order(order, bodies.len()),
        k <= bodies.len(),
    ensures
        feed(bodies, order.take(k as int)) == (
            first_gap(order.take(k as int).to_set(), 0, bodies.len()),
            concat(bodies.take(first_gap(order.take(k as int).to_set(), 0, bodies.len()) as int)),
            held_for(bodies, order.take(k as int).to_set(), first_gap(order.take(k as int).to_set(), 0, bodies.len())),
        ),
        forall|i: nat| i < first_gap(order.take(k as int).to_set(), 0, bodies.len())
            ==> order.take(k as int).to_set().contains(i),
    decreases k,
{
    let n = bodies.len();
    let r1 = order.take(k as int).to_set();
    if k == 0 {
        assert(r1 =~= Set::<nat>::empty());
        lemma_gap_facts(r1, 0, n);
        assert(held_for(bodies, r1, 0) =~= Seq::new(n, |i: int| None::<Seq<u8>>));
        assert(bodies.take(0) =~= Seq::<Seq<u8>>::empty());
    } else {
        lemma_feed_state(bodies, order, (k - 1) as nat);
        let prev = order.take(k - 1);
        let r0 = prev.to_set();
        let j = order[k - 1];
        assert(order.take(k as int).drop_last() =~= prev);
        assert(r1 =~= r0.insert(j)) by {
            assert forall|x: nat| r1.contains(x) <==> r0.insert(j).contains(x) by {
                if r1.contains(x) {
                    let t = choose|t: int| 0 <= t < k && order.take(k as int)[t] == x;
                    if t < k - 1 {
                        assert(prev[t] == x);
                    }
                }
                if r0.contains(x) {
                    let t = choose|t: int| 0 <= t < k - 1 && prev[t] == x;
                    assert(order.take(k as int)[t] == x);
                }
                if x == j {
                    assert(order.take(k as int)[k - 1] == x);
                }
            }
        }
        assert(!r0.contains(j)) by {
            if r0.contains(j) {
                let t = choose|t: int| 0 <= t < k - 1 && prev[t] == j;
                assert(order[t] == order[k - 1]);
            }
        }
        let g0 = first_gap(r0, 0, n);
        lemma_gap_facts(r0, 0, n);
        assert(g0 <= j);
        assert(held_for(bodies, r0, g0).update(j as int, Some(bodies[j as int])) =~= held_for(bodies, r1, g0));
        lemma_drain_run(bodies, r1, g0);
        lemma_gap_skip(r1, 0, g0, n);
        lemma_gap_facts(r1, 0, n);
        let d = drain(g0, held_for(bodies, r1, g0));
        assert(concat(bodies.take(g0 as int)) + d.1 == concat(bodies.take(d.0 as int)));
    }
}

/// Whatever order the workers deliver the segments in, each delivery is one
/// the buffer takes, and the bytes written are the segments' bodies
/// concatenated in index order, with nothing left held.
pub proof fn lemma_any_order_writes_concatenation(bodies: Seq<Seq<u8>>, order: Seq<nat>)
    requires
        is_arrival_order(order, bodies.len()),
    ensures
        feed(bodies, order).0 == bodies.len(),
        feed(bodies, order).1 == concat(bodies),
        feed(bodies, order).2 == Seq::new(bodies.len(), |i: int| None::<Seq<u8>>),
        forall|k: int| 0 <= k < order.len() ==> {
            let before = #[trigger] feed(bodies, order.take(k));
            before.0 <= order[k] && before.2[order[k] as int] is None
        },
{
    let n = bodies.len();
    lemma_feed_state(bodies, order, n);
    assert(order.take(n as int) =~= order);
    let r = order.to_set();
    lemma_gap_skip(r, 0, n, n);
    assert(bodies.take(n as int) =~= bodies);
    assert(held_for(bodies, r, n) =~= Seq::new(n, |i: int| None::<Seq<u8>>));
    assert forall|k: int| 0 <= k < order.len() implies {
        let before = #[trigger] feed(bodies, order.take(k));
        before.0 <= order[k] && before.2[order[k] as int] is None
    } by {
        lemma_feed_state(bodies, order, k as nat);
        let r0 = order.take(k).to_set();
        lemma_gap_facts(r0, 0, n);
        if r0.contains(order[k]) {
            let t = choose|t: int| 0 <= t < k && order.take(k)[t] == order[k];
            assert(order[t] == order[k]);
        }
    }
}

/// The bytes written do not depend on the order the segments arrive in.
pub proof fn lemma_arrival_order_irrelevant(bodies: Seq<Seq<u8>>, first: Seq<nat>, second: Seq<nat>)
    requires
        is_arrival_order(first, bodies.len()),
        is_arrival_order(second, bodies.len()),
    ensures
        feed(bodies, first).1 == feed(bodies, second).1,
{
    lemma_any_order_writes_concatenation(bodies, first);
    lemma_any_order_writes_concatenation(bodies, second);
}

/// Reorder buffer: holds segments that arrived before their turn.
pub struct ReorderBuffer {
    next: usize,
    slots: Vec<Option<Vec<u8>>>,
}

impl View for ReorderBuffer {
    type V = (nat, Seq<Option<Seq<u8>>>);

    closed spec fn view(&self) -> (nat, Seq<Option<Seq<u8>>>) {
        (self.next as nat, self.slots@.map_values(|o: Option<Vec<u8>>| match o {
            Some(v) => Some(v@),
            None => None,
        }))
    }
}

impl ReorderBuffer {
    /// Every segment before `next` has been written and none is held for it.
    pub closed spec fn wf(&self) -> bool {
        &&& self.next <= self.slots.len()
        &&& forall|i: int| 0 <= i < self.next ==> self.slots@[i] is None
        &&& self.next < self.slots.len() ==> self.slots@[self.next as int] is None
    }

    /// A buffer for a stream of `total` segments, nothing written yet.
    pub fn new(total: usize) -> (r: ReorderBuffer)
        ensures
            r.wf(),
            r@.0 == 0,
            r@.1 == Seq::new(total as nat, |i: int| None::<Seq<u8>>),
    {
        let mut slots: Vec<Option<Vec<u8>>> = Vec::new();
        let mut i: usize = 0;
        while i < total
            invariant
                i <= total,
                slots.len() == i,
                forall|j: int| 0 <= j < i ==> slots@[j] is None,
            decreases total - i,
        {
            slots.push(None);
            i = i + 1;
        }
        let r = ReorderBuffer { next: 0, slots };
        assert(r@.1 =~= Seq::new(total as nat, |i: int| None::<Seq<u8>>));
        r
    }

    /// The index of the next segment to be written.
    pub fn next_index(&self) -> (r: usize)
        ensures
            r == self@.0,
    {
        self.next
    }

    /// The number of segments of the stream.
    pub fn total(&self) -> (r: usize)
        ensures
            r == self@.1.len(),
    {
        self.slots.len()
    }

    /// Whether segment `index` may arrive now: it belongs to the stream, it
    /// has not been written and it is not held already.
    pub fn can_accept(&self, index: usize) -> (r: bool)
        requires
            self.wf(),
        ensures
            r == (self@.0 <= index < self@.1.len() && self@.1[index as int] is None),
    {
        index >= self.next && index < self.slots.len() && self.slots[index].is_none()
    }

    /// Takes segment `index` and returns the bytes that may be written now,
    /// in order: this segment and the held ones that follow it, if it was
    /// the next one; nothing otherwise.
    pub fn accept(&mut self, index: usize, bytes: Vec<u8>) -> (out: Vec<u8>)
        requires
            old(self).wf(),
            old(self)@.0 <= index < old(self)@.1.len(),
            old(self)@.1[index as int] is None,
        ensures
            final(self).wf(),
            (final(self)@.0, out@, final(self)@.1) == arrive(old(self)@.0, old(self)@.1, index as nat, bytes@),
    {
        let ghost body = bytes@;
        self.slots.set(index, Some(bytes));
        assert(self@.1 =~= old(self)@.1.update(index as int, Some(body)));
        let mut out: Vec<u8> = Vec::new();
        let ghost start = drain(self.next as nat, self@.1);
        while self.next < self.slots.len() && self.slots[self.next].is_some()
            invariant
                self.next <= self.slots.len(),
                forall|i: int| 0 <= i < self.next ==> self.slots@[i] is None,
                start == (drain(self.next as nat, self@.1).0, out@ + drain(self.next as nat, self@.1).1,
                    drain(self.next as nat, self@.1).2),
            decreases self.slots.len() - self.next,
        {
            let ghost before = self@.1;
            let mut taken: Option<Vec<u8>> = None;
            self.slots.set_and_swap(self.next, &mut taken);
            let mut b = taken.unwrap();
            proof {
                assert(self@.1 =~= before.update(self.next as int, None));
            }
            let ghost out_before = out@;
            let ghost bv = b@;
            out.append(&mut b);
            self.next = self.next + 1;
            assert(out@ + drain(self.next as nat, self@.1).1 =~= out_before + (bv + drain(self.next as nat, self@.1).1));
        }
        assert(drain(self.next as nat, self@.1).1 =~= Seq::<u8>::empty());
        assert(out@ =~= start.1);
        out
    }

    /// The indices of the segments still held, in increasing order; empty
    /// exactly when everything that arrived has been written.
    pub fn remaining(&self) -> (r: Vec<usize>)
        ensures
            r@.map_values(|i: usize| i as nat) == held_indices(self@.1, self@.1.len()),
    {
        let mut r: Vec<usize> = Vec::new();
        let mut i: usize = 0;
        while i < self.slots.len()
            invariant
                i <= self.slots.len(),
                r@.map_values(|i: usize| i as nat) == held_indices(self@.1, i as nat),
            decreases self.slots.len() - i,
        {
            if self.slots[i].is_some() {
                r.push(i);
            }
            i = i + 1;
            assert(r@.map_values(|i: usize| i as nat) =~= held_indices(self@.1, i as nat));
        }
        r
    }
}

} // verus!
