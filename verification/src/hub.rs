//! Broadcast hub: the in-process fan-out exchange. One producer publishes
//! encoded packets; every currently registered subscriber sees every packet
//! in publish order, each through its own bounded queue, so a slow
//! subscriber never blocks the producer or any other subscriber.
//!
//! A full queue evicts its oldest entry to make room (drop-oldest) and the
//! drop is counted; the subscriber learns the count as a `Lagged` result on
//! its next receive and resumes from the next available entry.
//!
//! The hub is a passive state machine: `receive` never blocks but reports
//! `Empty` when nothing is pending, and the caller that runs the session
//! decides how to wait.

use vstd::prelude::*;

verus! {

/// Mathematical state of one subscriber slot: whether it is still
/// registered, its queue of pending encoded packets (oldest first), and how
/// many entries were evicted since its last successful receive.
#[verifier::ext_equal]
pub struct SubscriberView {
    pub active: bool,
    pub queue: Seq<Seq<u8>>,
    pub dropped: nat,
}

/// Mathematical state of the hub: the queue bound, whether the hub was
/// closed, and one slot per subscriber ever registered.
#[verifier::ext_equal]
pub struct HubView {
    pub capacity: nat,
    pub closed: bool,
    pub subs: Seq<SubscriberView>,
}

/// The state a subscriber starts in: registered, nothing pending, nothing
/// dropped.
pub open spec fn fresh_subscriber() -> SubscriberView {
    SubscriberView { active: true, queue: Seq::empty(), dropped: 0 }
}

/// The drop counter after one more eviction; it pegs at the largest
/// representable count rather than wrapping.
pub open spec fn counted_drop(d: nat) -> nat {
    if d < u64::MAX {
        d + 1
    } else {
        d
    }
}

/// One publish as one subscriber slot sees it: an unregistered slot is
/// untouched; a full queue first evicts its oldest entry and counts the
/// drop; the new entry is appended last.
pub open spec fn sub_publish(s: SubscriberView, p: Seq<u8>, cap: nat) -> SubscriberView {
    if !s.active {
        s
    } else if s.queue.len() < cap {
        SubscriberView { queue: s.queue.push(p), ..s }
    } else {
        SubscriberView { queue: s.queue.skip(1).push(p), dropped: counted_drop(s.dropped), ..s }
    }
}

/// A whole batch of publishes folded over one subscriber slot, first
/// element first.
pub open spec fn sub_publish_all(s: SubscriberView, ps: Seq<Seq<u8>>, cap: nat) -> SubscriberView
    decreases ps.len(),
{
    if ps.len() == 0 {
        s
    } else {
        sub_publish_all(sub_publish(s, ps[0], cap), ps.skip(1), cap)
    }
}

/// A subscriber's identity within its hub, handed out by `register`.
#[derive(Clone, Copy, PartialEq, Eq, Structural, Debug)]
pub struct SubscriberHandle {
    pub index: usize,
}

/// What one receive attempt yields.
#[derive(Debug)]
pub enum Received {
    /// The oldest pending encoded packet.
    Bytes(Vec<u8>),
    /// This many packets were evicted before being consumed; the subscriber
    /// resumes from the next available entry. Not an error.
    Lagged(u64),
    /// Nothing is pending yet; the caller should wait for new input and ask
    /// again.
    Empty,
    /// The hub is closed; no further packet will ever arrive.
    Closed,
}

/// One subscriber slot as stored: its bounded queue of pending encoded
/// packets and its drop counter.
struct Subscriber {
    active: bool,
    queue: Vec<Vec<u8>>,
    dropped: u64,
}

impl View for Subscriber {
    type V = SubscriberView;

    closed spec fn view(&self) -> SubscriberView {
        SubscriberView {
            active: self.active,
            queue: Seq::new(self.queue@.len(), |i: int| self.queue@[i]@),
            dropped: self.dropped as nat,
        }
    }
}

/// The fan-out exchange. Owns every subscriber slot; shared between the one
/// producer and all sessions for the lifetime of the streaming service.
pub struct Hub {
    capacity: usize,
    closed: bool,
    subs: Vec<Subscriber>,
}

impl View for Hub {
    type V = HubView;

    closed spec fn view(&self) -> HubView {
        HubView {
            capacity: self.capacity as nat,
            closed: self.closed,
            subs: Seq::new(self.subs@.len(), |i: int| self.subs@[i]@),
        }
    }
}

impl Hub {
    /// Well-formedness: the bound is positive, no queue exceeds it, and
    /// every drop counter is representable.
    pub open spec fn wf(&self) -> bool {
        &&& self@.capacity >= 1
        &&& forall|i: int|
            0 <= i < self@.subs.len() ==> (#[trigger] self@.subs[i]).queue.len()
                <= self@.capacity
        &&& forall|i: int|
            0 <= i < self@.subs.len() ==> (#[trigger] self@.subs[i]).dropped <= u64::MAX
    }

    /// Creates a hub with no subscribers; `capacity` bounds each
    /// subscriber's pending queue.
    pub fn new(capacity: usize) -> (r: Hub)
        requires
            1 <= capacity,
        ensures
            r.wf(),
            r@.capacity == capacity,
            !r@.closed,
            r@.subs.len() == 0,
    {
        Hub { capacity, closed: false, subs: Vec::new() }
    }

    /// Registers a new subscriber with an empty queue; packets published
    /// before registration are not replayed.
    pub fn register(&mut self) -> (h: SubscriberHandle)
        requires
            old(self).wf(),
        ensures
            final(self).wf(),
            h.index == old(self)@.subs.len(),
            final(self)@.subs == old(self)@.subs.push(fresh_subscriber()),
            final(self)@.capacity == old(self)@.capacity,
            final(self)@.closed == old(self)@.closed,
    {
        let h = SubscriberHandle { index: self.subs.len() };
        self.subs.push(Subscriber { active: true, queue: Vec::new(), dropped: 0 });
        proof {
            assert(self@.subs =~~= old(self)@.subs.push(fresh_subscriber()));
        }
        h
    }

    /// Delivers one encoded packet to every registered subscriber, evicting
    /// the oldest pending entry of any queue already at capacity. Never
    /// blocks and never fails, whatever state the subscribers are in.
    pub fn publish(&mut self, bytes: &Vec<u8>)
        requires
            old(self).wf(),
        ensures
            final(self).wf(),
            final(self)@.capacity == old(self)@.capacity,
            final(self)@.closed == old(self)@.closed,
            final(self)@.subs.len() == old(self)@.subs.len(),
            forall|j: int|
                0 <= j < old(self)@.subs.len() ==> final(self)@.subs[j] == sub_publish(
                    old(self)@.subs[j],
                    bytes@,
                    old(self)@.capacity,
                ),
    {
        let ghost pre = self@;
        let cap = self.capacity;
        let mut i: usize = 0;
        while i < self.subs.len()
            invariant
                self.wf(),
                cap as nat == pre.capacity,
                self@.capacity == pre.capacity,
                self@.closed == pre.closed,
                self@.subs.len() == pre.subs.len(),
                i <= self@.subs.len(),
                forall|j: int|
                    0 <= j < i ==> self@.subs[j] == sub_publish(pre.subs[j], bytes@, pre.capacity),
                forall|j: int| i <= j < pre.subs.len() ==> self@.subs[j] == pre.subs[j],
            decreases self.subs@.len() - i,
        {
            let ghost viewpre = self@;
            let ghost before = self@.subs[i as int];
            let ghost vecpre = self.subs@;
            let mut sub = self.subs.remove(i);
            let ghost vecmid = self.subs@;
            if sub.active {
                if sub.queue.len() >= cap {
                    sub.queue.remove(0);
                    if sub.dropped < u64::MAX {
                        sub.dropped = sub.dropped + 1;
                    }
                }
                let copy = vstd::slice::slice_to_vec(bytes.as_slice());
                sub.queue.push(copy);
            }
            let ghost subv = sub@;
            proof {
                assert(subv =~~= sub_publish(before, bytes@, pre.capacity));
            }
            self.subs.insert(i, sub);
            proof {
                vecpre.remove_ensures(i as int);
                vecmid.insert_ensures(i as int, self.subs@[i as int]);
                assert(self@.subs[i as int] == subv);
                assert forall|j: int| 0 <= j < vecpre.len() && j != i implies self.subs@[j]
                    == vecpre[j] by {
                    if j < i {
                        assert(vecmid[j] == vecpre[j]);
                        assert(self.subs@[j] == vecmid[j]);
                    } else {
                        assert(vecmid[j - 1] == vecpre[j]);
                        assert(self.subs@[(j - 1) + 1] == vecmid[j - 1]);
                    }
                }
                assert forall|j: int| 0 <= j <= i implies self@.subs[j] == sub_publish(
                    pre.subs[j],
                    bytes@,
                    pre.capacity,
                ) by {
                    if j < i {
                        assert(self@.subs[j] == self.subs@[j]@);
                        assert(self.subs@[j] == vecpre[j]);
                        assert(viewpre.subs[j] == vecpre[j]@);
                        assert(viewpre.subs[j] == sub_publish(pre.subs[j], bytes@, pre.capacity));
                    } else {
                        assert(before == pre.subs[i as int]);
                        assert(self@.subs[i as int] == subv);
                    }
                }
                assert forall|j: int| i < j < pre.subs.len() implies self@.subs[j]
                    == pre.subs[j] by {
                    assert(self@.subs[j] == self.subs@[j]@);
                    assert(self.subs@[j] == vecpre[j]);
                    assert(viewpre.subs[j] == vecpre[j]@);
                    assert(viewpre.subs[j] == pre.subs[j]);
                }
                assert forall|j: int| 0 <= j < self@.subs.len() implies (#[trigger] self@.subs[j]).queue.len()
                    <= self@.capacity && self@.subs[j].dropped <= u64::MAX by {
                    if j < i {
                        assert(self@.subs[j] == viewpre.subs[j]);
                    } else if j == i {
                        assert(before.queue.len() <= viewpre.capacity);
                        assert(before.dropped <= u64::MAX);
                    } else {
                        assert(self@.subs[j] == viewpre.subs[j]);
                    }
                }
            }
            i = i + 1;
        }
    }

    /// One receive attempt for the subscriber behind `h`. A closed hub
    /// answers `Closed`; a positive drop counter answers `Lagged` with the
    /// count and resets it; otherwise the oldest pending packet leaves the
    /// queue, or `Empty` reports that the caller should wait. No other
    /// subscriber's slot is touched.
    pub fn receive(&mut self, h: SubscriberHandle) -> (r: Received)
        requires
            old(self).wf(),
            h.index < old(self)@.subs.len(),
            old(self)@.subs[h.index as int].active,
        ensures
            final(self).wf(),
            final(self)@.capacity == old(self)@.capacity,
            final(self)@.closed == old(self)@.closed,
            final(self)@.subs.len() == old(self)@.subs.len(),
            forall|j: int|
                0 <= j < old(self)@.subs.len() && j != h.index ==> final(self)@.subs[j] == old(
                    self,
                )@.subs[j],
            old(self)@.closed ==> r is Closed && final(self)@ == old(self)@,
            !old(self)@.closed && old(self)@.subs[h.index as int].dropped > 0 ==> {
                &&& r == Received::Lagged(old(self)@.subs[h.index as int].dropped as u64)
                &&& final(self)@.subs[h.index as int] == (SubscriberView {
                    dropped: 0,
                    ..old(self)@.subs[h.index as int]
                })
            },
            (!old(self)@.closed && old(self)@.subs[h.index as int].dropped == 0 && old(
                self,
            )@.subs[h.index as int].queue.len() > 0) ==> {
                &&& r matches Received::Bytes(b) && b@ == old(self)@.subs[h.index as int].queue[0]
                &&& final(self)@.subs[h.index as int] == (SubscriberView {
                    queue: old(self)@.subs[h.index as int].queue.skip(1),
                    ..old(self)@.subs[h.index as int]
                })
            },
            (!old(self)@.closed && old(self)@.subs[h.index as int].dropped == 0 && old(
                self,
            )@.subs[h.index as int].queue.len() == 0) ==> r is Empty && final(self)@ == old(self)@,
    {
        if self.closed {
            return Received::Closed;
        }
        let ghost before = self@.subs[h.index as int];
        let ghost vecpre = self.subs@;
        if self.subs[h.index].dropped > 0 {
            let mut sub = self.subs.remove(h.index);
            let n = sub.dropped;
            sub.dropped = 0;
            self.subs.insert(h.index, sub);
            proof {
                assert(self.subs@ =~= vecpre.update(h.index as int, sub));
                assert(self@.subs[h.index as int] =~~= (SubscriberView {
                    dropped: 0,
                    ..before
                }));
                assert forall|j: int|
                    0 <= j < old(self)@.subs.len() && j != h.index implies self@.subs[j] == old(
                    self,
                )@.subs[j] by {
                    assert(self.subs@[j] == vecpre[j]);
                }
            }
            return Received::Lagged(n);
        }
        if self.subs[h.index].queue.len() > 0 {
            let mut sub = self.subs.remove(h.index);
            let b = sub.queue.remove(0);
            self.subs.insert(h.index, sub);
            proof {
                assert(self.subs@ =~= vecpre.update(h.index as int, sub));
                assert(b@ == before.queue[0]);
                assert(self@.subs[h.index as int] =~~= (SubscriberView {
                    queue: before.queue.skip(1),
                    ..before
                }));
                assert forall|j: int|
                    0 <= j < old(self)@.subs.len() && j != h.index implies self@.subs[j] == old(
                    self,
                )@.subs[j] by {
                    assert(self.subs@[j] == vecpre[j]);
                }
            }
            return Received::Bytes(b);
        }
        Received::Empty
    }

    /// Removes the subscriber behind `h`: its slot goes inactive and its
    /// pending entries are discarded. No other subscriber and nothing on
    /// the producer side is affected.
    pub fn unregister(&mut self, h: SubscriberHandle)
        requires
            old(self).wf(),
            h.index < old(self)@.subs.len(),
        ensures
            final(self).wf(),
            final(self)@.capacity == old(self)@.capacity,
            final(self)@.closed == old(self)@.closed,
            final(self)@.subs.len() == old(self)@.subs.len(),
            final(self)@.subs[h.index as int] == (SubscriberView {
                active: false,
                queue: Seq::empty(),
                dropped: 0,
            }),
            forall|j: int|
                0 <= j < old(self)@.subs.len() && j != h.index ==> final(self)@.subs[j] == old(
                    self,
                )@.subs[j],
    {
        let ghost vecpre = self.subs@;
        let mut sub = self.subs.remove(h.index);
        sub.active = false;
        sub.queue = Vec::new();
        sub.dropped = 0;
        self.subs.insert(h.index, sub);
        proof {
            assert(self.subs@ =~= vecpre.update(h.index as int, sub));
            assert(self@.subs[h.index as int] =~~= (SubscriberView {
                active: false,
                queue: Seq::empty(),
                dropped: 0,
            }));
            assert forall|j: int|
                0 <= j < old(self)@.subs.len() && j != h.index implies self@.subs[j] == old(
                self,
            )@.subs[j] by {
                assert(self.subs@[j] == vecpre[j]);
            }
        }
    }

    /// Terminal: after this, every receive for every subscriber yields
    /// `Closed`.
    pub fn close(&mut self)
        requires
            old(self).wf(),
        ensures
            final(self).wf(),
            final(self)@ == (HubView { closed: true, ..old(self)@ }),
    {
        self.closed = true;
        proof {
            assert(self@ =~~= (HubView { closed: true, ..old(self)@ }));
        }
    }

    /// The queue bound every subscriber was created with.
    pub fn capacity(&self) -> (r: usize)
        ensures
            r == self@.capacity,
    {
        self.capacity
    }

    /// Whether the hub was closed.
    pub fn is_closed(&self) -> (r: bool)
        ensures
            r == self@.closed,
    {
        self.closed
    }

    /// How many subscriber slots exist, unregistered ones included.
    pub fn subscriber_count(&self) -> (r: usize)
        ensures
            r == self@.subs.len(),
    {
        self.subs.len()
    }

    /// Whether the slot behind `h` still belongs to a registered
    /// subscriber.
    pub fn is_active(&self, h: SubscriberHandle) -> (r: bool)
        requires
            h.index < self@.subs.len(),
        ensures
            r == self@.subs[h.index as int].active,
    {
        self.subs[h.index].active
    }
}

/// Order preservation for a subscriber that never lags: while its queue has
/// room for a whole batch, the batch is appended in publish order and
/// nothing is dropped. Since `receive` hands out the front of the queue,
/// the packets such a subscriber receives are exactly the packets
/// published, in order.
pub proof fn lemma_publish_all_in_order(s: SubscriberView, ps: Seq<Seq<u8>>, cap: nat)
    requires
        s.active,
        s.queue.len() + ps.len() <= cap,
    ensures
        sub_publish_all(s, ps, cap) == (SubscriberView { queue: s.queue + ps, ..s }),
    decreases ps.len(),
{
    if ps.len() == 0 {
        assert(s.queue + ps =~= s.queue);
        assert(sub_publish_all(s, ps, cap) =~~= (SubscriberView { queue: s.queue + ps, ..s }));
    } else {
        let s1 = sub_publish(s, ps[0], cap);
        lemma_publish_all_in_order(s1, ps.skip(1), cap);
        assert(s.queue.push(ps[0]) + ps.skip(1) =~= s.queue + ps);
    }
}

/// Publishing a concatenation is publishing the first part, then the
/// second.
pub proof fn lemma_publish_all_split(s: SubscriberView, a: Seq<Seq<u8>>, b: Seq<Seq<u8>>, cap: nat)
    ensures
        sub_publish_all(s, a + b, cap) == sub_publish_all(sub_publish_all(s, a, cap), b, cap),
    decreases a.len(),
{
    if a.len() == 0 {
        assert(a + b =~= b);
    } else {
        let s1 = sub_publish(s, a[0], cap);
        lemma_publish_all_split(s1, a.skip(1), b, cap);
        assert((a + b).skip(1) =~= a.skip(1) + b);
        assert((a + b)[0] == a[0]);
    }
}

/// Publishing to a subscriber whose queue is already full evicts exactly one
/// entry per packet: the queue slides along and every packet of the batch
/// is counted against the drop counter.
pub proof fn lemma_publish_all_full(s: SubscriberView, ps: Seq<Seq<u8>>, cap: nat)
    requires
        s.active,
        1 <= cap,
        s.queue.len() == cap,
        s.dropped + ps.len() <= u64::MAX,
    ensures
        sub_publish_all(s, ps, cap) == (SubscriberView {
            queue: (s.queue + ps).skip(ps.len() as int),
            dropped: (s.dropped + ps.len()) as nat,
            ..s
        }),
    decreases ps.len(),
{
    if ps.len() == 0 {
        assert((s.queue + ps).skip(0) =~= s.queue);
        assert(sub_publish_all(s, ps, cap) =~~= (SubscriberView {
            queue: (s.queue + ps).skip(ps.len() as int),
            dropped: (s.dropped + ps.len()) as nat,
            ..s
        }));
    } else {
        let s1 = sub_publish(s, ps[0], cap);
        assert(s1.queue =~= s.queue.skip(1).push(ps[0]));
        assert(s1.queue.len() == cap);
        lemma_publish_all_full(s1, ps.skip(1), cap);
        assert((s1.queue + ps.skip(1)).skip(ps.skip(1).len() as int) =~= (s.queue + ps).skip(
            ps.len() as int,
        ));
    }
}

/// Lag accounting: a subscriber that starts empty and never receives while
/// a batch at least as long as its capacity is published ends with the last
/// `capacity` packets queued and every earlier packet counted as dropped.
pub proof fn lemma_lag_accounting(ps: Seq<Seq<u8>>, cap: nat)
    requires
        1 <= cap <= ps.len(),
        ps.len() <= u64::MAX,
    ensures
        sub_publish_all(fresh_subscriber(), ps, cap) == (SubscriberView {
            active: true,
            queue: ps.skip(ps.len() - cap),
            dropped: (ps.len() - cap) as nat,
        }),
{
    let s = fresh_subscriber();
    let a = ps.take(cap as int);
    let b = ps.skip(cap as int);
    assert(a + b =~= ps);
    lemma_publish_all_split(s, a, b, cap);
    lemma_publish_all_in_order(s, a, cap);
    let s1 = sub_publish_all(s, a, cap);
    assert(s1.queue =~= a);
    lemma_publish_all_full(s1, b, cap);
    assert((a + b).skip(b.len() as int) =~= ps.skip(ps.len() - cap));
    assert(sub_publish_all(s, ps, cap) =~~= (SubscriberView {
        active: true,
        queue: ps.skip(ps.len() - cap),
        dropped: (ps.len() - cap) as nat,
    }));
}

} // verus!
