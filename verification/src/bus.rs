//! The fan-out bus: a bounded broadcast channel with drop-oldest
//! overflow. The producer never blocks; each subscriber has a cursor
//! into the channel's history, receives items in production order from
//! its subscription point forward, and detects a gap when it lagged
//! behind the retained window.

use vstd::prelude::*;

verus! {

/// A bounded broadcast channel. `history` is the full sequence of items
/// ever sent; the channel retains only the most recent `capacity` of
/// them.
pub struct Channel<T> {
    /// Maximum number of retained items; always positive.
    pub capacity: usize,
    /// The retained tail of the history.
    pub items: Vec<T>,
    /// The index in the history of the first retained item.
    pub start: u64,
    /// Everything ever sent on this channel.
    pub history: Ghost<Seq<T>>,
}

/// A subscriber's cursor: the index in the channel's history of the next
/// item it will receive.
pub struct Subscriber {
    /// History index of the next item to receive.
    pub next: u64,
}

/// What one receive step yields.
#[derive(Debug, PartialEq, Eq, Clone, Copy)]
pub enum RecvStep {
    /// Nothing new has been produced.
    Empty,
    /// The subscriber lagged: items were dropped before it read them.
    /// Its cursor now points at the oldest retained item.
    Lagged,
    /// The item at this position of the retained window is next.
    Ready(usize),
}

impl<T> Channel<T> {
    /// Well-formed: the retained window is exactly the most recent part
    /// of the history, and never exceeds the capacity.
    pub open spec fn wf(self) -> bool {
        &&& self.capacity > 0
        &&& self.history@.len() <= u64::MAX
        &&& self.items@.len() <= self.capacity
        &&& self.start + self.items@.len() == self.history@.len()
        &&& forall|k: int|
            0 <= k < self.items@.len() ==> self.items@[k] == self.history@[self.start + k]
    }

    /// Creates an empty channel with the given capacity.
    pub fn new(capacity: usize) -> (r: Channel<T>)
        requires
            capacity > 0,
        ensures
            r.wf(),
            r.capacity == capacity,
            r.history@ =~= Seq::<T>::empty(),
    {
        Channel { capacity, items: Vec::new(), start: 0, history: Ghost(Seq::empty()) }
    }

    /// Sends an item: it is appended to the history, and when the window
    /// is full the oldest retained item is dropped. Sending is total —
    /// the producer never blocks and never fails.
    pub fn send(&mut self, msg: T)
        requires
            old(self).wf(),
            old(self).history@.len() < u64::MAX,
        ensures
            final(self).wf(),
            final(self).capacity == old(self).capacity,
            final(self).history@ == old(self).history@.push(msg),
            final(self).items@.len() <= old(self).capacity,
            old(self).items@.len() < old(self).capacity ==> final(self).items@ == old(
                self,
            ).items@.push(msg) && final(self).start == old(self).start,
            old(self).items@.len() == old(self).capacity ==> final(self).items@ == old(
                self,
            ).items@.drop_first().push(msg) && final(self).start == old(self).start + 1,
    {
        if self.items.len() == self.capacity {
            self.items.remove(0);
            self.start = self.start + 1;
            proof {
                assert(self.items@ =~= old(self).items@.drop_first());
            }
        }
        self.items.push(msg);
        proof {
            self.history@ = self.history@.push(msg);
        }
        proof {
            if old(self).items@.len() == old(self).capacity {
                assert(self.items@ =~= old(self).items@.drop_first().push(msg));
            }
            assert forall|k: int|
                0 <= k < self.items@.len() implies self.items@[k] == self.history@[self.start
                + k] by {
                if k < self.items@.len() - 1 {
                    assert(self.history@[self.start + k] == old(self).history@[self.start + k]);
                }
            }
        }
    }

    /// Subscribes a new consumer. Its cursor starts at the present end
    /// of the history: it will receive nothing that was produced before
    /// it subscribed.
    pub fn subscribe(&self) -> (r: Subscriber)
        requires
            self.wf(),
        ensures
            r.next == self.history@.len(),
            sub_ok(*self, r),
    {
        Subscriber { next: self.start + self.items.len() as u64 }
    }

    /// Reads the retained item at window position `i`.
    pub fn get(&self, i: usize) -> (r: &T)
        requires
            self.wf(),
            i < self.items@.len(),
        ensures
            *r == self.history@[self.start + i],
    {
        &self.items[i]
    }

    /// One receive step for `sub`, as a specification.
    pub open spec fn spec_recv(self, sub: Subscriber) -> (Subscriber, RecvStep) {
        if sub.next == self.history@.len() {
            (sub, RecvStep::Empty)
        } else if sub.next < self.start {
            (Subscriber { next: self.start }, RecvStep::Lagged)
        } else {
            (Subscriber { next: (sub.next + 1) as u64 }, RecvStep::Ready(
                (sub.next - self.start) as usize,
            ))
        }
    }

    /// One receive step: nothing new, a detected gap, or the position of
    /// the next item in the retained window.
    pub fn recv(&self, sub: &mut Subscriber) -> (r: RecvStep)
        requires
            self.wf(),
            sub_ok(*self, *old(sub)),
        ensures
            sub_ok(*self, *final(sub)),
            (*final(sub), r) == self.spec_recv(*old(sub)),
            final(sub).next >= old(sub).next,
            r matches RecvStep::Ready(i) ==> i < self.items@.len() && self.start + i == old(
                sub,
            ).next && final(sub).next == old(sub).next + 1,
    {
        let end = self.start + self.items.len() as u64;
        if sub.next == end {
            RecvStep::Empty
        } else if sub.next < self.start {
            sub.next = self.start;
            RecvStep::Lagged
        } else {
            let i = (sub.next - self.start) as usize;
            sub.next = sub.next + 1;
            RecvStep::Ready(i)
        }
    }
}

/// The subscriber's cursor is within the channel's history.
pub open spec fn sub_ok<T>(ch: Channel<T>, sub: Subscriber) -> bool {
    sub.next <= ch.history@.len()
}

/// Sending keeps every subscriber's cursor valid: the history only
/// grows.
pub proof fn lemma_send_keeps_subscribers<T>(pre: Channel<T>, post: Channel<T>, sub: Subscriber)
    requires
        sub_ok(pre, sub),
        post.history@.len() >= pre.history@.len(),
    ensures
        sub_ok(post, sub),
{
}

/// No replay: a subscriber whose cursor is at or past `n` — as it is
/// from the moment it subscribes after `n` items were produced — only
/// ever receives items with history index at least `n`, in increasing
/// order of production.
pub proof fn lemma_no_replay<T>(ch: Channel<T>, sub: Subscriber, n: int)
    requires
        ch.wf(),
        sub_ok(ch, sub),
        sub.next >= n,
    ensures
        ch.spec_recv(sub).0.next >= n,
        ch.spec_recv(sub).0.next >= sub.next,
        (ch.spec_recv(sub).1 matches RecvStep::Ready(i) ==> ch.start + i >= n && ch.start + i
            == sub.next),
{
}

/// Drop-oldest: the retained window of a well-formed channel is exactly
/// the most recent items of its history, so overflow discards the
/// oldest undelivered items first and the newest item is always
/// retained after a send.
pub proof fn lemma_retained_window<T>(ch: Channel<T>)
    requires
        ch.wf(),
    ensures
        ch.items@.len() <= ch.capacity,
        forall|k: int|
            0 <= k < ch.items@.len() ==> ch.items@[k] == ch.history@[ch.history@.len()
                - ch.items@.len() + k],
        ch.history@.len() > 0 && ch.items@.len() > 0 ==> ch.items@.last() == ch.history@.last(),
{
    assert forall|k: int|
        0 <= k < ch.items@.len() implies ch.items@[k] == ch.history@[ch.history@.len()
        - ch.items@.len() + k] by {
        assert(ch.items@[k] == ch.history@[ch.start + k]);
    }
    if ch.history@.len() > 0 && ch.items@.len() > 0 {
        assert(ch.items@.last() == ch.history@[ch.start + (ch.items@.len() - 1)]);
    }
}

} // verus!
