use vstd::prelude::*;

use crate::outcome::SubmissionResult;
use crate::record::SpanRecord;

verus! {

/// One unit of work handed to a worker: the ticket that identifies the
/// submission, and the record whose ownership moves to the worker for the
/// duration of the downstream call.
pub struct Submission {
    pub ticket: usize,
    pub record: SpanRecord,
}

/// The bridge between the unbounded request front end and a fixed number of
/// workers that perform blocking downstream calls.
///
/// Submissions enter an unbounded FIFO intake queue and are dispatched, in
/// arrival order, to whichever of the `capacity` worker slots is free; each
/// dispatched submission is completed exactly once with its single result.
/// The pool tracks every submission it has ever accepted through three
/// phases: pending in the queue, active on a worker, or completed.
pub struct WorkerPool {
    pool_size: usize,
    next_ticket: usize,
    pending: Vec<Submission>,
    active: Vec<usize>,
    completed: Ghost<Map<usize, SubmissionResult>>,
}

impl WorkerPool {
    /// How many workers the pool was created with: the hard bound on
    /// concurrent downstream calls.
    pub closed spec fn capacity(&self) -> int {
        self.pool_size as int
    }

    /// How many submissions the pool has accepted so far; tickets are issued
    /// in arrival order, starting at zero.
    pub closed spec fn issued(&self) -> int {
        self.next_ticket as int
    }

    /// The intake queue, oldest submission first.
    pub closed spec fn queue(&self) -> Seq<Submission> {
        self.pending@
    }

    /// How many submissions are waiting for a worker.
    pub open spec fn queued(&self) -> int {
        self.queue().len() as int
    }

    /// How many downstream calls are in flight right now.
    pub closed spec fn in_flight(&self) -> int {
        self.active@.len() as int
    }

    /// The ticket the oldest queued submission carries (every queued ticket
    /// is at least this; every dispatched or completed one is below it).
    spec fn queue_front(&self) -> int {
        self.issued() - self.queued()
    }

    /// The ticket is waiting in the intake queue.
    pub open spec fn is_pending(&self, t: usize) -> bool {
        exists|i: int| 0 <= i < self.queue().len() && (#[trigger] self.queue()[i]).ticket == t
    }

    /// The ticket has been handed to a worker whose call has not finished.
    pub closed spec fn is_active(&self, t: usize) -> bool {
        self.active@.contains(t)
    }

    /// The ticket's submission has finished and its result is fixed.
    pub closed spec fn is_completed(&self, t: usize) -> bool {
        self.completed@.contains_key(t)
    }

    /// The single result a completed submission was answered with.
    pub closed spec fn result_of(&self, t: usize) -> SubmissionResult {
        self.completed@[t]
    }

    /// The pool's invariant: at most `capacity` calls in flight, queued
    /// tickets contiguous in arrival order, active tickets distinct and all
    /// older than every queued one, and every ticket below the queue front
    /// either active or completed, never both.
    pub closed spec fn wf(&self) -> bool {
        &&& self.pool_size >= 1
        &&& self.active@.len() <= self.pool_size
        &&& self.pending@.len() <= self.next_ticket
        &&& (forall|i: int|
            0 <= i < self.pending@.len() ==> (#[trigger] self.pending@[i]).ticket as int
                == self.queue_front() + i)
        &&& (forall|i: int|
            0 <= i < self.active@.len() ==> ((#[trigger] self.active@[i]) as int)
                < self.queue_front())
        &&& (forall|i: int, j: int|
            0 <= i < j < self.active@.len() ==> self.active@[i] != self.active@[j])
        &&& (forall|t: usize| #[trigger]
            self.completed@.contains_key(t) ==> (t as int) < self.queue_front())
        &&& (forall|t: usize|
            (t as int) < self.queue_front() ==> ((#[trigger] self.completed@.contains_key(t))
                <==> !self.active@.contains(t)))
    }

    /// Creates the pool: `pool_size` worker slots, an empty queue, nothing
    /// in flight and nothing completed. The size is fixed for the pool's
    /// lifetime.
    pub fn new(pool_size: usize) -> (pool: Self)
        requires
            pool_size >= 1,
        ensures
            pool.wf(),
            pool.capacity() == pool_size,
            pool.issued() == 0,
            pool.queued() == 0,
            pool.in_flight() == 0,
            forall|t: usize| !pool.is_completed(t),
    {
        WorkerPool {
            pool_size,
            next_ticket: 0,
            pending: Vec::new(),
            active: Vec::new(),
            completed: Ghost(Map::empty()),
        }
    }

    /// Accepts one record for relay and returns its ticket. The record joins
    /// the back of the intake queue; callers are never rejected for
    /// capacity, since the queue is unbounded and only the worker count
    /// bounds in-flight work.
    pub fn submit(&mut self, record: SpanRecord) -> (t: usize)
        requires
            old(self).wf(),
            old(self).issued() < usize::MAX,
        ensures
            final(self).wf(),
            t as int == old(self).issued(),
            final(self).issued() == old(self).issued() + 1,
            final(self).capacity() == old(self).capacity(),
            final(self).in_flight() == old(self).in_flight(),
            final(self).queue() == old(self).queue().push((Submission { ticket: t, record })),
            final(self).is_pending(t),
            forall|x: usize| final(self).is_active(x) == old(self).is_active(x),
            forall|x: usize| final(self).is_completed(x) == old(self).is_completed(x),
            forall|x: usize|
                final(self).is_completed(x) ==> final(self).result_of(x) == old(self).result_of(x),
    {
        let t = self.next_ticket;
        self.pending.push(Submission { ticket: t, record });
        self.next_ticket = self.next_ticket + 1;
        proof {
            assert(self.queue()[self.queue().len() - 1].ticket == t);
        }
        t
    }

    /// Hands the oldest queued submission to a free worker slot, if there is
    /// a free slot and a queued submission; otherwise changes nothing.
    /// Dispatch order is FIFO: the front of the queue goes first. Ownership
    /// of the record moves to the caller, who must run the downstream call
    /// and then report the verdict through `complete`.
    pub fn dispatch(&mut self) -> (job: Option<Submission>)
        requires
            old(self).wf(),
        ensures
            final(self).wf(),
            final(self).capacity() == old(self).capacity(),
            final(self).issued() == old(self).issued(),
            job is Some <==> (old(self).in_flight() < old(self).capacity()
                && old(self).queued() > 0),
            job is None ==> *final(self) == *old(self),
            job matches Some(j) ==> ({
                &&& j == old(self).queue()[0]
                &&& final(self).queue() == old(self).queue().skip(1)
                &&& final(self).in_flight() == old(self).in_flight() + 1
                &&& final(self).is_active(j.ticket)
                &&& !final(self).is_pending(j.ticket)
                &&& forall|x: usize|
                    x != j.ticket ==> final(self).is_active(x) == old(self).is_active(x)
                &&& forall|x: usize| final(self).is_completed(x) == old(self).is_completed(x)
                &&& forall|x: usize|
                    final(self).is_completed(x) ==> final(self).result_of(x) == old(self).result_of(x)
            }),
    {
        if self.active.len() < self.pool_size && self.pending.len() > 0 {
            let ghost pre = *self;
            let j = self.pending.remove(0);
            self.active.push(j.ticket);
            proof {
                self.lemma_dispatch_preserves(pre, j);
            }
            Some(j)
        } else {
            None
        }
    }

    /// The bookkeeping facts behind `dispatch`: moving the queue front onto
    /// a free worker slot keeps the queue contiguous, keeps the active
    /// tickets distinct and below the new queue front, and changes no other
    /// submission's phase.
    proof fn lemma_dispatch_preserves(&self, pre: Self, j: Submission)
        requires
            pre.wf(),
            pre.active@.len() < pre.pool_size,
            pre.pending@.len() > 0,
            j == pre.pending@[0],
            self.pool_size == pre.pool_size,
            self.next_ticket == pre.next_ticket,
            self.completed@ == pre.completed@,
            self.pending@ == pre.pending@.remove(0),
            self.active@ == pre.active@.push(j.ticket),
        ensures
            self.wf(),
            self.queue() == pre.queue().skip(1),
            self.is_active(j.ticket),
            !self.is_pending(j.ticket),
            forall|x: usize| x != j.ticket ==> self.is_active(x) == pre.is_active(x),
            forall|x: usize| self.is_completed(x) == pre.is_completed(x),
            forall|x: usize| self.is_completed(x) ==> self.result_of(x) == pre.result_of(x),
    {
        pre.pending@.remove_ensures(0);
        assert(self.pending@ =~= pre.pending@.skip(1));
        assert(pre.pending@[0].ticket as int == pre.queue_front());
        assert(self.queue_front() == pre.queue_front() + 1);
        assert forall|i: int|
            0 <= i < self.pending@.len() implies (#[trigger] self.pending@[i]).ticket as int
            == self.queue_front() + i by {
            assert(self.pending@[i] == pre.pending@[i + 1]);
        }
        assert forall|m: int|
            0 <= m < self.active@.len() implies ((#[trigger] self.active@[m]) as int)
            < self.queue_front() by {
            if m < pre.active@.len() {
                assert(self.active@[m] == pre.active@[m]);
            } else {
                assert(self.active@[m] == j.ticket);
            }
        }
        assert forall|a: int, b: int|
            0 <= a < b < self.active@.len() implies self.active@[a] != self.active@[b] by {
            if b == pre.active@.len() as int {
                assert(self.active@[a] == pre.active@[a]);
                assert((pre.active@[a] as int) < pre.queue_front());
                assert(self.active@[b] == j.ticket);
            }
        }
        assert forall|x: usize| x != j.ticket implies self.is_active(x) == pre.is_active(
            x,
        ) by {
            if self.active@.contains(x) {
                let m = choose|m: int|
                    0 <= m < self.active@.len() && self.active@[m] == x;
                assert(self.active@[pre.active@.len() as int] == j.ticket);
                assert(m < pre.active@.len());
                assert(pre.active@[m] == x);
                assert(pre.active@.contains(x));
            }
            if pre.active@.contains(x) {
                let m = choose|m: int|
                    0 <= m < pre.active@.len() && pre.active@[m] == x;
                assert(self.active@[m] == x);
                assert(self.active@.contains(x));
            }
        }
        assert(self.active@[self.active@.len() - 1] == j.ticket);
        assert(self.is_active(j.ticket));
        assert(!self.is_pending(j.ticket)) by {
            if self.is_pending(j.ticket) {
                let k = choose|k: int|
                    0 <= k < self.queue().len() && self.queue()[k].ticket == j.ticket;
                assert(self.queue()[k].ticket as int == self.queue_front() + k);
            }
        }
        assert forall|t: usize| #[trigger]
            self.completed@.contains_key(t) implies (t as int) < self.queue_front() by {
            assert(pre.completed@.contains_key(t));
        }
        assert forall|t: usize| (t as int) < self.queue_front() implies ((
        #[trigger] self.completed@.contains_key(t)) <==> !self.active@.contains(t)) by {
            if (t as int) < pre.queue_front() {
                assert(t != j.ticket);
                assert(self.is_active(t) == pre.is_active(t));
                assert(pre.completed@.contains_key(t) <==> !pre.active@.contains(t));
            } else {
                assert(t == j.ticket);
                assert(!pre.completed@.contains_key(t));
                assert(self.active@.contains(t));
            }
        }
    }

    /// Records the worker's verdict for a dispatched submission: the ticket
    /// leaves the in-flight set and its single result is fixed, never to be
    /// re-queued or overwritten. The result is handed back for delivery to
    /// the waiting caller.
    pub fn complete(&mut self, ticket: usize, result: SubmissionResult) -> (delivered:
        SubmissionResult)
        requires
            old(self).wf(),
            old(self).is_active(ticket),
        ensures
            final(self).wf(),
            delivered == result,
            final(self).capacity() == old(self).capacity(),
            final(self).issued() == old(self).issued(),
            final(self).queue() == old(self).queue(),
            final(self).in_flight() == old(self).in_flight() - 1,
            !final(self).is_active(ticket),
            final(self).is_completed(ticket),
            final(self).result_of(ticket) == result,
            forall|x: usize| x != ticket ==> final(self).is_active(x) == old(self).is_active(x),
            forall|x: usize|
                x != ticket ==> final(self).is_completed(x) == old(self).is_completed(x),
            forall|x: usize|
                x != ticket && final(self).is_completed(x) ==> final(self).result_of(x) == old(
                    self,
                ).result_of(x),
    {
        let ghost pre = *self;
        let mut i: usize = 0;
        while i < self.active.len() && self.active[i] != ticket
            invariant
                *self == pre,
                i <= self.active@.len(),
                exists|k: int| i <= k < self.active@.len() && self.active@[k] == ticket,
            decreases self.active@.len() - i,
        {
            i = i + 1;
        }
        proof {
            assert(i < self.active@.len() && self.active@[i as int] == ticket);
        }
        let _found = self.active.remove(i);
        self.completed = Ghost(self.completed@.insert(ticket, result));
        proof {
            self.lemma_complete_preserves(pre, i as int, ticket, result);
        }
        result
    }

    /// The membership facts behind `complete`: removing the one index that
    /// holds `ticket` from a duplicate-free set of active tickets removes
    /// exactly that ticket and keeps every other.
    proof fn lemma_complete_preserves(&self, pre: Self, i: int, ticket: usize, result:
        SubmissionResult)
        requires
            pre.wf(),
            0 <= i < pre.active@.len(),
            pre.active@[i] == ticket,
            self.pool_size == pre.pool_size,
            self.next_ticket == pre.next_ticket,
            self.pending@ == pre.pending@,
            self.active@ == pre.active@.remove(i),
            self.completed@ == pre.completed@.insert(ticket, result),
        ensures
            self.wf(),
            !self.is_active(ticket),
            forall|x: usize| x != ticket ==> self.is_active(x) == pre.is_active(x),
    {
        pre.active@.remove_ensures(i);
        assert forall|x: usize| x != ticket implies self.is_active(x) == pre.is_active(
            x,
        ) by {
            if self.is_active(x) {
                let m = choose|m: int|
                    0 <= m < self.active@.len() && self.active@[m] == x;
                if m < i {
                    assert(pre.active@[m] == x);
                } else {
                    assert(pre.active@[m + 1] == x);
                }
                assert(pre.active@.contains(x));
            }
            if pre.is_active(x) {
                let k = choose|k: int|
                    0 <= k < pre.active@.len() && pre.active@[k] == x;
                if k < i {
                    assert(self.active@[k] == x);
                } else {
                    assert(k != i);
                    assert(self.active@[k - 1] == x);
                }
                assert(self.active@.contains(x));
            }
        }
        assert(!self.active@.contains(ticket)) by {
            if self.active@.contains(ticket) {
                let m = choose|m: int|
                    0 <= m < self.active@.len() && self.active@[m] == ticket;
                if m < i {
                    assert(pre.active@[m] == pre.active@[i]);
                } else {
                    assert(pre.active@[m + 1] == pre.active@[i]);
                }
            }
        }
        assert(self.queue_front() == pre.queue_front());
        assert forall|a: int, b: int|
            0 <= a < b < self.active@.len() implies self.active@[a] != self.active@[b] by {
            let pa: int = if a < i { a } else { a + 1 };
            let pb: int = if b < i { b } else { b + 1 };
            assert(self.active@[a] == pre.active@[pa]);
            assert(self.active@[b] == pre.active@[pb]);
        }
        assert forall|m: int|
            0 <= m < self.active@.len() implies (self.active@[m] as int)
            < self.queue_front() by {
            if m < i {
                assert(self.active@[m] == pre.active@[m]);
            } else {
                assert(self.active@[m] == pre.active@[m + 1]);
            }
        }
        assert((ticket as int) < pre.queue_front());
        assert forall|t: usize| (t as int) < self.queue_front() implies (
        #[trigger] self.completed@.contains_key(t)) <==> !self.active@.contains(t) by {
            if t == ticket {
                assert(self.completed@.contains_key(t));
                assert(!self.active@.contains(t));
            } else {
                assert(self.completed@.contains_key(t) == pre.completed@.contains_key(t));
                assert(self.is_active(t) == pre.is_active(t));
                assert(pre.completed@.contains_key(t) <==> !pre.active@.contains(t));
            }
        }
    }

    /// Whether `ticket` is in flight on a worker right now.
    pub fn ticket_active(&self, ticket: usize) -> (b: bool)
        ensures
            b == self.is_active(ticket),
    {
        let mut i: usize = 0;
        while i < self.active.len()
            invariant
                i <= self.active@.len(),
                forall|k: int| 0 <= k < i ==> self.active@[k] != ticket,
            decreases self.active@.len() - i,
        {
            if self.active[i] == ticket {
                return true;
            }
            i = i + 1;
        }
        false
    }

    /// Reads the pool size back.
    pub fn worker_count(&self) -> (n: usize)
        ensures
            n as int == self.capacity(),
    {
        self.pool_size
    }

    /// How many downstream calls are in flight right now.
    pub fn active_count(&self) -> (n: usize)
        ensures
            n as int == self.in_flight(),
    {
        self.active.len()
    }

    /// How many submissions are waiting for a worker.
    pub fn queue_len(&self) -> (n: usize)
        ensures
            n as int == self.queued(),
    {
        self.pending.len()
    }

    /// How many submissions the pool has accepted so far.
    pub fn submitted_count(&self) -> (n: usize)
        ensures
            n as int == self.issued(),
    {
        self.next_ticket
    }

    /// At no point are more downstream calls in flight than the pool has
    /// workers: the pool size is the hard bound on concurrency, whatever
    /// sequence of submissions arrived.
    pub proof fn lemma_in_flight_bounded(&self)
        requires
            self.wf(),
        ensures
            self.in_flight() <= self.capacity(),
    {
    }

    /// Every accepted submission is in exactly one phase: waiting in the
    /// queue, in flight on a worker, or completed with its single fixed
    /// result. No submission is dropped, and none is answered twice.
    pub proof fn lemma_exactly_one_phase(&self, t: usize)
        requires
            self.wf(),
            (t as int) < self.issued(),
        ensures
            self.is_pending(t) || self.is_active(t) || self.is_completed(t),
            !(self.is_pending(t) && self.is_active(t)),
            !(self.is_pending(t) && self.is_completed(t)),
            !(self.is_active(t) && self.is_completed(t)),
    {
        if (t as int) >= self.queue_front() {
            let i = t as int - self.queue_front();
            assert(self.queue()[i].ticket == t);
            assert(self.is_pending(t));
            assert(!self.is_active(t)) by {
                if self.is_active(t) {
                    let k = choose|k: int|
                        0 <= k < self.active@.len() && self.active@[k] == t;
                    assert((self.active@[k] as int) < self.queue_front());
                }
            }
            assert(!self.is_completed(t));
        } else {
            assert(!self.is_pending(t)) by {
                if self.is_pending(t) {
                    let k = choose|k: int|
                        0 <= k < self.queue().len() && self.queue()[k].ticket == t;
                    assert(self.queue()[k].ticket as int == self.queue_front() + k);
                }
            }
            assert(self.completed@.contains_key(t) <==> !self.active@.contains(t));
        }
    }

    /// The intake queue keeps arrival order: a submission that arrived
    /// earlier stands closer to the front, so dispatch is first-in,
    /// first-out.
    pub proof fn lemma_queue_fifo(&self, i: int, j: int)
        requires
            self.wf(),
            0 <= i < j < self.queued(),
        ensures
            (self.queue()[i].ticket as int) < (self.queue()[j].ticket as int),
    {
        assert(self.queue()[i].ticket as int == self.queue_front() + i);
        assert(self.queue()[j].ticket as int == self.queue_front() + j);
    }
}

} // verus!
