use vstd::multiset::Multiset;
use vstd::prelude::*;

use crate::min_queue::{
    entry_le, is_least, least_entry, lemma_least_unique, lemma_take_due_step, lemma_take_due_stop, take_due, Entry, MinQueue,
};
use crate::attribute::copy_attributes;
use crate::request::{Data, Request, RequestModel, Status};
use crate::routing::RequestData;

verus! {

/// A request after the abandon sweep at `now`: a waiting request whose
/// deadline has come abandons at `now`.
pub open spec fn swept(r: RequestModel, now: u64) -> RequestModel {
    if r.status == Status::Enqueued && r.abandon_deadline <= now {
        r.with(Status::Abandoned, None, Some(now))
    } else {
        r
    }
}

/// A request after the release sweep at `now`: a pending request whose start
/// has come joins the waiting queue.
pub open spec fn released(r: RequestModel, now: u64) -> RequestModel {
    if r.status == Status::Pending && r.start <= now {
        r.with(Status::Enqueued, None, None)
    } else {
        r
    }
}

/// Whether request `i` still waits after the abandon sweep at `now`.
pub open spec fn still_waiting(reqs: Seq<RequestModel>, now: u64) -> spec_fn(usize) -> bool {
    |i: usize| swept(reqs[i as int], now).status == Status::Enqueued
}

/// The requests of a simulation: every request ever pushed, those not yet
/// released (keyed by start), and those waiting for a server.
pub struct RequestQueue {
    requests: Vec<Request>,
    pending: MinQueue,
    waiting: Vec<usize>,
    initialised: bool,
}

impl RequestQueue {
    /// Every request, in order of addition; a request's id is its position.
    pub closed spec fn reqs(&self) -> Seq<RequestModel> {
        self.requests@.map_values(|r: Request| r@)
    }

    /// The `(start, id)` entries of the requests not yet released.
    pub closed spec fn pending(&self) -> Multiset<Entry> {
        self.pending@
    }

    /// The ids of the requests that wait for a server.
    pub closed spec fn waiting(&self) -> Seq<usize> {
        self.waiting@
    }

    pub closed spec fn initialised(&self) -> bool {
        self.initialised
    }

    pub fn is_initialised(&self) -> (r: bool)
        ensures
            r == self.initialised(),
    {
        self.initialised
    }

    pub open spec fn wf(&self) -> bool {
        let reqs = self.reqs();
        let waiting = self.waiting();
        &&& forall|i: int| 0 <= i < reqs.len() ==> (#[trigger] reqs[i]).wf() && reqs[i].id == i
        &&& forall|x: Entry| #[trigger]
            self.pending().count(x) == if self.initialised() && x.1 < reqs.len()
                && reqs[x.1 as int].status == Status::Pending && reqs[x.1 as int].start == x.0 {
                1nat
            } else {
                0nat
            }
        &&& !self.initialised() ==> waiting.len() == 0 && forall|i: int|
            0 <= i < reqs.len() ==> (#[trigger] reqs[i]).status == Status::Pending
        &&& waiting.no_duplicates()
        &&& forall|k: int|
            0 <= k < waiting.len() ==> #[trigger] waiting[k] < reqs.len() && (reqs[waiting[k] as int].status
                == Status::Enqueued || reqs[waiting[k] as int].status == Status::Answered)
        &&& forall|i: int|
            0 <= i < reqs.len() && (#[trigger] reqs[i]).status == Status::Enqueued ==> waiting.contains(
                i as usize,
            )
    }

    pub fn new() -> (r: Self)
        ensures
            r.wf(),
            r.reqs().len() == 0,
            !r.initialised(),
    {
        let r = RequestQueue {
            requests: Vec::new(),
            pending: MinQueue::new(),
            waiting: Vec::new(),
            initialised: false,
        };
        assert(r.reqs() =~= Seq::<RequestModel>::empty());
        r
    }

    pub fn len(&self) -> (r: usize)
        ensures
            r == self.reqs().len(),
    {
        self.requests.len()
    }

    /// Adds a request; it is released only after `init`.
    pub fn push(&mut self, req: Request)
        requires
            old(self).wf(),
            !old(self).initialised(),
            req@.wf(),
            req@.status == Status::Pending,
            req@.id == old(self).reqs().len(),
        ensures
            final(self).wf(),
            !final(self).initialised(),
            final(self).reqs() == old(self).reqs().push(req@),
    {
        let ghost old_reqs = self.reqs();
        let ghost p0 = self.pending();
        self.requests.push(req);
        assert(self.reqs() =~= old_reqs.push(req@));
        assert forall|x: Entry| #[trigger] self.pending().count(x) == 0 by {
            assert(self.pending() == p0);
            assert(p0.count(x) == 0);
        }
    }

    /// Schedules every request for release at its start. Only the first call
    /// has an effect.
    pub fn init(&mut self)
        requires
            old(self).wf(),
        ensures
            final(self).wf(),
            final(self).initialised(),
            final(self).reqs() == old(self).reqs(),
            final(self).waiting() == old(self).waiting(),
    {
        if self.initialised {
            return;
        }
        let ghost reqs = self.reqs();
        assert(self.pending@ =~= Multiset::<Entry>::empty()) by {
            assert forall|x: Entry| self.pending@.count(x) == 0 by {
                assert(self.pending().count(x) == 0);
            }
        }
        let n = self.requests.len();
        let mut i: usize = 0;
        while i < n
            invariant
                n == self.requests.len(),
                i <= n,
                self.reqs() == reqs,
                !self.initialised,
                self.waiting@.len() == 0,
                forall|j: int| 0 <= j < reqs.len() ==> (#[trigger] reqs[j]).wf() && reqs[j].id == j && reqs[j].status == Status::Pending,
                forall|x: Entry| #[trigger]
                    self.pending@.count(x) == if x.1 < i && reqs[x.1 as int].start == x.0 {
                        1nat
                    } else {
                        0nat
                    },
            decreases n - i,
        {
            let start = self.requests[i].start();
            assert(reqs[i as int] == self.requests@[i as int]@);
            self.pending.push((start, i));
            i += 1;
        }
        self.initialised = true;
    }

    /// Advances the queue to `now`: first abandons the waiting requests whose
    /// deadline has come, then releases the pending requests whose start has
    /// come. Afterwards every waiting request is still unanswered.
    pub fn tick(&mut self, now: u64)
        requires
            old(self).wf(),
            old(self).initialised(),
            forall|i: int|
                0 <= i < old(self).reqs().len() && (#[trigger] old(self).reqs()[i]).status
                    != Status::Pending ==> old(self).reqs()[i].start <= now,
        ensures
            final(self).wf(),
            final(self).initialised(),
            final(self).reqs().len() == old(self).reqs().len(),
            forall|i: int|
                0 <= i < old(self).reqs().len() ==> #[trigger] final(self).reqs()[i] == released(
                    swept(old(self).reqs()[i], now),
                    now,
                ),
            forall|k: int|
                0 <= k < final(self).waiting().len() ==> final(self).reqs()[#[trigger] final(self).waiting()[k] as int].status == Status::Enqueued,
            final(self).waiting() == old(self).waiting().filter(still_waiting(old(self).reqs(), now))
                + take_due(old(self).pending(), now, old(self).pending().len()).0,
            final(self).pending() == take_due(old(self).pending(), now, old(self).pending().len()).1,
    {
        self.tick_queued(now);
        self.tick_release_to_queue(now);
    }

    fn tick_queued(&mut self, now: u64)
        requires
            old(self).wf(),
            old(self).initialised(),
            forall|i: int|
                0 <= i < old(self).reqs().len() && (#[trigger] old(self).reqs()[i]).status
                    != Status::Pending ==> old(self).reqs()[i].start <= now,
        ensures
            final(self).wf(),
            final(self).initialised(),
            final(self).reqs().len() == old(self).reqs().len(),
            forall|i: int|
                0 <= i < old(self).reqs().len() ==> #[trigger] final(self).reqs()[i] == swept(
                    old(self).reqs()[i],
                    now,
                ),
            forall|k: int|
                0 <= k < final(self).waiting().len() ==> final(self).reqs()[#[trigger] final(self).waiting()[k] as int].status == Status::Enqueued,
            final(self).waiting() == old(self).waiting().filter(still_waiting(old(self).reqs(), now)),
            final(self).pending() == old(self).pending(),
    {
        let ghost r0 = self.reqs();
        let ghost p0 = self.pending();
        let ghost w = self.waiting@;
        let mut kept: Vec<usize> = Vec::new();
        let n = self.waiting.len();
        let mut k: usize = 0;
        while k < n
            invariant
                n == self.waiting.len(),
                k <= n,
                self.waiting@ == w,
                w.no_duplicates(),
                self.initialised,
                self.pending@ == old(self).pending@,
                self.reqs().len() == r0.len(),
                forall|j: int| 0 <= j < n ==> #[trigger] w[j] < r0.len(),
                forall|j: int| 0 <= j < k ==> #[trigger] self.reqs()[w[j] as int] == swept(r0[w[j] as int], now),
                forall|j: int| k <= j < n ==> #[trigger] self.reqs()[w[j] as int] == r0[w[j] as int],
                forall|i: int| 0 <= i < r0.len() && !w.contains(i as usize) ==> #[trigger] self.reqs()[i] == r0[i],
                forall|i: int| 0 <= i < r0.len() ==> (#[trigger] r0[i]).wf() && r0[i].id == i,
                forall|i: int|
                    0 <= i < r0.len() && (#[trigger] r0[i]).status != Status::Pending ==> r0[i].start <= now,
                kept@.no_duplicates(),
                forall|m: int| 0 <= m < kept@.len() ==> w.subrange(0, k as int).contains(#[trigger] kept@[m]),
                forall|m: int| 0 <= m < kept@.len() ==> self.reqs()[#[trigger] kept@[m] as int].status == Status::Enqueued,
                forall|j: int| 0 <= j < k && self.reqs()[#[trigger] w[j] as int].status == Status::Enqueued ==> kept@.contains(w[j]),
                kept@ == w.subrange(0, k as int).filter(still_waiting(r0, now)),
            decreases n - k,
        {
            let idx = self.waiting[k];
            let ghost before = self.reqs();
            assert(self.requests@[idx as int]@ == r0[idx as int]);
            let cont = self.requests[idx].tick_wait(now);
            proof {
                assert forall|j: int| 0 <= j < n && j != k implies w[j] != idx by {}
                assert(self.reqs() =~= before.update(idx as int, swept(r0[idx as int], now)));
            }
            if cont {
                proof {
                    if kept@.contains(idx) {
                        let m = choose|m: int| 0 <= m < kept@.len() && kept@[m] == idx;
                        assert(w.subrange(0, k as int).contains(kept@[m]));
                        let j = choose|j: int| 0 <= j < k && w.subrange(0, k as int)[j] == idx;
                        assert(w[j] == w[k as int]);
                    }
                }
                let ghost kept0 = kept@;
                kept.push(idx);
                proof {
                    assert(kept@[kept0.len() as int] == idx);
                    assert forall|j: int| 0 <= j < k && self.reqs()[#[trigger] w[j] as int].status == Status::Enqueued implies kept@.contains(w[j]) by {
                        assert(before[w[j] as int].status == Status::Enqueued);
                        assert(kept0.contains(w[j]));
                        let m = choose|m: int| 0 <= m < kept0.len() && kept0[m] == w[j];
                        assert(kept@[m] == w[j]);
                    }
                }
            }
            proof {
                assert(w.subrange(0, k + 1) =~= w.subrange(0, k as int).push(idx));
                w.subrange(0, k as int).lemma_filter_push(idx, still_waiting(r0, now));
                assert forall|m: int| 0 <= m < kept@.len() implies w.subrange(0, k + 1).contains(#[trigger] kept@[m]) by {
                    if kept@[m] == idx {
                        assert(w.subrange(0, k + 1)[k as int] == idx);
                    } else {
                        assert(w.subrange(0, k as int).contains(kept@[m]));
                        let j = choose|j: int| 0 <= j < k && w.subrange(0, k as int)[j] == kept@[m];
                        assert(w.subrange(0, k + 1)[j] == kept@[m]);
                    }
                }
            }
            k += 1;
        }
        self.waiting = kept;
        proof {
            assert(w.subrange(0, n as int) =~= w);
            assert forall|i: int| 0 <= i < r0.len() implies #[trigger] self.reqs()[i] == swept(r0[i], now) by {
                if w.contains(i as usize) {
                    let j = choose|j: int| 0 <= j < n && w[j] == i as usize;
                    assert(self.reqs()[w[j] as int] == swept(r0[w[j] as int], now));
                }
            }
            assert forall|x: Entry| #[trigger] self.pending().count(x) == if x.1 < self.reqs().len()
                && self.reqs()[x.1 as int].status == Status::Pending && self.reqs()[x.1 as int].start == x.0 {
                1nat
            } else {
                0nat
            } by {
                assert(self.pending() == p0);
                assert(p0.count(x) == if x.1 < r0.len()
                    && r0[x.1 as int].status == Status::Pending && r0[x.1 as int].start == x.0 {
                    1nat
                } else {
                    0nat
                });
                if x.1 < r0.len() {
                    assert(self.reqs()[x.1 as int] == swept(r0[x.1 as int], now));
                }
            }
            assert forall|k: int| 0 <= k < self.waiting@.len() implies #[trigger] self.waiting@[k] < self.reqs().len() by {
                assert(w.subrange(0, n as int).contains(self.waiting@[k]));
            }
            assert forall|i: int| 0 <= i < self.reqs().len() && (#[trigger] self.reqs()[i]).status == Status::Enqueued implies self.waiting@.contains(i as usize) by {
                assert(r0[i].status == Status::Enqueued);
                assert(w.contains(i as usize));
                let j = choose|j: int| 0 <= j < n && w[j] == i as usize;
                assert(self.reqs()[w[j] as int].status == Status::Enqueued);
            }
        }
    }

    fn tick_release_to_queue(&mut self, now: u64)
        requires
            old(self).wf(),
            old(self).initialised(),
            forall|k: int|
                0 <= k < old(self).waiting().len() ==> old(self).reqs()[#[trigger] old(self).waiting()[k] as int].status == Status::Enqueued,
        ensures
            final(self).wf(),
            final(self).initialised(),
            final(self).reqs().len() == old(self).reqs().len(),
            forall|i: int|
                0 <= i < old(self).reqs().len() ==> #[trigger] final(self).reqs()[i] == released(
                    old(self).reqs()[i],
                    now,
                ),
            forall|k: int|
                0 <= k < final(self).waiting().len() ==> final(self).reqs()[#[trigger] final(self).waiting()[k] as int].status == Status::Enqueued,
            final(self).waiting() == old(self).waiting() + take_due(old(self).pending(), now, old(self).pending().len()).0,
            final(self).pending() == take_due(old(self).pending(), now, old(self).pending().len()).1,
    {
        let ghost r1 = self.reqs();
        let ghost w1 = self.waiting();
        let ghost p1 = self.pending();
        let mut releasing = true;
        while releasing
            invariant
                self.wf(),
                self.initialised,
                self.reqs().len() == r1.len(),
                forall|k: int|
                    0 <= k < self.waiting@.len() ==> self.reqs()[#[trigger] self.waiting@[k] as int].status
                        == Status::Enqueued,
                forall|i: int|
                    0 <= i < r1.len() ==> #[trigger] self.reqs()[i] == r1[i] || (r1[i].status
                        == Status::Pending && r1[i].start <= now && self.reqs()[i] == r1[i].with(
                        Status::Enqueued,
                        None,
                        None,
                    )),
                !releasing ==> forall|i: int|
                    0 <= i < r1.len() && (#[trigger] self.reqs()[i]).status == Status::Pending ==> now
                        < self.reqs()[i].start,
                self.waiting() + take_due(self.pending(), now, self.pending().len()).0 == w1 + take_due(p1, now, p1.len()).0,
                take_due(self.pending(), now, self.pending().len()).1 == take_due(p1, now, p1.len()).1,
                !releasing ==> take_due(self.pending(), now, self.pending().len()).0 == Seq::<usize>::empty(),
            decreases self.pending@.len() + if releasing { 1int } else { 0int },
        {
            match self.pending.peek() {
                Some(head) => {
                    if head.0 <= now {
                        let ghost before = self.reqs();
                        let ghost pend = self.pending();
                        proof {
                            // the peeked entry is there, so the queue is not empty
                            assert(pend.count(head) > 0);
                        }
                        let (start, idx) = self.pending.pop().unwrap();
                        assert(entry_le(head, (start, idx)) && entry_le((start, idx), head));
                        proof {
                            lemma_take_due_step(pend, now, (start, idx));
                        }
                        assert(pend.count((start, idx)) > 0);
                        assert(pend.count((start, idx)) == 1);
                        assert(before[idx as int].status == Status::Pending);
                        assert(self.requests@[idx as int]@ == before[idx as int]);
                        self.requests[idx].enqueue(now);
                        proof {
                            assert(self.reqs() =~= before.update(
                                idx as int,
                                before[idx as int].with(Status::Enqueued, None, None),
                            ));
                            assert(!self.waiting@.contains(idx)) by {
                                if self.waiting@.contains(idx) {
                                    let k = choose|k: int| 0 <= k < self.waiting@.len() && self.waiting@[k] == idx;
                                    assert(before[self.waiting@[k] as int].status == Status::Enqueued);
                                }
                            }
                            assert forall|x: Entry| #[trigger] self.pending().count(x) == if x.1 < self.reqs().len()
                                && self.reqs()[x.1 as int].status == Status::Pending && self.reqs()[x.1 as int].start == x.0 {
                                1nat
                            } else {
                                0nat
                            } by {
                                assert(pend.count(x) == if x.1 < before.len()
                                && before[x.1 as int].status == Status::Pending && before[x.1 as int].start == x.0 {
                                1nat
                            } else {
                                0nat
                            });
                            }
                        }
                        let ghost w0 = self.waiting@;
                        self.waiting.push(idx);
                        proof {
                            assert(self.pending() == pend.remove((start, idx)));
                            assert(self.waiting() + take_due(self.pending(), now, self.pending().len()).0
                                =~= w0 + take_due(pend, now, pend.len()).0);
                            assert forall|i: int| 0 <= i < self.reqs().len() && (#[trigger] self.reqs()[i]).status == Status::Enqueued implies self.waiting@.contains(i as usize) by {
                                if i != idx {
                                    assert(w0.contains(i as usize));
                                    let k = choose|k: int| 0 <= k < w0.len() && w0[k] == i as usize;
                                    assert(self.waiting@[k] == i as usize);
                                } else {
                                    assert(self.waiting@[w0.len() as int] == idx);
                                }
                            }
                        }
                    } else {
                        releasing = false;
                        proof {
                            lemma_take_due_stop(self.pending(), now);
                            assert forall|i: int| 0 <= i < r1.len() && (#[trigger] self.reqs()[i]).status == Status::Pending implies now < self.reqs()[i].start by {
                                let x: Entry = (self.reqs()[i].start, i as usize);
                                assert(self.pending().count(x) == 1);
                                assert(self.pending@.contains(x));
                                assert(entry_le(head, x));
                            }
                        }
                    }
                },
                None => {
                    releasing = false;
                    proof {
                        lemma_take_due_stop(self.pending(), now);
                        assert forall|i: int| 0 <= i < r1.len() && (#[trigger] self.reqs()[i]).status == Status::Pending implies now < self.reqs()[i].start by {
                            let x: Entry = (self.reqs()[i].start, i as usize);
                            assert(self.pending().count(x) == 1);
                        }
                    }
                },
            }
        }
        assert(self.waiting() =~= self.waiting() + Seq::<usize>::empty());
    }

    /// The earliest start among the requests not yet released.
    pub fn next_tick(&self) -> (r: Option<u64>)
        requires
            self.wf(),
            self.initialised(),
        ensures
            r is None <==> forall|i: int|
                0 <= i < self.reqs().len() ==> (#[trigger] self.reqs()[i]).status != Status::Pending,
            r is Some ==> exists|i: int|
                0 <= i < self.reqs().len() && (#[trigger] self.reqs()[i]).status == Status::Pending
                    && self.reqs()[i].start == r.unwrap(),
            r is Some ==> forall|i: int|
                0 <= i < self.reqs().len() && (#[trigger] self.reqs()[i]).status == Status::Pending
                    ==> r.unwrap() <= self.reqs()[i].start,
            r == (if self.pending().len() == 0 {
                None::<u64>
            } else {
                Some(least_entry(self.pending()).0)
            }),
    {
        match self.pending.peek() {
            Some(head) => {
                proof {
                    lemma_least_unique(self.pending(), head);
                    assert(self.pending().count(head) > 0);
                    assert(self.reqs()[head.1 as int].status == Status::Pending);
                    assert forall|i: int|
                        0 <= i < self.reqs().len() && (#[trigger] self.reqs()[i]).status == Status::Pending
                            implies head.0 <= self.reqs()[i].start by {
                        let x: Entry = (self.reqs()[i].start, i as usize);
                        assert(self.pending().count(x) == 1);
                        assert(self.pending@.contains(x));
                        assert(entry_le(head, x));
                    }
                }
                Some(head.0)
            },
            None => {
                proof {
                    assert forall|i: int| 0 <= i < self.reqs().len() implies (#[trigger] self.reqs()[i]).status
                        != Status::Pending by {
                        let x: Entry = (self.reqs()[i].start, i as usize);
                        if self.reqs()[i].status == Status::Pending {
                            assert(self.pending().count(x) == 1);
                        }
                    }
                }
                None
            },
        }
    }

    /// Every request, in order of addition.
    pub fn requests(&self) -> (r: &Vec<Request>)
        ensures
            r@.map_values(|q: Request| q@) == self.reqs(),
    {
        &self.requests
    }

    pub fn has_waiting(&self) -> (r: bool)
        ensures
            r == (self.waiting().len() > 0),
    {
        self.waiting.len() > 0
    }

    /// Snapshots of the waiting requests, in the order in which they wait.
    pub fn routing_data(&self) -> (r: Vec<RequestData>)
        requires
            self.wf(),
        ensures
            r@.len() == self.waiting().len(),
            forall|k: int|
                0 <= k < r@.len() ==> (#[trigger] r@[k]).id == self.waiting()[k] && r@[k].start
                    == self.reqs()[self.waiting()[k] as int].start
                    && r@[k].required_attributes@ == self.reqs()[self.waiting()[k] as int].required_attributes,
    {
        let mut data: Vec<RequestData> = Vec::new();
        let mut k: usize = 0;
        while k < self.waiting.len()
            invariant
                self.wf(),
                k <= self.waiting@.len(),
                data@.len() == k,
                forall|j: int|
                    0 <= j < k ==> (#[trigger] data@[j]).id == self.waiting()[j] && data@[j].start
                        == self.reqs()[self.waiting()[j] as int].start
                        && data@[j].required_attributes@ == self.reqs()[self.waiting()[j] as int].required_attributes,
            decreases self.waiting@.len() - k,
        {
            let idx = self.waiting[k];
            assert(self.waiting()[k as int] < self.reqs().len());
            let request = &self.requests[idx];
            assert(request@ == self.reqs()[idx as int]);
            let attributes = copy_attributes(request.required_attributes());
            data.push(RequestData { id: request.id(), start: request.start(), required_attributes: attributes });
            k += 1;
        }
        data
    }

    /// Answers the waiting request `id` at `now`; returns the time at which
    /// handling ends. The request leaves the waiting queue at the next tick.
    pub fn handle_request(&mut self, id: usize, now: u64) -> (r: u64)
        requires
            old(self).wf(),
            id < old(self).reqs().len(),
            old(self).reqs()[id as int].status == Status::Enqueued,
            old(self).reqs()[id as int].start <= now,
            now + old(self).reqs()[id as int].handle_duration <= u64::MAX,
        ensures
            final(self).wf(),
            r == now + old(self).reqs()[id as int].handle_duration,
            final(self).reqs() == old(self).reqs().update(
                id as int,
                old(self).reqs()[id as int].with(Status::Answered, Some(now), Some(r)),
            ),
            final(self).waiting() == old(self).waiting(),
            final(self).pending() == old(self).pending(),
            final(self).initialised() == old(self).initialised(),
    {
        let ghost before = self.reqs();
        let ghost p0 = self.pending();
        assert(self.requests@[id as int]@ == before[id as int]);
        let r = self.requests[id].handle(now);
        proof {
            assert(self.reqs() =~= before.update(
                id as int,
                before[id as int].with(Status::Answered, Some(now), Some(r)),
            ));
            assert forall|x: Entry| #[trigger] self.pending().count(x) == if self.initialised() && x.1 < self.reqs().len()
                && self.reqs()[x.1 as int].status == Status::Pending && self.reqs()[x.1 as int].start == x.0 {
                1nat
            } else {
                0nat
            } by {
                assert(self.pending() == p0);
                assert(p0.count(x) == if self.initialised() && x.1 < before.len()
                    && before[x.1 as int].status == Status::Pending && before[x.1 as int].start == x.0 {
                    1nat
                } else {
                    0nat
                });
            }
        }
        r
    }

    /// The outcome record of every request, in order of addition.
    pub fn outcomes(&self) -> (r: Vec<Data>)
        requires
            self.wf(),
        ensures
            r@ == self.reqs().map_values(|q: RequestModel| q.data()),
    {
        let mut data: Vec<Data> = Vec::new();
        let mut i: usize = 0;
        while i < self.requests.len()
            invariant
                self.wf(),
                i <= self.requests@.len(),
                data@ == self.reqs().subrange(0, i as int).map_values(|q: RequestModel| q.data()),
            decreases self.requests@.len() - i,
        {
            assert(self.requests@[i as int]@ == self.reqs()[i as int]);
            data.push(self.requests[i].data());
            i += 1;
            assert(data@ =~= self.reqs().subrange(0, i as int).map_values(|q: RequestModel| q.data()));
        }
        assert(self.reqs().subrange(0, i as int) =~= self.reqs());
        data
    }
}

} // verus!
