use vstd::multiset::Multiset;
use vstd::prelude::*;

use crate::attribute::copy_attributes;
use crate::min_queue::{
    entry_le, least_entry, lemma_least_unique, lemma_take_due_step, lemma_take_due_stop, take_due, Entry, MinQueue,
};
use crate::routing::ServerData;
use crate::server::{QueueableServer, Server};

verus! {

/// The servers of a simulation: every server, the free ones, and the busy
/// ones keyed by the time at which they become free.
pub struct ServerQueue {
    servers: Vec<QueueableServer>,
    busy: MinQueue,
    free: Vec<usize>,
    initialised: bool,
}

impl ServerQueue {
    /// Every server, in order of addition; a server's id is its position.
    pub closed spec fn srvs(&self) -> Seq<QueueableServer> {
        self.servers@
    }

    /// The `(available_at, id)` entries of the busy servers.
    pub closed spec fn busy(&self) -> Multiset<Entry> {
        self.busy@
    }

    /// The ids of the free servers.
    pub closed spec fn free(&self) -> Seq<usize> {
        self.free@
    }

    pub closed spec fn initialised(&self) -> bool {
        self.initialised
    }

    pub open spec fn wf(&self) -> bool {
        let srvs = self.srvs();
        let free = self.free();
        &&& forall|i: int| 0 <= i < srvs.len() ==> (#[trigger] srvs[i]).server.id == i
        &&& forall|x: Entry| #[trigger]
            self.busy().count(x) == if self.initialised() && x.1 < srvs.len() && !free.contains(
                x.1,
            ) && srvs[x.1 as int].tick == x.0 {
                1nat
            } else {
                0nat
            }
        &&& !self.initialised() ==> free.len() == 0
        &&& free.no_duplicates()
        &&& forall|k: int| 0 <= k < free.len() ==> #[trigger] free[k] < srvs.len()
    }

    pub fn new() -> (r: Self)
        ensures
            r.wf(),
            r.srvs().len() == 0,
            !r.initialised(),
    {
        ServerQueue {
            servers: Vec::new(),
            busy: MinQueue::new(),
            free: Vec::new(),
            initialised: false,
        }
    }

    pub fn len(&self) -> (r: usize)
        ensures
            r == self.srvs().len(),
    {
        self.servers.len()
    }

    /// Adds a server, giving it the next id in order of addition. Once the
    /// queue is initialised a new server is free at once.
    pub fn push(&mut self, server: Server)
        requires
            old(self).wf(),
        ensures
            final(self).wf(),
            final(self).initialised() == old(self).initialised(),
            final(self).srvs().len() == old(self).srvs().len() + 1,
            final(self).srvs().subrange(0, old(self).srvs().len() as int) == old(self).srvs(),
            final(self).srvs().last().server.id == old(self).srvs().len(),
            final(self).srvs().last().server.attributes == server.attributes,
            final(self).srvs().last().tick == 0,
            final(self).busy() == old(self).busy(),
            final(self).free() == if old(self).initialised() {
                old(self).free().push(old(self).srvs().len() as usize)
            } else {
                old(self).free()
            },
    {
        let ghost b0 = self.busy();
        let ghost s0 = self.srvs();
        let ghost f0 = self.free();
        let mut server = server;
        let id = self.servers.len();
        server.id = id;
        self.servers.push(QueueableServer::new(server));
        if self.initialised {
            self.free.push(id);
        }
        proof {
            assert(self.srvs().subrange(0, s0.len() as int) =~= s0);
            assert(self.busy() == b0);
            assert forall|a: int, b: int| 0 <= a < b < self.free@.len() implies self.free@[a] != self.free@[b] by {
                if self.initialised && b == f0.len() {
                    assert(f0[a] < s0.len());
                }
            }
            assert forall|x: Entry| #[trigger] self.busy().count(x) == if self.initialised() && x.1 < self.srvs().len() && !self.free@.contains(
                x.1,
            ) && self.srvs()[x.1 as int].tick == x.0 {
                1nat
            } else {
                0nat
            } by {
                assert(b0.count(x) == if self.initialised() && x.1 < s0.len() && !f0.contains(
                    x.1,
                ) && s0[x.1 as int].tick == x.0 {
                    1nat
                } else {
                    0nat
                });
                if x.1 < s0.len() {
                    assert(self.srvs()[x.1 as int] == s0[x.1 as int]);
                    if f0.contains(x.1) {
                        let k = choose|k: int| 0 <= k < f0.len() && f0[k] == x.1;
                        assert(self.free@[k] == x.1);
                    }
                    if self.free@.contains(x.1) {
                        let k = choose|k: int| 0 <= k < self.free@.len() && self.free@[k] == x.1;
                        if k == f0.len() {
                            assert(x.1 == id);
                        } else {
                            assert(f0[k] == x.1);
                        }
                    }
                } else if self.initialised() && x.1 == id {
                    assert(self.free@[f0.len() as int] == id);
                }
            }
        }
    }

    /// Marks every server free. Only the first call has an effect.
    pub fn init(&mut self)
        requires
            old(self).wf(),
        ensures
            final(self).wf(),
            final(self).initialised(),
            final(self).srvs() == old(self).srvs(),
            !old(self).initialised() ==> final(self).free() == Seq::new(
                old(self).srvs().len(),
                |i: int| i as usize,
            ),
            old(self).initialised() ==> final(self).free() == old(self).free(),
    {
        if self.initialised {
            return;
        }
        let ghost b0 = self.busy();
        let ghost s0 = self.srvs();
        let n = self.servers.len();
        let mut i: usize = 0;
        while i < n
            invariant
                n == self.servers@.len(),
                self.servers@ == old(self).servers@,
                self.busy@ == b0,
                !self.initialised,
                i <= n,
                self.free@ == Seq::new(i as nat, |j: int| j as usize),
            decreases n - i,
        {
            self.free.push(i);
            i += 1;
            assert(self.free@ =~= Seq::new(i as nat, |j: int| j as usize));
        }
        self.initialised = true;
        proof {
            assert(self.srvs() == s0);
            assert forall|x: Entry| #[trigger] self.busy().count(x) == 0 by {
                assert(self.busy() == b0);
                assert(b0.count(x) == 0);
            }
            assert forall|x: Entry| x.1 < n implies self.free@.contains(x.1) by {
                assert(self.free@[x.1 as int] == x.1);
            }
        }
    }

    /// Frees every busy server whose time has come at `now`.
    pub fn tick(&mut self, now: u64)
        requires
            old(self).wf(),
        ensures
            final(self).wf(),
            final(self).srvs() == old(self).srvs(),
            final(self).initialised() == old(self).initialised(),
            forall|x: Entry| #[trigger] final(self).busy().contains(x) ==> now < x.0,
            final(self).free() == old(self).free() + take_due(old(self).busy(), now, old(self).busy().len()).0,
            final(self).busy() == take_due(old(self).busy(), now, old(self).busy().len()).1,
    {
        let ghost f1 = self.free();
        let ghost b1 = self.busy();
        let mut releasing = true;
        while releasing
            invariant
                self.wf(),
                self.srvs() == old(self).srvs(),
                self.initialised() == old(self).initialised(),
                !releasing ==> forall|x: Entry| #[trigger] self.busy().contains(x) ==> now < x.0,
                self.free() + take_due(self.busy(), now, self.busy().len()).0 == f1 + take_due(b1, now, b1.len()).0,
                take_due(self.busy(), now, self.busy().len()).1 == take_due(b1, now, b1.len()).1,
                !releasing ==> take_due(self.busy(), now, self.busy().len()).0 == Seq::<usize>::empty(),
            decreases self.busy@.len() + if releasing { 1int } else { 0int },
        {
            match self.busy.peek() {
                Some(head) => {
                    if head.0 <= now {
                        let ghost b0 = self.busy();
                        let ghost f0 = self.free@;
                        proof {
                            // the peeked entry is there, so the queue is not empty
                            assert(b0.count(head) > 0);
                        }
                        let (until, idx) = self.busy.pop().unwrap();
                        assert(entry_le(head, (until, idx)) && entry_le((until, idx), head));
                        proof {
                            lemma_take_due_step(b0, now, (until, idx));
                        }
                        assert(b0.count((until, idx)) > 0);
                        assert(b0.count((until, idx)) == 1);
                        self.free.push(idx);
                        proof {
                            assert(self.busy() == b0.remove((until, idx)));
                            assert(self.free() + take_due(self.busy(), now, self.busy().len()).0
                                =~= f0 + take_due(b0, now, b0.len()).0);
                            assert(self.free@[f0.len() as int] == idx);
                            assert forall|x: Entry| #[trigger] self.busy().count(x) == if self.initialised() && x.1 < self.srvs().len() && !self.free@.contains(
                                x.1,
                            ) && self.srvs()[x.1 as int].tick == x.0 {
                                1nat
                            } else {
                                0nat
                            } by {
                                assert(b0.count(x) == if self.initialised() && x.1 < self.srvs().len() && !f0.contains(
                                    x.1,
                                ) && self.srvs()[x.1 as int].tick == x.0 {
                                    1nat
                                } else {
                                    0nat
                                });
                                if x.1 != idx {
                                    if f0.contains(x.1) {
                                        let k = choose|k: int| 0 <= k < f0.len() && f0[k] == x.1;
                                        assert(self.free@[k] == x.1);
                                    }
                                    if self.free@.contains(x.1) {
                                        let k = choose|k: int| 0 <= k < self.free@.len() && self.free@[k] == x.1;
                                        assert(k < f0.len());
                                        assert(f0[k] == x.1);
                                    }
                                }
                            }
                            assert(!f0.contains(idx));
                            assert forall|a: int, b: int| 0 <= a < b < self.free@.len() implies self.free@[a] != self.free@[b] by {
                                if b == f0.len() {
                                    assert(f0[a] == self.free@[a]);
                                }
                            }
                        }
                    } else {
                        releasing = false;
                        proof {
                            lemma_take_due_stop(self.busy(), now);
                            assert forall|x: Entry| #[trigger] self.busy().contains(x) implies now < x.0 by {
                                assert(self.busy@.contains(x));
                                assert(entry_le(head, x));
                            }
                        }
                    }
                },
                None => {
                    releasing = false;
                    proof {
                        lemma_take_due_stop(self.busy(), now);
                        assert forall|x: Entry| #[trigger] self.busy().contains(x) implies now < x.0 by {
                            assert(self.busy@.count(x) > 0);
                        }
                    }
                },
            }
        }
        assert(self.free() =~= self.free() + Seq::<usize>::empty());
    }

    /// The soonest time at which a busy server becomes free.
    pub fn next_tick(&self) -> (r: Option<u64>)
        requires
            self.wf(),
        ensures
            r is None <==> self.busy().len() == 0,
            r is Some ==> self.busy().contains(least_entry(self.busy())),
            r is Some ==> forall|x: Entry| #[trigger] self.busy().contains(x) ==> r.unwrap() <= x.0,
            r == (if self.busy().len() == 0 {
                None::<u64>
            } else {
                Some(least_entry(self.busy()).0)
            }),
    {
        match self.busy.peek() {
            Some(head) => {
                proof {
                    lemma_least_unique(self.busy(), head);
                    assert(self.busy().contains((head.0, head.1)));
                    assert forall|x: Entry| #[trigger] self.busy().contains(x) implies head.0 <= x.0 by {
                        assert(self.busy@.contains(x));
                        assert(entry_le(head, x));
                    }
                }
                Some(head.0)
            },
            None => None,
        }
    }

    /// Snapshots of the free servers, in the order in which they became free.
    pub fn routing_data(&self) -> (r: Vec<ServerData>)
        requires
            self.wf(),
        ensures
            r@.len() == self.free().len(),
            forall|k: int|
                0 <= k < r@.len() ==> (#[trigger] r@[k]).id == self.free()[k]
                    && r@[k].attributes@ == self.srvs()[self.free()[k] as int].server.attributes@,
    {
        let mut data: Vec<ServerData> = Vec::new();
        let mut k: usize = 0;
        while k < self.free.len()
            invariant
                self.wf(),
                k <= self.free@.len(),
                data@.len() == k,
                forall|j: int|
                    0 <= j < k ==> (#[trigger] data@[j]).id == self.free()[j]
                        && data@[j].attributes@ == self.srvs()[self.free()[j] as int].server.attributes@,
            decreases self.free@.len() - k,
        {
            let idx = self.free[k];
            assert(self.free()[k as int] < self.srvs().len());
            let server = self.servers[idx].server();
            let attributes = copy_attributes(server.attributes());
            data.push(ServerData { id: server.id(), attributes });
            k += 1;
        }
        data
    }

    /// Takes the free server `id` until `until`.
    pub fn enqueue(&mut self, id: usize, until: u64)
        requires
            old(self).wf(),
            old(self).free().contains(id),
        ensures
            final(self).wf(),
            final(self).initialised() == old(self).initialised(),
            final(self).srvs().len() == old(self).srvs().len(),
            forall|i: int| 0 <= i < old(self).srvs().len() && i != id ==> #[trigger] final(self).srvs()[i] == old(self).srvs()[i],
            final(self).srvs()[id as int].tick == until,
            forall|s: usize| #[trigger] final(self).free().contains(s) <==> (old(self).free().contains(s) && s != id),
            final(self).free().no_duplicates(),
            final(self).busy() == old(self).busy().insert((until, id)),
            final(self).srvs() == old(self).srvs().update(
                id as int,
                QueueableServer { tick: until, ..old(self).srvs()[id as int] },
            ),
            forall|pos: int|
                0 <= pos < old(self).free().len() && old(self).free()[pos] == id ==> final(self).free()
                    == old(self).free().remove(pos),
    {
        let ghost f0 = self.free@;
        let ghost b0 = self.busy();
        let ghost s0 = self.srvs();
        let mut pos: usize = 0;
        while pos < self.free.len() && self.free[pos] != id
            invariant
                self.free@ == f0,
                f0.contains(id),
                pos <= f0.len(),
                forall|j: int| 0 <= j < pos ==> f0[j] != id,
            decreases f0.len() - pos,
        {
            pos += 1;
        }
        if pos >= self.free.len() {
            proof {
                let k = choose|k: int| 0 <= k < f0.len() && f0[k] == id;
                assert(f0[k] != id);
            }
        }
        self.free.remove(pos);
        let ghost f1 = self.free@;
        assert(f1 =~= f0.remove(pos as int));
        assert forall|s: usize| #[trigger] f1.contains(s) <==> (f0.contains(s) && s != id) by {
            if f1.contains(s) {
                let k = choose|k: int| 0 <= k < f1.len() && f1[k] == s;
                if k < pos {
                    assert(f0[k] == s);
                } else {
                    assert(f0[k + 1] == s);
                }
            }
            if f0.contains(s) && s != id {
                let k = choose|k: int| 0 <= k < f0.len() && f0[k] == s;
                if k < pos {
                    assert(f1[k] == s);
                } else {
                    assert(k != pos);
                    assert(f1[k - 1] == s);
                }
            }
        }
        self.servers[id].tick = until;
        assert(self.srvs() =~= s0.update(id as int, QueueableServer { tick: until, ..s0[id as int] }));
        assert forall|p: int| 0 <= p < f0.len() && f0[p] == id implies f1 == f0.remove(p) by {
            assert(f0[pos as int] == id);
            if p != pos {
                assert(f0.no_duplicates());
            }
        }
        self.busy.push((until, id));
        proof {
            assert forall|x: Entry| #[trigger] self.busy().count(x) == if self.initialised() && x.1 < self.srvs().len() && !f1.contains(
                x.1,
            ) && self.srvs()[x.1 as int].tick == x.0 {
                1nat
            } else {
                0nat
            } by {
                assert(b0.count(x) == if self.initialised() && x.1 < s0.len() && !f0.contains(
                    x.1,
                ) && s0[x.1 as int].tick == x.0 {
                    1nat
                } else {
                    0nat
                });
            }
        }
    }
}

} // verus!
