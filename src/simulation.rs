use vstd::multiset::Multiset;
use vstd::prelude::*;

use crate::aggregator::{with_metric, Aggregator};
use crate::attribute::copy_attributes;
use crate::client::Client;
use crate::metric::Metric;
use crate::min_queue::{least_entry, take_due, Entry};
use crate::random::RandomSource;
use crate::request::{may_follow, Data, Request, RequestModel, Status};
use crate::request_queue::{released, still_waiting, swept, RequestQueue};
use crate::routing::route_requests;
use crate::server::{QueueableServer, Server};
use crate::server_queue::ServerQueue;

verus! {

/// Why a simulation refused a change.
#[derive(Debug, Clone, Copy, PartialEq, Eq, Structural)]
pub enum Error {
    /// The simulation has already been enabled.
    AlreadyRunning,
}

/// Durations that fit beside the end of a run: a request handled or
/// abandoning at the last moment still has a representable time.
pub open spec fn fits_after(end: u64, d: u64) -> bool {
    end + d <= u64::MAX
}

/// A client whose times fit beside `end`.
pub open spec fn client_fits(end: u64, c: Client) -> bool {
    fits_after(end, c.handle_time) && fits_after(end, c.abandon_time)
}

/// How many pairs the routing policy makes from `waiting` requests and `free` servers.
pub open spec fn pair_count(waiting: Seq<usize>, free: Seq<usize>) -> nat {
    if waiting.len() <= free.len() {
        waiting.len()
    } else {
        free.len()
    }
}

/// The requests after the first `k` waiting requests are answered at `now`.
pub open spec fn routed_requests(reqs: Seq<RequestModel>, waiting: Seq<usize>, now: u64, k: nat) -> Seq<
    RequestModel,
>
    decreases k,
{
    if k == 0 {
        reqs
    } else {
        let before = routed_requests(reqs, waiting, now, (k - 1) as nat);
        let id = waiting[k - 1] as int;
        before.update(
            id,
            before[id].with(
                Status::Answered,
                Some(now),
                Some((now + before[id].handle_duration) as u64),
            ),
        )
    }
}

/// When the server taking the `j`-th waiting request becomes free again.
pub open spec fn release_time(reqs: Seq<RequestModel>, waiting: Seq<usize>, now: u64, j: int) -> u64 {
    (now + reqs[waiting[j] as int].handle_duration) as u64
}

/// The busy servers after the last `k` free servers take the first `k`
/// waiting requests.
pub open spec fn routed_busy(
    busy: Multiset<Entry>,
    reqs: Seq<RequestModel>,
    waiting: Seq<usize>,
    free: Seq<usize>,
    now: u64,
    k: nat,
) -> Multiset<Entry>
    decreases k,
{
    if k == 0 {
        busy
    } else {
        routed_busy(busy, reqs, waiting, free, now, (k - 1) as nat).insert(
            (release_time(reqs, waiting, now, k - 1), free[free.len() - k]),
        )
    }
}

/// The servers after the last `k` free servers take the first `k` waiting
/// requests.
pub open spec fn routed_servers(
    servers: Seq<QueueableServer>,
    reqs: Seq<RequestModel>,
    waiting: Seq<usize>,
    free: Seq<usize>,
    now: u64,
    k: nat,
) -> Seq<QueueableServer>
    decreases k,
{
    if k == 0 {
        servers
    } else {
        let before = routed_servers(servers, reqs, waiting, free, now, (k - 1) as nat);
        let id = free[free.len() - k] as int;
        before.update(
            id,
            QueueableServer { tick: release_time(reqs, waiting, now, k - 1), ..before[id] },
        )
    }
}

/// The time after a tick at `tick`: one step on while requests wait,
/// otherwise the next arrival or the next server becoming free, whichever is
/// sooner, or the end when there is neither.
pub open spec fn next_time(
    tick: u64,
    tick_size: u64,
    end: u64,
    has_waiting: bool,
    pending: Multiset<Entry>,
    busy: Multiset<Entry>,
) -> int {
    if has_waiting {
        tick + tick_size
    } else if pending.len() > 0 && busy.len() > 0 {
        if least_entry(pending).0 <= least_entry(busy).0 {
            least_entry(pending).0 as int
        } else {
            least_entry(busy).0 as int
        }
    } else if pending.len() > 0 {
        least_entry(pending).0 as int
    } else if busy.len() > 0 {
        least_entry(busy).0 as int
    } else {
        end as int
    }
}

/// Everything that decides how a simulation goes on once enabled.
pub struct SimState {
    pub tick: u64,
    pub tick_size: u64,
    pub end: u64,
    pub running: bool,
    pub enabled: bool,
    pub requests: Seq<RequestModel>,
    pub pending: Multiset<Entry>,
    pub waiting: Seq<usize>,
    pub servers: Seq<QueueableServer>,
    pub busy: Multiset<Entry>,
    pub free: Seq<usize>,
}

/// The state after one tick: abandons, then releases, then routing, then
/// the advance of time.
pub open spec fn next_state(s: SimState) -> SimState {
    if !s.running {
        s
    } else {
        let now = s.tick;
        let released_requests = Seq::new(
            s.requests.len(),
            |i: int| released(swept(s.requests[i], now), now),
        );
        let arrivals = take_due(s.pending, now, s.pending.len());
        let waiting = s.waiting.filter(still_waiting(s.requests, now)) + arrivals.0;
        let freed = take_due(s.busy, now, s.busy.len());
        let free = s.free + freed.0;
        let n = pair_count(waiting, free);
        let busy = routed_busy(freed.1, released_requests, waiting, free, now, n);
        let t = next_time(now, s.tick_size, s.end, waiting.len() > 0, arrivals.1, busy);
        SimState {
            tick: if t >= s.end {
                s.end
            } else {
                t as u64
            },
            running: t < s.end,
            requests: routed_requests(released_requests, waiting, now, n),
            pending: arrivals.1,
            waiting,
            servers: routed_servers(s.servers, released_requests, waiting, free, now, n),
            busy,
            free: free.subrange(0, free.len() - n),
            ..s
        }
    }
}

/// A server as it stands in a simulation once it has joined with `id`: free
/// from time zero.
pub open spec fn joined(server: Server, id: usize) -> QueueableServer {
    QueueableServer { server: Server { id, ..server }, tick: 0 }
}

/// The static inputs from which a `Simulation` is built.
pub struct Config {
    pub end: u64,
    pub tick_size: u64,
    pub clients: Vec<Client>,
    pub servers: Vec<Server>,
    pub rng: RandomSource,
}

impl Config {
    pub fn new(end: u64, tick_size: u64, rng: RandomSource) -> (r: Self)
        ensures
            r.end == end,
            r.tick_size == tick_size,
            r.clients@.len() == 0,
            r.servers@.len() == 0,
    {
        Config { end, tick_size, clients: Vec::new(), servers: Vec::new(), rng }
    }

    pub fn add_client(&mut self, client: Client)
        ensures
            final(self).clients@ == old(self).clients@.push(client),
            final(self).servers@ == old(self).servers@,
            final(self).end == old(self).end,
            final(self).tick_size == old(self).tick_size,
    {
        self.clients.push(client);
    }

    pub fn add_server(&mut self, server: Server)
        ensures
            final(self).servers@ == old(self).servers@.push(server),
            final(self).clients@ == old(self).clients@,
            final(self).end == old(self).end,
            final(self).tick_size == old(self).tick_size,
    {
        self.servers.push(server);
    }

    /// The times of the configuration fit in the range of `u64`.
    pub open spec fn fits(&self) -> bool {
        &&& fits_after(self.end, self.tick_size)
        &&& forall|i: int| 0 <= i < self.clients@.len() ==> client_fits(self.end, #[trigger] self.clients@[i])
    }
}

/// The simulation driver: owns the clients, the request and server queues
/// and the random source, and advances time tick by tick.
pub struct Simulation {
    tick: u64,
    tick_size: u64,
    end: u64,
    running: bool,
    enabled: bool,
    clients: Vec<Client>,
    request_queue: RequestQueue,
    server_queue: ServerQueue,
    statistics: Aggregator,
    rng: RandomSource,
}

impl Simulation {
    /// The state that decides the rest of the run.
    pub closed spec fn state(&self) -> SimState {
        SimState {
            tick: self.tick,
            tick_size: self.tick_size,
            end: self.end,
            running: self.running,
            enabled: self.enabled,
            requests: self.request_queue.reqs(),
            pending: self.request_queue.pending(),
            waiting: self.request_queue.waiting(),
            servers: self.server_queue.srvs(),
            busy: self.server_queue.busy(),
            free: self.server_queue.free(),
        }
    }

    pub closed spec fn requests(&self) -> Seq<RequestModel> {
        self.request_queue.reqs()
    }

    pub closed spec fn clients(&self) -> Seq<Client> {
        self.clients@
    }

    /// The metrics measured over the outcome records.
    pub closed spec fn metrics(&self) -> Seq<Metric> {
        self.statistics.metric_list()
    }

    pub closed spec fn server_count(&self) -> nat {
        self.server_queue.srvs().len()
    }

    pub closed spec fn is_running(&self) -> bool {
        self.running
    }

    pub closed spec fn is_enabled(&self) -> bool {
        self.enabled
    }

    pub closed spec fn current_tick(&self) -> u64 {
        self.tick
    }

    pub closed spec fn end_time(&self) -> u64 {
        self.end
    }

    pub closed spec fn step(&self) -> u64 {
        self.tick_size
    }

    pub closed spec fn wf(&self) -> bool {
        let reqs = self.request_queue.reqs();
        &&& self.request_queue.wf()
        &&& self.server_queue.wf()
        &&& self.statistics.wf()
        &&& self.request_queue.initialised() == self.enabled
        &&& self.server_queue.initialised() == self.enabled
        &&& self.running ==> self.enabled
        &&& self.enabled && !self.running ==> self.tick == self.end
        &&& !self.enabled ==> self.tick == 0 && reqs.len() == 0
        &&& self.tick <= self.end
        &&& fits_after(self.end, self.tick_size)
        &&& forall|i: int| 0 <= i < self.clients@.len() ==> client_fits(self.end, #[trigger] self.clients@[i])
        &&& forall|i: int| 0 <= i < reqs.len() ==> (#[trigger] reqs[i]).start <= self.end
        &&& forall|i: int| 0 <= i < reqs.len() ==> fits_after(self.end, (#[trigger] reqs[i]).handle_duration)
        &&& forall|i: int|
            0 <= i < reqs.len() && (#[trigger] reqs[i]).status != Status::Pending ==> reqs[i].start <= self.tick
    }

    /// A simulation of the span `[0, end]` that steps by `tick_size` while
    /// requests wait.
    pub fn new(end: u64, tick_size: u64, rng: RandomSource) -> (r: Self)
        requires
            fits_after(end, tick_size),
        ensures
            r.wf(),
            !r.is_running(),
            !r.is_enabled(),
            r.current_tick() == 0,
            r.end_time() == end,
            r.step() == tick_size,
            r.clients().len() == 0,
            r.server_count() == 0,
            r.requests().len() == 0,
            r.metrics().len() == 0,
    {
        Simulation {
            tick: 0,
            tick_size,
            end,
            running: false,
            enabled: false,
            clients: Vec::new(),
            request_queue: RequestQueue::new(),
            server_queue: ServerQueue::new(),
            statistics: Aggregator::new(),
            rng,
        }
    }

    /// A simulation with the inputs of `config`.
    pub fn from_config(config: Config) -> (r: Self)
        requires
            config.fits(),
        ensures
            r.wf(),
            !r.is_running(),
            !r.is_enabled(),
            r.end_time() == config.end,
            r.step() == config.tick_size,
            r.clients() == config.clients@,
            r.server_count() == config.servers@.len(),
            r.state().servers == Seq::new(
                config.servers@.len(),
                |i: int| joined(config.servers@[i], i as usize),
            ),
            r.requests().len() == 0,
            r.metrics().len() == 0,
    {
        let Config { end, tick_size, clients, servers, rng } = config;
        let mut sim = Simulation::new(end, tick_size, rng);
        sim.add_servers(servers);
        sim.clients = clients;
        assert(sim.state().servers =~= Seq::new(
            config.servers@.len(),
            |i: int| joined(config.servers@[i], i as usize),
        ));
        sim
    }

    fn add_servers(&mut self, servers: Vec<Server>)
        requires
            old(self).wf(),
            !old(self).enabled,
        ensures
            final(self).wf(),
            !final(self).enabled,
            !final(self).running,
            final(self).state().servers == old(self).state().servers + Seq::new(
                servers@.len(),
                |i: int| joined(servers@[i], (old(self).server_count() + i) as usize),
            ),
            final(self).clients == old(self).clients,
            final(self).end == old(self).end,
            final(self).tick_size == old(self).tick_size,
            final(self).statistics == old(self).statistics,
    {
        let ghost all = servers@;
        let ghost base = self.server_queue.srvs();
        let mut rest = servers;
        let total = rest.len();
        let mut i: usize = 0;
        while rest.len() > 0
            invariant
                total == all.len(),
                self.wf(),
                !self.enabled,
                !self.running,
                i + rest@.len() == all.len(),
                rest@ == all.subrange(i as int, all.len() as int),
                self.server_queue.srvs() == base + Seq::new(
                    i as nat,
                    |j: int| joined(all[j], (base.len() + j) as usize),
                ),
                self.clients == old(self).clients,
                self.end == old(self).end,
                self.tick_size == old(self).tick_size,
                self.statistics == old(self).statistics,
            decreases rest@.len(),
        {
            let server = rest.remove(0);
            let ghost before = self.server_queue.srvs();
            self.server_queue.push(server);
            i += 1;
            proof {
                assert(rest@ =~= all.subrange(i as int, all.len() as int));
                assert(self.server_queue.srvs() =~= before.push(self.server_queue.srvs().last()));
                assert(self.server_queue.srvs() =~= base + Seq::new(
                    i as nat,
                    |j: int| joined(all[j], (base.len() + j) as usize),
                ));
            }
        }
    }

    /// Adds a server.
    ///
    /// Fails with `AlreadyRunning` while the simulation runs.
    pub fn add_server(&mut self, server: Server) -> (r: Result<(), Error>)
        requires
            old(self).wf(),
        ensures
            final(self).wf(),
            r is Err <==> old(self).is_running(),
            r is Err ==> *final(self) == *old(self),
            r is Ok ==> final(self).server_count() == old(self).server_count() + 1
                && final(self).end_time() == old(self).end_time()
                && final(self).step() == old(self).step()
                && final(self).metrics() == old(self).metrics()
                && final(self).state().servers == old(self).state().servers.push(
                joined(server, old(self).server_count() as usize),
            ) && final(self).requests() == old(self).requests()
                && final(self).clients() == old(self).clients()
                && final(self).is_running() == old(self).is_running()
                && final(self).is_enabled() == old(self).is_enabled()
                && final(self).current_tick() == old(self).current_tick(),
    {
        if self.running {
            return Err(Error::AlreadyRunning);
        }
        let ghost before = self.server_queue.srvs();
        self.server_queue.push(server);
        assert(self.server_queue.srvs() =~= before.push(self.server_queue.srvs().last()));
        Ok(())
    }

    /// Adds a client, from which one request is made when the simulation is
    /// enabled.
    ///
    /// Fails with `AlreadyRunning` while the simulation runs.
    pub fn add_client(&mut self, client: Client) -> (r: Result<(), Error>)
        requires
            old(self).wf(),
            client_fits(old(self).end_time(), client),
        ensures
            final(self).wf(),
            r is Err <==> old(self).is_running(),
            r is Err ==> *final(self) == *old(self),
            r is Ok ==> final(self).clients() == old(self).clients().push(client)
                && final(self).end_time() == old(self).end_time()
                && final(self).step() == old(self).step()
                && final(self).metrics() == old(self).metrics()
                && final(self).server_count() == old(self).server_count()
                && final(self).requests() == old(self).requests()
                && final(self).is_running() == old(self).is_running()
                && final(self).is_enabled() == old(self).is_enabled()
                && final(self).current_tick() == old(self).current_tick(),
    {
        if self.running {
            return Err(Error::AlreadyRunning);
        }
        self.clients.push(client);
        Ok(())
    }

    /// Adds a metric to measure once the run is over; it replaces a metric of
    /// the same type.
    ///
    /// Fails with `AlreadyRunning` while the simulation runs.
    pub fn add_metric(&mut self, metric: Metric) -> (r: Result<(), Error>)
        requires
            old(self).wf(),
            metric.wf(),
        ensures
            final(self).wf(),
            r is Err <==> old(self).is_running(),
            r is Err ==> *final(self) == *old(self),
            r is Ok ==> final(self).metrics() == with_metric(old(self).metrics(), metric)
                && final(self).state() == old(self).state()
                && final(self).clients() == old(self).clients()
                && final(self).end_time() == old(self).end_time()
                && final(self).step() == old(self).step(),
    {
        if self.running {
            return Err(Error::AlreadyRunning);
        }
        self.statistics.push(metric);
        Ok(())
    }

    /// The metrics, each measured from empty over the outcome records of
    /// every request.
    ///
    /// Fails with `AlreadyRunning` while the simulation runs.
    pub fn statistics(&self) -> (r: Result<Aggregator, Error>)
        requires
            self.wf(),
        ensures
            r is Err <==> self.is_running(),
            r is Ok ==> r.unwrap().wf() && r.unwrap().metric_list() == self.metrics().map_values(
                |m: Metric| m.spec_cleared().after_all(self.requests().map_values(|q: RequestModel| q.data())),
            ),
    {
        if self.running {
            return Err(Error::AlreadyRunning);
        }
        let mut stats = self.statistics.cleared();
        let data = self.request_data();
        let n = data.len();
        assert(stats.has_room(n as int)) by {
            assert forall|i: int| 0 <= i < stats.metric_list().len() implies (#[trigger] stats.metric_list()[i]).value.room() >= n by {
                assert(stats.metric_list()[i].value.room() >= usize::MAX);
            }
        }
        stats.calculate(&data);
        assert(stats.metric_list() =~= self.metrics().map_values(
            |m: Metric| m.spec_cleared().after_all(self.requests().map_values(|q: RequestModel| q.data())),
        ));
        Ok(stats)
    }

    /// Enables the simulation: makes one pending request per client, with a
    /// start drawn uniformly from `[0, end]`, and marks every server free.
    /// The simulation then advances with `tick` until that returns `false`.
    ///
    /// Fails with `AlreadyRunning` once the simulation has been enabled.
    pub fn enable(&mut self) -> (r: Result<bool, Error>)
        requires
            old(self).wf(),
        ensures
            final(self).wf(),
            r is Err <==> old(self).is_enabled(),
            r is Err ==> *final(self) == *old(self),
            r is Ok ==> {
                &&& r == Ok::<bool, Error>(true)
                &&& final(self).is_running()
                &&& final(self).is_enabled()
                &&& final(self).current_tick() == 0
                &&& final(self).end_time() == old(self).end_time()
                &&& final(self).step() == old(self).step()
                &&& final(self).metrics() == old(self).metrics()
                &&& final(self).state().waiting.len() == 0
                &&& final(self).state().busy.len() == 0
                &&& final(self).state().free == Seq::new(
                    old(self).server_count(),
                    |i: int| i as usize,
                )
                &&& final(self).state().servers == old(self).state().servers
                &&& final(self).clients() == old(self).clients()
                &&& final(self).server_count() == old(self).server_count()
                &&& final(self).requests().len() == old(self).clients().len()
                &&& forall|i: int|
                    0 <= i < final(self).requests().len() ==> {
                        let q = #[trigger] final(self).requests()[i];
                        let c = old(self).clients()[i];
                        &&& q.status == Status::Pending
                        &&& q.id == i
                        &&& q.start <= final(self).end_time()
                        &&& q.abandon_deadline == q.start + c.abandon_time
                        &&& q.handle_duration == c.handle_time
                        &&& q.required_attributes == c.required_attributes@
                    }
            },
    {
        if self.enabled {
            return Err(Error::AlreadyRunning);
        }
        let mut queue = self.generate_requests();
        queue.init();
        self.request_queue = queue;
        self.server_queue.init();
        self.running = true;
        self.enabled = true;
        proof {
            assert(self.server_queue.busy() =~= Multiset::<Entry>::empty()) by {
                assert forall|x: Entry| #[trigger] self.server_queue.busy().count(x) == 0 by {
                    if x.1 < self.server_queue.srvs().len() {
                        assert(self.server_queue.free()[x.1 as int] == x.1);
                    }
                }
            }
            let reqs = self.request_queue.reqs();
            assert forall|i: int| 0 <= i < reqs.len() implies (#[trigger] reqs[i]).start <= self.end
                && fits_after(self.end, reqs[i].handle_duration) by {
                assert(client_fits(self.end, self.clients@[i]));
            }
        }
        Ok(true)
    }

    /// One pending request per client, with its start drawn from `[0, end]`.
    fn generate_requests(&mut self) -> (queue: RequestQueue)
        requires
            old(self).wf(),
        ensures
            final(self).wf(),
            final(self).tick == old(self).tick,
            final(self).running == old(self).running,
            final(self).enabled == old(self).enabled,
            final(self).end == old(self).end,
            final(self).tick_size == old(self).tick_size,
            final(self).clients == old(self).clients,
            final(self).statistics == old(self).statistics,
            final(self).request_queue == old(self).request_queue,
            final(self).server_queue == old(self).server_queue,
            queue.wf(),
            !queue.initialised(),
            queue.reqs().len() == old(self).clients@.len(),
            forall|i: int|
                0 <= i < queue.reqs().len() ==> {
                    let q = #[trigger] queue.reqs()[i];
                    let c = old(self).clients@[i];
                    &&& q.status == Status::Pending
                    &&& q.id == i
                    &&& q.start <= old(self).end
                    &&& q.abandon_deadline == q.start + c.abandon_time
                    &&& q.handle_duration == c.handle_time
                    &&& q.required_attributes == c.required_attributes@
                },
    {
        let mut queue = RequestQueue::new();
        let n = self.clients.len();
        let mut i: usize = 0;
        while i < n
            invariant
                self.wf(),
                self.tick == old(self).tick,
                self.running == old(self).running,
                self.enabled == old(self).enabled,
                self.end == old(self).end,
                self.tick_size == old(self).tick_size,
                self.clients == old(self).clients,
                self.statistics == old(self).statistics,
                self.request_queue == old(self).request_queue,
                self.server_queue == old(self).server_queue,
                n == self.clients@.len(),
                i <= n,
                queue.wf(),
                !queue.initialised(),
                queue.reqs().len() == i,
                forall|j: int|
                    0 <= j < i ==> {
                        let q = #[trigger] queue.reqs()[j];
                        let c = self.clients@[j];
                        &&& q.status == Status::Pending
                        &&& q.id == j
                        &&& q.start <= self.end
                        &&& q.abandon_deadline == q.start + c.abandon_time
                        &&& q.handle_duration == c.handle_time
                        &&& q.required_attributes == c.required_attributes@
                    },
            decreases n - i,
        {
            let start = self.rng.draw(self.end);
            let client = &self.clients[i];
            assert(client_fits(self.end, self.clients@[i as int]));
            let request = Request::new(
                i,
                start,
                start + client.abandon_time,
                client.handle_time,
                copy_attributes(&client.required_attributes),
            );
            queue.push(request);
            i += 1;
        }
        queue
    }

    /// Whether the simulation still runs, and its current time.
    pub fn running(&self) -> (r: (bool, u64))
        ensures
            r == (self.is_running(), self.current_tick()),
    {
        (self.running, self.tick)
    }

    /// The outcome record of every request, in order of creation.
    pub fn request_data(&self) -> (r: Vec<Data>)
        requires
            self.wf(),
        ensures
            r@ == self.requests().map_values(|q: RequestModel| q.data()),
    {
        self.request_queue.outcomes()
    }

    /// Advances the simulation by one step: abandons, then releases, then
    /// routes, then moves time forward. Returns whether it still runs; once it
    /// returns `false` after being enabled, time stands at the end.
    pub fn tick(&mut self) -> (r: bool)
        requires
            old(self).wf(),
        ensures
            final(self).wf(),
            r == final(self).is_running(),
            !r && final(self).is_enabled() ==> final(self).current_tick() == final(self).end_time(),
            !old(self).is_running() ==> *final(self) == *old(self),
            final(self).is_enabled() == old(self).is_enabled(),
            final(self).end_time() == old(self).end_time(),
            final(self).step() == old(self).step(),
            final(self).metrics() == old(self).metrics(),
            final(self).clients() == old(self).clients(),
            final(self).server_count() == old(self).server_count(),
            old(self).current_tick() <= final(self).current_tick(),
            final(self).requests().len() == old(self).requests().len(),
            forall|i: int|
                0 <= i < old(self).requests().len() ==> may_follow(
                    old(self).requests()[i].status,
                    #[trigger] final(self).requests()[i].status,
                ) && final(self).requests()[i].start == old(self).requests()[i].start
                    && final(self).requests()[i].id == old(self).requests()[i].id
                    && final(self).requests()[i].abandon_deadline == old(self).requests()[i].abandon_deadline
                    && final(self).requests()[i].handle_duration == old(self).requests()[i].handle_duration,
            forall|i: int|
                0 <= i < old(self).requests().len() && (old(self).requests()[i].status
                    == Status::Answered || old(self).requests()[i].status == Status::Abandoned)
                    ==> #[trigger] final(self).requests()[i] == old(self).requests()[i],
            forall|i: int|
                0 <= i < old(self).requests().len() && old(self).requests()[i].status
                    == Status::Pending ==> (#[trigger] final(self).requests()[i]).status
                    != Status::Abandoned,
            final(self).state() == next_state(old(self).state()),
    {
        if !self.running {
            return false;
        }
        let ghost s0 = self.state();
        self.request_queue.tick(self.tick);
        self.server_queue.tick(self.tick);
        proof {
            assert(self.request_queue.reqs() =~= Seq::new(
                s0.requests.len(),
                |i: int| released(swept(s0.requests[i], s0.tick), s0.tick),
            ));
        }
        self.do_routing();
        self.increment_tick();
        proof {
            assert(self.state() =~= next_state(s0));
        }
        self.running
    }

    /// Pairs waiting requests with free servers by the routing policy, answers
    /// each paired request now and keeps its server busy until it is done.
    fn do_routing(&mut self)
        requires
            old(self).wf(),
            old(self).running,
            forall|k: int|
                0 <= k < old(self).request_queue.waiting().len() ==> old(self).request_queue.reqs()[#[trigger] old(self).request_queue.waiting()[k] as int].status == Status::Enqueued,
            forall|x: Entry| #[trigger] old(self).server_queue.busy().contains(x) ==> old(self).tick <= x.0,
        ensures
            final(self).wf(),
            final(self).running,
            final(self).tick == old(self).tick,
            final(self).end == old(self).end,
            final(self).tick_size == old(self).tick_size,
            final(self).enabled == old(self).enabled,
            final(self).clients == old(self).clients,
            final(self).statistics == old(self).statistics,
            final(self).server_count() == old(self).server_count(),
            forall|x: Entry| #[trigger] final(self).server_queue.busy().contains(x) ==> final(self).tick <= x.0,
            final(self).requests().len() == old(self).requests().len(),
            forall|i: int|
                0 <= i < old(self).requests().len() ==> #[trigger] final(self).requests()[i] == old(self).requests()[i] || (
                old(self).requests()[i].status == Status::Enqueued && final(self).requests()[i] == old(self).requests()[i].with(
                    Status::Answered,
                    Some(old(self).tick),
                    Some((old(self).tick + old(self).requests()[i].handle_duration) as u64),
                )),
            ({
                let w = old(self).request_queue.waiting();
                let f = old(self).server_queue.free();
                let n = pair_count(w, f);
                let r0 = old(self).request_queue.reqs();
                &&& final(self).request_queue.reqs() == routed_requests(r0, w, old(self).tick, n)
                &&& final(self).request_queue.waiting() == w
                &&& final(self).request_queue.pending() == old(self).request_queue.pending()
                &&& final(self).server_queue.free() == f.subrange(0, f.len() - n)
                &&& final(self).server_queue.busy() == routed_busy(old(self).server_queue.busy(), r0, w, f, old(self).tick, n)
                &&& final(self).server_queue.srvs() == routed_servers(old(self).server_queue.srvs(), r0, w, f, old(self).tick, n)
            }),
    {
        let ghost r0 = self.requests();
        let ghost w = self.request_queue.waiting();
        let ghost f = self.server_queue.free();
        let ghost b0 = self.server_queue.busy();
        let ghost s0 = self.server_queue.srvs();
        let ghost p0 = self.request_queue.pending();
        let request_data = self.request_queue.routing_data();
        let server_data = self.server_queue.routing_data();
        if request_data.len() == 0 || server_data.len() == 0 {
            assert(f.subrange(0, f.len() as int) =~= f);
            return;
        }
        let ghost m = f.len();
        let ghost rd = request_data@;
        let ghost sd = server_data@;
        let routes = route_requests(request_data, server_data);
        assert forall|j: int| 0 <= j < routes@.len() implies #[trigger] routes@[j] == (w[j], f[m - 1 - j]) by {
            assert(rd[j].id == w[j]);
            assert(sd[m - 1 - j].id == f[m - 1 - j]);
        }
        let now = self.tick;
        let mut k: usize = 0;
        while k < routes.len()
            invariant
                now == self.tick,
                self.tick == old(self).tick,
                self.end == old(self).end,
                self.tick_size == old(self).tick_size,
                self.running == old(self).running,
                self.enabled == old(self).enabled,
                self.clients == old(self).clients,
                self.statistics == old(self).statistics,
                self.tick <= self.end,
                self.request_queue.wf(),
                self.server_queue.wf(),
                self.request_queue.initialised() == self.enabled,
                self.server_queue.initialised() == self.enabled,
                self.server_queue.srvs().len() == old(self).server_queue.srvs().len(),
                self.request_queue.waiting() == w,
                w.no_duplicates(),
                f.no_duplicates(),
                m == f.len(),
                k <= routes@.len(),
                routes@.len() <= w.len(),
                routes@.len() <= m,
                forall|j: int| 0 <= j < routes@.len() ==> #[trigger] routes@[j] == (w[j], f[m - 1 - j]),
                forall|j: int| 0 <= j < w.len() ==> #[trigger] w[j] < r0.len(),
                forall|j: int| k <= j < routes@.len() ==> self.requests()[#[trigger] w[j] as int].status == Status::Enqueued,
                forall|j: int| k <= j < routes@.len() ==> self.server_queue.free().contains(#[trigger] f[m - 1 - j]),
                self.requests().len() == r0.len(),
                forall|i: int| 0 <= i < r0.len() ==> (#[trigger] r0[i]).start <= self.end && fits_after(self.end, r0[i].handle_duration),
                forall|i: int| 0 <= i < r0.len() && (#[trigger] r0[i]).status != Status::Pending ==> r0[i].start <= self.tick,
                forall|i: int|
                    0 <= i < r0.len() ==> #[trigger] self.requests()[i] == r0[i] || (r0[i].status == Status::Enqueued
                        && self.requests()[i] == r0[i].with(
                        Status::Answered,
                        Some(now),
                        Some((now + r0[i].handle_duration) as u64),
                    )),
                forall|x: Entry| #[trigger] self.server_queue.busy().contains(x) ==> self.tick <= x.0,
                routes@.len() == pair_count(w, f),
                self.request_queue.reqs() == routed_requests(r0, w, now, k as nat),
                self.request_queue.pending() == p0,
                self.server_queue.free() == f.subrange(0, m - k),
                self.server_queue.busy() == routed_busy(b0, r0, w, f, now, k as nat),
                self.server_queue.srvs() == routed_servers(s0, r0, w, f, now, k as nat),
            decreases routes@.len() - k,
        {
            let (rid, sid) = routes[k];
            assert(rid == w[k as int]);
            assert(self.server_queue.free()[m - 1 - k] == sid);
            assert(self.requests()[rid as int] == r0[rid as int]);
            let release = self.request_queue.handle_request(rid, now);
            let ghost b_before = self.server_queue.busy();
            self.server_queue.enqueue(sid, release);
            proof {
                assert(f.subrange(0, m - k).remove(m - 1 - k) =~= f.subrange(0, m - k - 1));
                assert(r0[rid as int].handle_duration == self.request_queue.reqs()[rid as int].handle_duration);
                assert forall|j: int| k < j < routes@.len() implies self.requests()[#[trigger] w[j] as int].status == Status::Enqueued by {
                    assert(w[j] != w[k as int]);
                }
                assert forall|j: int| k < j < routes@.len() implies self.server_queue.free().contains(#[trigger] f[m - 1 - j]) by {
                    assert(f[m - 1 - j] != f[m - 1 - k]);
                }
                assert forall|x: Entry| #[trigger] self.server_queue.busy().contains(x) implies self.tick <= x.0 by {
                    if x != (release, sid) {
                        assert(b_before.contains(x));
                    }
                }
            }
            k += 1;
        }
    }

    /// Moves time forward: by `tick_size` while requests wait, otherwise to the
    /// next arrival or the next server becoming free, or to the end. Time is
    /// clamped to the end, where the run stops.
    fn increment_tick(&mut self) -> (r: bool)
        requires
            old(self).wf(),
            old(self).running,
            forall|i: int|
                0 <= i < old(self).request_queue.reqs().len() && (#[trigger] old(self).request_queue.reqs()[i]).status == Status::Pending ==> old(self).tick < old(self).request_queue.reqs()[i].start,
            forall|x: Entry| #[trigger] old(self).server_queue.busy().contains(x) ==> old(self).tick <= x.0,
        ensures
            final(self).wf(),
            r == final(self).running,
            old(self).tick <= final(self).tick,
            final(self).end == old(self).end,
            final(self).tick_size == old(self).tick_size,
            final(self).enabled == old(self).enabled,
            final(self).clients == old(self).clients,
            final(self).statistics == old(self).statistics,
            final(self).request_queue == old(self).request_queue,
            final(self).server_queue == old(self).server_queue,
            ({
                let t = next_time(
                    old(self).tick,
                    old(self).tick_size,
                    old(self).end,
                    old(self).request_queue.waiting().len() > 0,
                    old(self).request_queue.pending(),
                    old(self).server_queue.busy(),
                );
                &&& final(self).running == (t < old(self).end)
                &&& final(self).tick == if t >= old(self).end {
                    old(self).end
                } else {
                    t as u64
                }
            }),
    {
        let next = if self.request_queue.has_waiting() {
            self.tick + self.tick_size
        } else {
            let request_head = self.request_queue.next_tick();
            let server_head = self.server_queue.next_tick();
            proof {
                if server_head is Some {
                    assert(self.server_queue.busy().contains(least_entry(self.server_queue.busy())));
                    assert(self.tick <= server_head.unwrap());
                }
                if request_head is Some {
                    let reqs = self.request_queue.reqs();
                    let i = choose|i: int| 0 <= i < reqs.len() && (#[trigger] reqs[i]).status == Status::Pending
                        && reqs[i].start == request_head.unwrap();
                    assert(self.tick < request_head.unwrap());
                }
            }
            match (request_head, server_head) {
                (Some(t), Some(u)) => if t <= u {
                    t
                } else {
                    u
                },
                (Some(t), None) => t,
                (None, Some(u)) => u,
                (None, None) => self.end,
            }
        };
        self.tick = next;
        if self.tick >= self.end {
            self.running = false;
            self.tick = self.end;
        }
        self.running
    }
}

/// Runs are deterministic. The pending arrivals and the busy servers follow
/// from the requests, the servers and the waiting and free lists, so two
/// simulations that agree on those are in one state; a tick takes one state
/// to one next state; and the outcome records agree. Two simulations built
/// from one configuration agree on their servers (`from_config`), and once
/// enabled with the same drawn starts they agree on their requests, with
/// nothing waiting and every server free (`enable`).
pub proof fn lemma_deterministic(a: &Simulation, b: &Simulation)
    requires
        a.wf(),
        b.wf(),
        a.state().tick == b.state().tick,
        a.state().tick_size == b.state().tick_size,
        a.state().end == b.state().end,
        a.state().running == b.state().running,
        a.state().enabled == b.state().enabled,
        a.state().requests == b.state().requests,
        a.state().waiting == b.state().waiting,
        a.state().servers == b.state().servers,
        a.state().free == b.state().free,
    ensures
        a.state() == b.state(),
        next_state(a.state()) == next_state(b.state()),
        a.requests().map_values(|q: RequestModel| q.data()) == b.requests().map_values(
            |q: RequestModel| q.data(),
        ),
{
    let pa = a.request_queue.pending();
    let pb = b.request_queue.pending();
    assert(pa =~= pb) by {
        assert forall|x: Entry| pa.count(x) == pb.count(x) by {
            assert(a.request_queue.pending().count(x) == pb.count(x));
        }
    }
    let ba = a.server_queue.busy();
    let bb = b.server_queue.busy();
    assert(ba =~= bb) by {
        assert forall|x: Entry| ba.count(x) == bb.count(x) by {
            assert(a.server_queue.busy().count(x) == bb.count(x));
        }
    }
    assert(a.state() =~= b.state());
}

/// The queues agree with the requests and servers: a pending arrival is the
/// entry `(start, id)` of each request not yet released, once the simulation
/// is enabled, and a busy server is the entry `(free from, id)` of each server
/// that is not free.
pub proof fn lemma_queues_match(sim: &Simulation)
    requires
        sim.wf(),
    ensures
        forall|x: Entry| #[trigger]
            sim.state().pending.count(x) == if sim.state().enabled && x.1 < sim.state().requests.len()
                && sim.state().requests[x.1 as int].status == Status::Pending
                && sim.state().requests[x.1 as int].start == x.0 {
                1nat
            } else {
                0nat
            },
        forall|x: Entry| #[trigger]
            sim.state().busy.count(x) == if sim.state().enabled && x.1 < sim.state().servers.len()
                && !sim.state().free.contains(x.1) && sim.state().servers[x.1 as int].tick == x.0 {
                1nat
            } else {
                0nat
            },
        forall|k: int|
            0 <= k < sim.state().free.len() ==> #[trigger] sim.state().free[k] < sim.state().servers.len(),
        sim.state().free.no_duplicates(),
        sim.state().waiting.no_duplicates(),
        forall|i: int|
            0 <= i < sim.state().requests.len() && (#[trigger] sim.state().requests[i]).status
                == Status::Enqueued ==> sim.state().waiting.contains(i as usize),
{
    assert forall|x: Entry| #[trigger]
        sim.state().pending.count(x) == if sim.state().enabled && x.1 < sim.state().requests.len()
            && sim.state().requests[x.1 as int].status == Status::Pending
            && sim.state().requests[x.1 as int].start == x.0 {
            1nat
        } else {
            0nat
        } by {
        assert(sim.request_queue.pending().count(x) == sim.state().pending.count(x));
    }
    assert forall|x: Entry| #[trigger]
        sim.state().busy.count(x) == if sim.state().enabled && x.1 < sim.state().servers.len()
            && !sim.state().free.contains(x.1) && sim.state().servers[x.1 as int].tick == x.0 {
            1nat
        } else {
            0nat
        } by {
        assert(sim.server_queue.busy().count(x) == sim.state().busy.count(x));
    }
    assert forall|i: int|
        0 <= i < sim.state().requests.len() && (#[trigger] sim.state().requests[i]).status
            == Status::Enqueued implies sim.state().waiting.contains(i as usize) by {
        assert(sim.request_queue.reqs()[i] == sim.state().requests[i]);
    }
}

/// After `enable`, every request starts within `[0, end]`.
pub proof fn lemma_starts_within_end(sim: &Simulation)
    requires
        sim.wf(),
    ensures
        forall|i: int| 0 <= i < sim.requests().len() ==> (#[trigger] sim.requests()[i]).start <= sim.end_time(),
{
}

/// Every request of a simulation satisfies the lifecycle invariants of its
/// status.
pub proof fn lemma_requests_well_formed(sim: &Simulation)
    requires
        sim.wf(),
    ensures
        forall|i: int| 0 <= i < sim.requests().len() ==> (#[trigger] sim.requests()[i]).wf(),
{
    let reqs = sim.request_queue.reqs();
    assert forall|i: int| 0 <= i < reqs.len() implies (#[trigger] reqs[i]).wf() by {}
}

/// Status changes compose: a status reached in several steps that each obey
/// the lifecycle is reached in one step that obeys it.
pub proof fn lemma_may_follow_transitive(a: Status, b: Status, c: Status)
    requires
        may_follow(a, b),
        may_follow(b, c),
    ensures
        may_follow(a, c),
{
}

} // verus!
