use vstd::prelude::*;

use crate::attribute::Attribute;
use crate::request::Status;
use crate::request_queue::RequestQueue;

verus! {

/// What the routing policy sees of a waiting request.
#[derive(Debug, Clone)]
pub struct RequestData {
    pub id: usize,
    pub start: u64,
    pub required_attributes: Vec<Attribute>,
}

/// What the routing policy sees of a free server.
#[derive(Debug, Clone)]
pub struct ServerData {
    pub id: usize,
    pub attributes: Vec<Attribute>,
}

/// The pairs that the default policy emits: the `k`-th waiting request is
/// paired with the `k`-th server counted from the end, for as many pairs as
/// both sides allow.
pub open spec fn greedy_routes(requests: Seq<RequestData>, servers: Seq<ServerData>) -> Seq<
    (usize, usize),
> {
    let n = if requests.len() <= servers.len() {
        requests.len()
    } else {
        servers.len()
    };
    Seq::new(n, |k: int| (requests[k].id, servers[servers.len() - 1 - k].id))
}

/// The default routing policy: takes the waiting requests in order and gives
/// each the last free server still unassigned, until either side runs out.
/// Attributes are carried but not used.
pub fn route_requests(requests: Vec<RequestData>, servers: Vec<ServerData>) -> (r: Vec<
    (usize, usize),
>)
    ensures
        r@ == greedy_routes(requests@, servers@),
{
    let ghost all_servers = servers@;
    let mut servers = servers;
    let mut routes: Vec<(usize, usize)> = Vec::new();
    let mut i: usize = 0;
    while i < requests.len()
        invariant
            i <= requests.len(),
            servers@.len() <= all_servers.len(),
            i <= all_servers.len() ==> servers@.len() == all_servers.len() - i,
            i > all_servers.len() ==> servers@.len() == 0,
            servers@ == all_servers.subrange(0, servers@.len() as int),
            routes@.len() == all_servers.len() - servers@.len(),
            forall|k: int|
                0 <= k < routes@.len() ==> #[trigger] routes@[k] == (
                    requests@[k].id,
                    all_servers[all_servers.len() - 1 - k].id,
                ),
        decreases requests.len() - i,
    {
        if let Some(server) = servers.pop() {
            routes.push((requests[i].id, server.id));
        }
        i += 1;
    }
    assert(routes@ =~= greedy_routes(requests@, all_servers));
    routes
}

/// Every request that the default policy routes is waiting and unanswered,
/// and none is routed twice; so each can be handled.
pub proof fn lemma_routed_requests_can_be_handled(
    queue: &RequestQueue,
    requests: Seq<RequestData>,
    servers: Seq<ServerData>,
)
    requires
        queue.wf(),
        forall|k: int|
            0 <= k < queue.waiting().len() ==> queue.reqs()[#[trigger] queue.waiting()[k] as int].status
                == Status::Enqueued,
        requests.len() == queue.waiting().len(),
        forall|k: int| 0 <= k < requests.len() ==> (#[trigger] requests[k]).id == queue.waiting()[k],
    ensures
        forall|k: int|
            0 <= k < greedy_routes(requests, servers).len() ==> {
                let rid = (#[trigger] greedy_routes(requests, servers)[k]).0;
                &&& rid < queue.reqs().len()
                &&& queue.reqs()[rid as int].status == Status::Enqueued
            },
        forall|a: int, b: int|
            0 <= a < b < greedy_routes(requests, servers).len() ==> (#[trigger] greedy_routes(
                requests,
                servers,
            )[a]).0 != (#[trigger] greedy_routes(requests, servers)[b]).0,
{
    let routes = greedy_routes(requests, servers);
    assert forall|k: int| 0 <= k < routes.len() implies (#[trigger] routes[k]).0 == queue.waiting()[k] by {}
    assert forall|a: int, b: int| 0 <= a < b < routes.len() implies (#[trigger] routes[a]).0 != (#[trigger] routes[b]).0 by {
        assert(routes[a].0 == queue.waiting()[a]);
        assert(routes[b].0 == queue.waiting()[b]);
    }
}

} // verus!
