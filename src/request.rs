use vstd::prelude::*;

use crate::attribute::Attribute;

verus! {

/// Where a request stands in its lifecycle.
#[derive(Debug, Clone, Copy, PartialEq, Eq, Structural, Hash)]
pub enum Status {
    Pending,
    Enqueued,
    Abandoned,
    Answered,
}

impl Default for Status {
    fn default() -> (r: Self)
        ensures
            r == Status::Pending,
    {
        Status::Pending
    }
}

/// A status may be followed by another: itself, anything after `Pending`, and
/// a terminal state after `Enqueued`. Terminal states are absorbing.
pub open spec fn may_follow(before: Status, after: Status) -> bool {
    ||| before == after
    ||| (before == Status::Pending && after != Status::Pending)
    ||| (before == Status::Enqueued && (after == Status::Answered || after == Status::Abandoned))
}

/// The outcome record of a request, the sole input of the metrics.
#[derive(Debug, Clone, Copy, PartialEq, Eq, Structural)]
pub struct Data {
    pub id: usize,
    pub status: Status,
    pub wait_time: Option<u64>,
    pub handle_time: Option<u64>,
}

/// The abstract state of a `Request`.
pub struct RequestModel {
    pub id: usize,
    pub required_attributes: Seq<Attribute>,
    pub start: u64,
    pub abandon_deadline: u64,
    pub handle_duration: u64,
    pub established: Option<u64>,
    pub end: Option<u64>,
    pub status: Status,
}

impl RequestModel {
    /// The lifecycle invariants of a request.
    pub open spec fn wf(self) -> bool {
        &&& self.start <= self.abandon_deadline
        &&& match self.status {
            Status::Pending | Status::Enqueued => self.established is None && self.end is None,
            Status::Answered => {
                &&& self.established is Some
                &&& self.end is Some
                &&& self.start <= self.established.unwrap()
                &&& self.end.unwrap() == self.established.unwrap() + self.handle_duration
            },
            Status::Abandoned => {
                &&& self.established is None
                &&& self.end is Some
                &&& self.abandon_deadline <= self.end.unwrap()
            },
        }
    }

    /// Time from `start` to being answered, or to abandoning.
    pub open spec fn wait_time(self) -> Option<u64> {
        match self.established {
            Some(t) => Some((t - self.start) as u64),
            None => match self.end {
                Some(t) => Some((t - self.start) as u64),
                None => None,
            },
        }
    }

    /// Time spent being handled; only an answered request has one.
    pub open spec fn handle_time(self) -> Option<u64> {
        if self.status == Status::Answered {
            Some((self.end.unwrap() - self.established.unwrap()) as u64)
        } else {
            None
        }
    }

    pub open spec fn data(self) -> Data {
        Data {
            id: self.id,
            status: self.status,
            wait_time: self.wait_time(),
            handle_time: self.handle_time(),
        }
    }

    /// The same request with another status and times.
    pub open spec fn with(
        self,
        status: Status,
        established: Option<u64>,
        end: Option<u64>,
    ) -> RequestModel {
        RequestModel { status, established, end, ..self }
    }
}

/// A single contact, from arrival to a terminal state.
#[derive(Debug, Clone)]
pub struct Request {
    id: usize,
    required_attributes: Vec<Attribute>,
    start: u64,
    abandon_ticks: u64,
    handle_ticks: u64,
    established: Option<u64>,
    end: Option<u64>,
    status: Status,
}

impl View for Request {
    type V = RequestModel;

    closed spec fn view(&self) -> RequestModel {
        RequestModel {
            id: self.id,
            required_attributes: self.required_attributes@,
            start: self.start,
            abandon_deadline: self.abandon_ticks,
            handle_duration: self.handle_ticks,
            established: self.established,
            end: self.end,
            status: self.status,
        }
    }
}

impl Request {
    /// A pending request that arrives at `start`, abandons from `abandon_ticks`
    /// on and takes `handle_ticks` to handle.
    pub fn new(
        id: usize,
        start: u64,
        abandon_ticks: u64,
        handle_ticks: u64,
        required_attributes: Vec<Attribute>,
    ) -> (r: Self)
        requires
            start <= abandon_ticks,
        ensures
            r@ == (RequestModel {
                id,
                required_attributes: required_attributes@,
                start,
                abandon_deadline: abandon_ticks,
                handle_duration: handle_ticks,
                established: None,
                end: None,
                status: Status::Pending,
            }),
            r@.wf(),
    {
        Request {
            id,
            required_attributes,
            start,
            abandon_ticks,
            handle_ticks,
            established: None,
            end: None,
            status: Status::default(),
        }
    }

    pub fn id(&self) -> (r: usize)
        ensures
            r == self@.id,
    {
        self.id
    }

    /// The time at which the request joins the waiting queue.
    pub fn start(&self) -> (r: u64)
        ensures
            r == self@.start,
    {
        self.start
    }

    pub fn abandon_deadline(&self) -> (r: u64)
        ensures
            r == self@.abandon_deadline,
    {
        self.abandon_ticks
    }

    pub fn handle_duration(&self) -> (r: u64)
        ensures
            r == self@.handle_duration,
    {
        self.handle_ticks
    }

    pub fn add_required_attribute(&mut self, attr: &Attribute)
        ensures
            final(self)@ == (RequestModel {
                required_attributes: old(self)@.required_attributes.push(*attr),
                ..old(self)@
            }),
    {
        self.required_attributes.push(*attr);
    }

    pub fn required_attributes(&self) -> (r: &Vec<Attribute>)
        ensures
            r@ == self@.required_attributes,
    {
        &self.required_attributes
    }

    pub fn status(&self) -> (r: &Status)
        ensures
            *r == self@.status,
    {
        &self.status
    }

    /// Releases a pending request into the waiting queue at `now`.
    pub fn enqueue(&mut self, now: u64)
        requires
            old(self)@.wf(),
            old(self)@.status == Status::Pending,
            old(self)@.start <= now,
        ensures
            final(self)@ == old(self)@.with(Status::Enqueued, None, None),
            final(self)@.wf(),
    {
        self.status = Status::Enqueued;
    }

    /// Checks a waiting request against its abandon deadline at `now`; returns
    /// whether it goes on waiting.
    pub fn tick_wait(&mut self, now: u64) -> (r: bool)
        requires
            old(self)@.wf(),
            old(self)@.status == Status::Enqueued ==> old(self)@.start <= now,
        ensures
            final(self)@.wf(),
            old(self)@.status != Status::Enqueued ==> !r && final(self)@ == old(self)@,
            old(self)@.status == Status::Enqueued && old(self)@.abandon_deadline <= now ==> !r
                && final(self)@ == old(self)@.with(Status::Abandoned, None, Some(now)),
            old(self)@.status == Status::Enqueued && now < old(self)@.abandon_deadline ==> r
                && final(self)@ == old(self)@,
    {
        if self.status != Status::Enqueued {
            return false;
        }
        if self.abandon_ticks <= now {
            self.status = Status::Abandoned;
            self.end = Some(now);
            false
        } else {
            true
        }
    }

    /// Answers a waiting request at `now`; returns the time at which handling
    /// ends, which is when its server becomes free again.
    pub fn handle(&mut self, now: u64) -> (r: u64)
        requires
            old(self)@.wf(),
            old(self)@.status == Status::Enqueued,
            old(self)@.start <= now,
            now + old(self)@.handle_duration <= u64::MAX,
        ensures
            r == now + old(self)@.handle_duration,
            final(self)@ == old(self)@.with(Status::Answered, Some(now), Some(r)),
            final(self)@.wf(),
    {
        let end = now + self.handle_ticks;
        self.established = Some(now);
        self.end = Some(end);
        self.status = Status::Answered;
        end
    }

    /// The time from arrival to being answered or abandoning, if either happened.
    pub fn wait_time(&self) -> (r: Option<u64>)
        requires
            self@.wf(),
        ensures
            r == self@.wait_time(),
    {
        match self.established {
            Some(t) => Some(t - self.start),
            None => match self.end {
                Some(t) => Some(t - self.start),
                None => None,
            },
        }
    }

    /// The time spent being handled, for an answered request.
    pub fn handle_time(&self) -> (r: Option<u64>)
        requires
            self@.wf(),
        ensures
            r == self@.handle_time(),
    {
        if self.status == Status::Answered {
            match (self.established, self.end) {
                (Some(established), Some(end)) => Some(end - established),
                _ => None,
            }
        } else {
            None
        }
    }

    /// The outcome record of this request.
    pub fn data(&self) -> (r: Data)
        requires
            self@.wf(),
        ensures
            r == self@.data(),
    {
        Data {
            id: self.id,
            status: self.status,
            wait_time: self.wait_time(),
            handle_time: self.handle_time(),
        }
    }
}

} // verus!
