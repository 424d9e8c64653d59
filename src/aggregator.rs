use vstd::prelude::*;

use crate::metric::{folded, reported, Metric, MetricType, Percent, Value};
use crate::request::{Data, Status};

verus! {

/// A set of metrics, at most one of each type, in order of addition, and
/// the simulation whose outcomes they measure.
pub struct Aggregator {
    metrics: Vec<Metric>,
    simulation: usize,
}

/// No two metrics share a type.
pub open spec fn types_unique(ms: Seq<Metric>) -> bool {
    forall|i: int, j: int|
        0 <= i < ms.len() && 0 <= j < ms.len() && i != j ==> (#[trigger] ms[i]).metric_type
            != (#[trigger] ms[j]).metric_type
}

/// `ms` with `m` added: it takes the place of a metric of the same type, or
/// goes at the end.
pub open spec fn with_metric(ms: Seq<Metric>, m: Metric) -> Seq<Metric> {
    if exists|i: int| 0 <= i < ms.len() && (#[trigger] ms[i]).metric_type == m.metric_type {
        let i = choose|i: int| 0 <= i < ms.len() && (#[trigger] ms[i]).metric_type == m.metric_type;
        ms.update(i, m)
    } else {
        ms.push(m)
    }
}

/// `ms` with each metric of `added` added in turn.
pub open spec fn with_metrics(ms: Seq<Metric>, added: Seq<Metric>) -> Seq<Metric>
    decreases added.len(),
{
    if added.len() == 0 {
        ms
    } else {
        with_metric(with_metrics(ms, added.drop_last()), added.last())
    }
}

impl Aggregator {
    pub closed spec fn metric_list(&self) -> Seq<Metric> {
        self.metrics@
    }

    pub closed spec fn simulation_id(&self) -> usize {
        self.simulation
    }

    pub open spec fn wf(&self) -> bool {
        &&& types_unique(self.metric_list())
        &&& forall|i: int| 0 <= i < self.metric_list().len() ==> (#[trigger] self.metric_list()[i]).wf()
    }

    /// Whether every metric can take `n` more reports.
    pub open spec fn has_room(&self, n: int) -> bool {
        forall|i: int| 0 <= i < self.metric_list().len() ==> (#[trigger] self.metric_list()[i]).value.room() >= n
    }

    pub fn new() -> (r: Self)
        ensures
            r.wf(),
            r.metric_list().len() == 0,
            r.simulation_id() == 0,
    {
        Aggregator { metrics: Vec::new(), simulation: 0 }
    }

    /// An aggregator of `metrics`; of several metrics of one type the last is kept.
    pub fn with_metrics(metrics: &Vec<Metric>) -> (r: Self)
        requires
            forall|i: int| 0 <= i < metrics@.len() ==> (#[trigger] metrics@[i]).wf(),
        ensures
            r.wf(),
            r.metric_list() == with_metrics(Seq::empty(), metrics@),
            r.simulation_id() == 0,
            forall|i: int|
                0 <= i < r.metric_list().len() ==> metrics@.contains(#[trigger] r.metric_list()[i]),
    {
        let mut aggregator = Aggregator::new();
        let mut i: usize = 0;
        while i < metrics.len()
            invariant
                i <= metrics@.len(),
                aggregator.wf(),
                aggregator.simulation_id() == 0,
                aggregator.metric_list() == with_metrics(Seq::empty(), metrics@.subrange(0, i as int)),
                forall|a: int|
                    0 <= a < aggregator.metric_list().len() ==> metrics@.contains(#[trigger] aggregator.metric_list()[a]),
                forall|k: int| 0 <= k < metrics@.len() ==> (#[trigger] metrics@[k]).wf(),
            decreases metrics@.len() - i,
        {
            let ghost before = aggregator.metric_list();
            aggregator.push(metrics[i]);
            proof {
                assert forall|a: int|
                    0 <= a < aggregator.metric_list().len() implies metrics@.contains(#[trigger] aggregator.metric_list()[a]) by {
                    if aggregator.metric_list()[a] != metrics@[i as int] {
                        let b = choose|b: int| 0 <= b < before.len() && before[b] == aggregator.metric_list()[a];
                        assert(metrics@.contains(before[b]));
                    } else {
                        assert(metrics@[i as int] == aggregator.metric_list()[a]);
                    }
                }
                let next = metrics@.subrange(0, i + 1);
                assert(next.drop_last() =~= metrics@.subrange(0, i as int));
            }
            i += 1;
        }
        assert(metrics@.subrange(0, i as int) =~= metrics@);
        aggregator
    }

    pub fn set_simulation(&mut self, id: usize)
        ensures
            final(self).simulation_id() == id,
            final(self).metric_list() == old(self).metric_list(),
    {
        self.simulation = id;
    }

    pub fn simulation(&self) -> (r: usize)
        ensures
            r == self.simulation_id(),
    {
        self.simulation
    }

    /// Adds a metric, replacing one of the same type.
    pub fn push(&mut self, m: Metric)
        requires
            old(self).wf(),
            m.wf(),
        ensures
            final(self).wf(),
            final(self).metric_list() == with_metric(old(self).metric_list(), m),
            final(self).simulation_id() == old(self).simulation_id(),
            forall|i: int|
                0 <= i < final(self).metric_list().len() ==> #[trigger] final(self).metric_list()[i] == m
                    || old(self).metric_list().contains(final(self).metric_list()[i]),
    {
        let ghost ms = self.metrics@;
        let mut i: usize = 0;
        while i < self.metrics.len()
            invariant
                self.metrics@ == ms,
                ms == old(self).metric_list(),
                self.simulation == old(self).simulation,
                old(self).wf(),
                m.wf(),
                i <= ms.len(),
                forall|j: int| 0 <= j < i ==> (#[trigger] ms[j]).metric_type != m.metric_type,
            decreases ms.len() - i,
        {
            if self.metrics[i].metric_type == m.metric_type {
                self.metrics.set(i, m);
                proof {
                    let k = choose|k: int| 0 <= k < ms.len() && (#[trigger] ms[k]).metric_type == m.metric_type;
                    if k != i {
                        assert(ms[k].metric_type == ms[i as int].metric_type);
                    }
                    assert(self.metrics@ == ms.update(i as int, m));
                    assert forall|a: int, b: int|
                        0 <= a < self.metrics@.len() && 0 <= b < self.metrics@.len() && a != b implies (#[trigger] self.metrics@[a]).metric_type
                            != (#[trigger] self.metrics@[b]).metric_type by {
                        assert(self.metrics@[a].metric_type == ms[a].metric_type);
                        assert(self.metrics@[b].metric_type == ms[b].metric_type);
                    }
                }
                return;
            }
            i += 1;
        }
        self.metrics.push(m);
        proof {
            assert forall|a: int, b: int|
                0 <= a < self.metrics@.len() && 0 <= b < self.metrics@.len() && a != b implies (#[trigger] self.metrics@[a]).metric_type
                    != (#[trigger] self.metrics@[b]).metric_type by {
                if a < ms.len() {
                    assert(self.metrics@[a] == ms[a]);
                }
                if b < ms.len() {
                    assert(self.metrics@[b] == ms[b]);
                }
            }
        }
    }

    /// The metric of the given type, if there is one.
    pub fn get(&self, metric_type: &MetricType) -> (r: Option<Metric>)
        requires
            self.wf(),
        ensures
            r is None <==> forall|i: int| 0 <= i < self.metric_list().len() ==> (#[trigger] self.metric_list()[i]).metric_type != *metric_type,
            r is Some ==> exists|i: int| 0 <= i < self.metric_list().len() && (#[trigger] self.metric_list()[i]) == r.unwrap() && r.unwrap().metric_type == *metric_type,
    {
        let mut i: usize = 0;
        while i < self.metrics.len()
            invariant
                i <= self.metrics@.len(),
                forall|j: int| 0 <= j < i ==> (#[trigger] self.metrics@[j]).metric_type != *metric_type,
            decreases self.metrics@.len() - i,
        {
            if self.metrics[i].metric_type == *metric_type {
                return Some(self.metrics[i]);
            }
            i += 1;
        }
        None
    }

    /// The same metrics with empty accumulators.
    pub fn cleared(&self) -> (r: Self)
        requires
            self.wf(),
        ensures
            r.wf(),
            r.simulation_id() == self.simulation_id(),
            r.metric_list() == self.metric_list().map_values(|m: Metric| m.spec_cleared()),
            r.has_room(usize::MAX as int),
    {
        let mut metrics: Vec<Metric> = Vec::new();
        let mut i: usize = 0;
        while i < self.metrics.len()
            invariant
                i <= self.metrics@.len(),
                metrics@ == self.metrics@.subrange(0, i as int).map_values(|m: Metric| m.spec_cleared()),
                forall|j: int| 0 <= j < i ==> (#[trigger] metrics@[j]).wf() && metrics@[j].value.room() >= usize::MAX,
            decreases self.metrics@.len() - i,
        {
            metrics.push(self.metrics[i].cleared());
            i += 1;
            assert(metrics@ =~= self.metrics@.subrange(0, i as int).map_values(|m: Metric| m.spec_cleared()));
        }
        assert(self.metrics@.subrange(0, i as int) =~= self.metrics@);
        let r = Aggregator { metrics, simulation: self.simulation };
        assert forall|a: int, b: int|
            0 <= a < r.metrics@.len() && 0 <= b < r.metrics@.len() && a != b implies (#[trigger] r.metrics@[a]).metric_type
                != (#[trigger] r.metrics@[b]).metric_type by {
            assert(r.metrics@[a].metric_type == self.metrics@[a].metric_type);
            assert(r.metrics@[b].metric_type == self.metrics@[b].metric_type);
        }
        r
    }

    /// The metrics, in order of addition.
    pub fn metrics(&self) -> (r: &Vec<Metric>)
        ensures
            r@ == self.metric_list(),
    {
        &self.metrics
    }

    /// Reports every outcome record to every metric.
    pub fn calculate(&mut self, request_data: &Vec<Data>)
        requires
            old(self).wf(),
            old(self).has_room(request_data@.len() as int),
        ensures
            final(self).wf(),
            final(self).simulation_id() == old(self).simulation_id(),
            final(self).metric_list().len() == old(self).metric_list().len(),
            forall|i: int|
                0 <= i < old(self).metric_list().len() ==> #[trigger] final(self).metric_list()[i] == old(self).metric_list()[i].after_all(request_data@),
            forall|i: int|
                0 <= i < old(self).metric_list().len() ==> (#[trigger] final(self).metric_list()[i]).value.room()
                    >= old(self).metric_list()[i].value.room() - request_data@.len(),
    {
        let ghost ms = self.metrics@;
        let n = request_data.len();
        let mut k: usize = 0;
        while k < n
            invariant
                n == request_data@.len(),
                k <= n,
                self.simulation == old(self).simulation,
                self.metrics@.len() == ms.len(),
                types_unique(ms),
                forall|i: int| 0 <= i < ms.len() ==> #[trigger] self.metrics@[i] == ms[i].after_all(request_data@.subrange(0, k as int)),
                forall|i: int| 0 <= i < ms.len() ==> (#[trigger] self.metrics@[i]).wf() && self.metrics@[i].value.room() >= n - k,
                forall|i: int| 0 <= i < ms.len() ==> (#[trigger] self.metrics@[i]).value.room() >= ms[i].value.room() - k,
            decreases n - k,
        {
            let record = &request_data[k];
            let ghost done = self.metrics@;
            let mut j: usize = 0;
            while j < self.metrics.len()
                invariant
                    n == request_data@.len(),
                    k < n,
                    j <= ms.len(),
                    *record == request_data@[k as int],
                    self.simulation == old(self).simulation,
                    self.metrics@.len() == ms.len(),
                    forall|i: int| 0 <= i < j ==> #[trigger] self.metrics@[i] == done[i].after(*record),
                    forall|i: int| j <= i < ms.len() ==> #[trigger] self.metrics@[i] == done[i],
                    forall|i: int| 0 <= i < ms.len() ==> (#[trigger] done[i]).wf() && done[i].value.room() >= n - k,
                    forall|i: int| 0 <= i < ms.len() ==> (#[trigger] done[i]).value.room() >= ms[i].value.room() - k,
                    forall|i: int| 0 <= i < j ==> (#[trigger] self.metrics@[i]).value.room() >= done[i].value.room() - 1,
                    forall|i: int| 0 <= i < j ==> (#[trigger] self.metrics@[i]).wf() && self.metrics@[i].value.room() >= n - k - 1,
                decreases ms.len() - j,
            {
                self.metrics[j].report(record);
                j += 1;
            }
            proof {
                let prefix = request_data@.subrange(0, k + 1);
                assert(prefix.drop_last() =~= request_data@.subrange(0, k as int));
                assert forall|i: int| 0 <= i < ms.len() implies #[trigger] self.metrics@[i] == ms[i].after_all(prefix) by {
                    assert(self.metrics@[i] == done[i].after(*record));
                }
            }
            k += 1;
        }
        proof {
            assert(request_data@.subrange(0, n as int) =~= request_data@);
            assert forall|i: int, j: int|
                0 <= i < self.metrics@.len() && 0 <= j < self.metrics@.len() && i != j implies (#[trigger] self.metrics@[i]).metric_type
                    != (#[trigger] self.metrics@[j]).metric_type by {
                assert(self.metrics@[i].metric_type == ms[i].metric_type);
                assert(self.metrics@[j].metric_type == ms[j].metric_type);
            }
        }
    }
}

/// Reporting two batches one after the other gives the accumulator that
/// reporting their concatenation gives, for every metric type and every
/// accumulator.
pub proof fn lemma_aggregate_split(metric_type: MetricType, value: Value, a: Seq<Data>, b: Seq<Data>)
    ensures
        folded(metric_type, value, a + b) == folded(metric_type, folded(metric_type, value, a), b),
    decreases b.len(),
{
    if b.len() == 0 {
        assert(a + b =~= a);
    } else {
        lemma_aggregate_split(metric_type, value, a, b.drop_last());
        assert((a + b).drop_last() =~= a + b.drop_last());
        assert((a + b).last() == b.last());
    }
}

/// The number of answered records.
pub open spec fn answered_count(rs: Seq<Data>) -> nat
    decreases rs.len(),
{
    if rs.len() == 0 {
        0
    } else {
        answered_count(rs.drop_last()) + if rs.last().status == Status::Answered {
            1nat
        } else {
            0nat
        }
    }
}

/// The number of answered records whose wait is within `window`.
pub open spec fn answered_within(rs: Seq<Data>, window: u64) -> nat
    decreases rs.len(),
{
    if rs.len() == 0 {
        0
    } else {
        answered_within(rs.drop_last(), window) + if rs.last().status == Status::Answered
            && rs.last().wait_time is Some && rs.last().wait_time.unwrap() <= window {
            1nat
        } else {
            0nat
        }
    }
}

/// From an empty accumulator, the service level over records in which every
/// answered request has a wait is the number answered within the window out
/// of the number answered, a ratio in `[0, 1]`.
pub proof fn lemma_service_level(window: u64, rs: Seq<Data>)
    requires
        rs.len() <= u64::MAX,
        forall|i: int| 0 <= i < rs.len() && (#[trigger] rs[i]).status == Status::Answered ==> rs[i].wait_time is Some,
    ensures
        folded(MetricType::ServiceLevel(window), Value::Percent(Percent { hits: 0, total: 0 }), rs)
            == Value::Percent(Percent { hits: answered_within(rs, window) as u64, total: answered_count(rs) as u64 }),
        answered_within(rs, window) <= answered_count(rs) <= rs.len(),
    decreases rs.len(),
{
    if rs.len() > 0 {
        let init = rs.drop_last();
        assert forall|i: int| 0 <= i < init.len() && (#[trigger] init[i]).status == Status::Answered implies init[i].wait_time is Some by {
            assert(init[i] == rs[i]);
        }
        lemma_service_level(window, init);
        assert(rs.last() == rs[rs.len() - 1]);
    }
}

} // verus!
