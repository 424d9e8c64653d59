use vstd::prelude::*;

use crate::request::{Data, Status};

verus! {

/// What a metric measures over the outcome records.
#[derive(Debug, Clone, Copy, PartialEq, Eq, Structural, Hash)]
pub enum MetricType {
    /// Share of answered requests whose wait is within the window.
    ServiceLevel(u64),
    /// Mean handle time of answered requests.
    AverageWorkTime,
    /// Mean wait of answered requests.
    AverageSpeedAnswer,
    /// Mean wait of abandoned requests.
    AverageTimeToAbandon,
    /// Share of all requests that abandoned.
    AbandonRate,
    /// Mean wait of every request that has one.
    AverageTimeInQueue,
    /// Share of server time spent answering; not measured yet.
    UtilisationTime,
    /// Number of answered requests.
    AnswerCount,
}

/// A sum of durations and how many were added; its value is the mean.
#[derive(Debug, Clone, Copy, PartialEq, Eq, Structural)]
pub struct MeanDuration {
    pub sum: u128,
    pub count: u64,
}

/// A number of occurrences.
#[derive(Debug, Clone, Copy, PartialEq, Eq, Structural)]
pub struct Count {
    pub count: usize,
}

/// Hits out of a total; its value is the ratio.
#[derive(Debug, Clone, Copy, PartialEq, Eq, Structural)]
pub struct Percent {
    pub hits: u64,
    pub total: u64,
}

/// An accumulator of one of the three kinds.
#[derive(Debug, Clone, Copy, PartialEq, Eq, Structural)]
pub enum Value {
    MeanDuration(MeanDuration),
    Count(Count),
    Percent(Percent),
}

/// A metric's target: a value of the same kind as its accumulator.
pub type Target = Value;

/// How a metric's value is held against its target.
#[derive(Debug, Clone, Copy, PartialEq, Eq, Structural)]
pub enum TargetCondition {
    LessOrEqual,
    GreaterOrEqual,
    Equal,
}

/// Why a metric could not be made.
#[derive(Debug, Clone, Copy, PartialEq, Eq, Structural)]
pub enum MetricError {
    /// The target is not of the kind that the metric accumulates.
    BadTarget,
}

impl MeanDuration {
    pub open spec fn wf(self) -> bool {
        self.sum <= self.count * (u64::MAX as int)
    }

    pub open spec fn added(self, d: u64) -> MeanDuration {
        MeanDuration { sum: (self.sum + d) as u128, count: (self.count + 1) as u64 }
    }

    pub fn report(&mut self, duration: u64)
        requires
            old(self).wf(),
            old(self).count < u64::MAX,
        ensures
            *final(self) == old(self).added(duration),
            final(self).wf(),
    {
        assert(self.sum + duration <= (self.count + 1) * (u64::MAX as int)) by (nonlinear_arith)
            requires
                self.sum <= self.count * (u64::MAX as int),
                duration <= u64::MAX,
        ;
        assert((self.count + 1) * (u64::MAX as int) <= u128::MAX) by (nonlinear_arith)
            requires
                self.count < u64::MAX,
        ;
        self.count = self.count + 1;
        self.sum = self.sum + duration as u128;
    }

    /// The mean, rounded down to whole nanoseconds; `None` before any report.
    pub fn mean(&self) -> (r: Option<u128>)
        ensures
            r == (if self.count == 0 {
                None
            } else {
                Some((self.sum / self.count as u128) as u128)
            }),
    {
        if self.count == 0 {
            None
        } else {
            Some(self.sum / self.count as u128)
        }
    }
}

impl Count {
    pub fn report(&mut self)
        requires
            old(self).count < usize::MAX,
        ensures
            final(self).count == old(self).count + 1,
    {
        self.count = self.count + 1;
    }
}

impl Percent {
    pub open spec fn wf(self) -> bool {
        self.hits <= self.total
    }

    pub open spec fn added(self, in_range: bool) -> Percent {
        Percent {
            hits: if in_range {
                (self.hits + 1) as u64
            } else {
                self.hits
            },
            total: (self.total + 1) as u64,
        }
    }

    pub fn report(&mut self, in_range: bool)
        requires
            old(self).wf(),
            old(self).total < u64::MAX,
        ensures
            *final(self) == old(self).added(in_range),
            final(self).wf(),
    {
        if in_range {
            self.hits = self.hits + 1;
        }
        self.total = self.total + 1;
    }
}

impl Value {
    pub fn default_mean_duration() -> (r: Self)
        ensures
            r == Value::MeanDuration(MeanDuration { sum: 0, count: 0 }),
    {
        Value::MeanDuration(MeanDuration { sum: 0, count: 0 })
    }

    pub fn default_count() -> (r: Self)
        ensures
            r == Value::Count(Count { count: 0 }),
    {
        Value::Count(Count { count: 0 })
    }

    pub fn default_percent() -> (r: Self)
        ensures
            r == Value::Percent(Percent { hits: 0, total: 0 }),
    {
        Value::Percent(Percent { hits: 0, total: 0 })
    }

    /// A target mean of `duration`.
    pub fn mean_duration(duration: u64) -> (r: Self)
        ensures
            r == Value::MeanDuration(MeanDuration { sum: duration as u128, count: 1 }),
    {
        Value::MeanDuration(MeanDuration { sum: duration as u128, count: 1 })
    }

    /// A target count.
    pub fn count(count: usize) -> (r: Self)
        ensures
            r == Value::Count(Count { count }),
    {
        Value::Count(Count { count })
    }

    /// A target ratio of `numerator / denominator`.
    pub fn percent(numerator: u64, denominator: u64) -> (r: Self)
        ensures
            r == Value::Percent(Percent { hits: numerator, total: denominator }),
    {
        Value::Percent(Percent { hits: numerator, total: denominator })
    }

    pub open spec fn wf(self) -> bool {
        match self {
            Value::MeanDuration(m) => m.wf(),
            Value::Count(_) => true,
            Value::Percent(p) => p.wf(),
        }
    }

    /// How many more reports the accumulator can take.
    pub open spec fn room(self) -> int {
        match self {
            Value::MeanDuration(m) => u64::MAX - m.count,
            Value::Count(c) => usize::MAX - c.count,
            Value::Percent(p) => u64::MAX - p.total,
        }
    }

    /// Whether the accumulator has had no report.
    pub open spec fn is_empty(self) -> bool {
        match self {
            Value::MeanDuration(m) => m.count == 0,
            Value::Count(_) => false,
            Value::Percent(p) => p.total == 0,
        }
    }
}

/// Whether `target` is of the accumulator kind that `metric_type` uses.
pub open spec fn target_matches(metric_type: MetricType, target: Value) -> bool {
    match (metric_type, target) {
        (MetricType::AverageWorkTime, Value::MeanDuration(_)) => true,
        (MetricType::AverageSpeedAnswer, Value::MeanDuration(_)) => true,
        (MetricType::AverageTimeInQueue, Value::MeanDuration(_)) => true,
        (MetricType::AverageTimeToAbandon, Value::MeanDuration(_)) => true,
        (MetricType::UtilisationTime, Value::Percent(_)) => true,
        (MetricType::ServiceLevel(_), Value::Percent(_)) => true,
        (MetricType::AbandonRate, Value::Percent(_)) => true,
        (MetricType::AnswerCount, Value::Count(_)) => true,
        _ => false,
    }
}

/// The comparison that a metric of this type holds its value to.
pub open spec fn condition_of(metric_type: MetricType) -> TargetCondition {
    match metric_type {
        MetricType::AnswerCount => TargetCondition::Equal,
        MetricType::UtilisationTime | MetricType::ServiceLevel(_) => TargetCondition::GreaterOrEqual,
        _ => TargetCondition::LessOrEqual,
    }
}

/// The empty accumulator of the kind of `target`.
pub open spec fn empty_like(target: Value) -> Value {
    match target {
        Value::MeanDuration(_) => Value::MeanDuration(MeanDuration { sum: 0, count: 0 }),
        Value::Count(_) => Value::Count(Count { count: 0 }),
        Value::Percent(_) => Value::Percent(Percent { hits: 0, total: 0 }),
    }
}

/// The accumulator after one outcome record has been reported to it.
pub open spec fn reported(metric_type: MetricType, value: Value, r: Data) -> Value {
    match (metric_type, value) {
        (MetricType::ServiceLevel(window), Value::Percent(p)) => if r.status == Status::Answered
            && r.wait_time is Some {
            Value::Percent(p.added(r.wait_time.unwrap() <= window))
        } else {
            value
        },
        (MetricType::AverageWorkTime, Value::MeanDuration(m)) => if r.status == Status::Answered
            && r.handle_time is Some {
            Value::MeanDuration(m.added(r.handle_time.unwrap()))
        } else {
            value
        },
        (MetricType::AverageSpeedAnswer, Value::MeanDuration(m)) => if r.status == Status::Answered
            && r.wait_time is Some {
            Value::MeanDuration(m.added(r.wait_time.unwrap()))
        } else {
            value
        },
        (MetricType::AverageTimeToAbandon, Value::MeanDuration(m)) => if r.status
            == Status::Abandoned && r.wait_time is Some {
            Value::MeanDuration(m.added(r.wait_time.unwrap()))
        } else {
            value
        },
        (MetricType::AbandonRate, Value::Percent(p)) => Value::Percent(
            p.added(r.status == Status::Abandoned),
        ),
        (MetricType::AverageTimeInQueue, Value::MeanDuration(m)) => if r.wait_time is Some {
            Value::MeanDuration(m.added(r.wait_time.unwrap()))
        } else {
            value
        },
        (MetricType::AnswerCount, Value::Count(c)) => if r.status == Status::Answered {
            Value::Count(Count { count: (c.count + 1) as usize })
        } else {
            value
        },
        _ => value,
    }
}

/// The accumulator after every record of `rs` has been reported, in order.
pub open spec fn folded(metric_type: MetricType, value: Value, rs: Seq<Data>) -> Value
    decreases rs.len(),
{
    if rs.len() == 0 {
        value
    } else {
        reported(metric_type, folded(metric_type, value, rs.drop_last()), rs.last())
    }
}

/// Whether `value` meets `target` under `condition`. An accumulator with no
/// report yet meets any target.
pub open spec fn meets(condition: TargetCondition, value: Value, target: Value) -> bool {
    if value.is_empty() {
        true
    } else {
        match (value, target) {
            (Value::MeanDuration(v), Value::MeanDuration(t)) => {
                let vm = v.sum as int / v.count as int;
                let tm = if t.count == 0 {
                    0
                } else {
                    t.sum as int / t.count as int
                };
                match condition {
                    TargetCondition::LessOrEqual => vm <= tm,
                    TargetCondition::GreaterOrEqual => vm >= tm,
                    TargetCondition::Equal => vm == tm,
                }
            },
            (Value::Count(v), Value::Count(t)) => match condition {
                TargetCondition::LessOrEqual => v.count <= t.count,
                TargetCondition::GreaterOrEqual => v.count >= t.count,
                TargetCondition::Equal => v.count == t.count,
            },
            (Value::Percent(v), Value::Percent(t)) => {
                let lhs = v.hits as int * t.total as int;
                let rhs = t.hits as int * v.total as int;
                match condition {
                    TargetCondition::LessOrEqual => lhs <= rhs,
                    TargetCondition::GreaterOrEqual => lhs >= rhs,
                    TargetCondition::Equal => lhs == rhs,
                }
            },
            _ => false,
        }
    }
}

/// A measure over the outcome records, with its target.
#[derive(Debug, Clone, Copy, PartialEq, Eq, Structural)]
pub struct Metric {
    pub metric_type: MetricType,
    pub value: Value,
    pub target: Target,
    pub target_condition: TargetCondition,
}

impl Metric {
    pub open spec fn wf(self) -> bool {
        self.value.wf()
    }

    /// The metric with an empty accumulator of the same kind.
    pub open spec fn spec_cleared(self) -> Metric {
        Metric { value: empty_like(self.value), ..self }
    }

    /// The same metric with an empty accumulator of the same kind.
    pub fn cleared(&self) -> (r: Metric)
        ensures
            r == self.spec_cleared(),
            r.wf(),
            r.value.room() >= usize::MAX,
    {
        let value = match self.value {
            Value::MeanDuration(_) => Value::default_mean_duration(),
            Value::Count(_) => Value::default_count(),
            Value::Percent(_) => Value::default_percent(),
        };
        Metric { value, ..*self }
    }

    /// The metric with `r` reported.
    pub open spec fn after(self, r: Data) -> Metric {
        Metric { value: reported(self.metric_type, self.value, r), ..self }
    }

    /// The metric with every record of `rs` reported, in order.
    pub open spec fn after_all(self, rs: Seq<Data>) -> Metric {
        Metric { value: folded(self.metric_type, self.value, rs), ..self }
    }

    /// A metric with an empty accumulator. Durations are compared with `<=`,
    /// as is the abandon rate; the service level and utilisation with `>=`;
    /// the answer count with `==`.
    ///
    /// Fails with `BadTarget` when the target is not of the kind that the
    /// metric accumulates.
    pub fn with_target(metric_type: MetricType, target: Target) -> (r: Result<Self, MetricError>)
        ensures
            r is Err <==> !target_matches(metric_type, target),
            r is Err ==> r == Err::<Self, MetricError>(MetricError::BadTarget),
            r is Ok ==> r.unwrap() == (Metric {
                metric_type,
                value: empty_like(target),
                target,
                target_condition: condition_of(metric_type),
            }),
            r is Ok ==> r.unwrap().wf(),
    {
        match (metric_type, target) {
            (
                MetricType::AverageWorkTime
                | MetricType::AverageSpeedAnswer
                | MetricType::AverageTimeInQueue
                | MetricType::AverageTimeToAbandon,
                Value::MeanDuration(_),
            ) => Ok(Metric {
                metric_type,
                value: Value::default_mean_duration(),
                target,
                target_condition: TargetCondition::LessOrEqual,
            }),
            (MetricType::UtilisationTime | MetricType::ServiceLevel(_), Value::Percent(_)) => Ok(
                Metric {
                    metric_type,
                    value: Value::default_percent(),
                    target,
                    target_condition: TargetCondition::GreaterOrEqual,
                },
            ),
            (MetricType::AbandonRate, Value::Percent(_)) => Ok(
                Metric {
                    metric_type,
                    value: Value::default_percent(),
                    target,
                    target_condition: TargetCondition::LessOrEqual,
                },
            ),
            (MetricType::AnswerCount, Value::Count(_)) => Ok(
                Metric {
                    metric_type,
                    value: Value::default_count(),
                    target,
                    target_condition: TargetCondition::Equal,
                },
            ),
            _ => Err(MetricError::BadTarget),
        }
    }

    pub fn metric(&self) -> (r: MetricType)
        ensures
            r == self.metric_type,
    {
        self.metric_type
    }

    pub fn value(&self) -> (r: Value)
        ensures
            r == self.value,
    {
        self.value
    }

    /// Whether the value meets the target under the metric's condition.
    pub fn on_target(&self) -> (r: bool)
        ensures
            r == meets(self.target_condition, self.value, self.target),
    {
        let empty = match self.value {
            Value::MeanDuration(m) => m.count == 0,
            Value::Count(_) => false,
            Value::Percent(p) => p.total == 0,
        };
        if empty {
            return true;
        }
        match (self.value, self.target) {
            (Value::MeanDuration(v), Value::MeanDuration(t)) => {
                let vm = v.sum / v.count as u128;
                let tm = if t.count == 0 {
                    0
                } else {
                    t.sum / t.count as u128
                };
                match self.target_condition {
                    TargetCondition::LessOrEqual => vm <= tm,
                    TargetCondition::GreaterOrEqual => vm >= tm,
                    TargetCondition::Equal => vm == tm,
                }
            },
            (Value::Count(v), Value::Count(t)) => match self.target_condition {
                TargetCondition::LessOrEqual => v.count <= t.count,
                TargetCondition::GreaterOrEqual => v.count >= t.count,
                TargetCondition::Equal => v.count == t.count,
            },
            (Value::Percent(v), Value::Percent(t)) => {
                proof {
                    lemma_product_fits(v.hits, t.total);
                    lemma_product_fits(t.hits, v.total);
                }
                let lhs = v.hits as u128 * t.total as u128;
                let rhs = t.hits as u128 * v.total as u128;
                match self.target_condition {
                    TargetCondition::LessOrEqual => lhs <= rhs,
                    TargetCondition::GreaterOrEqual => lhs >= rhs,
                    TargetCondition::Equal => lhs == rhs,
                }
            },
            _ => false,
        }
    }

    /// Reports one outcome record: each metric takes only the records it
    /// measures (see `MetricType`).
    pub fn report(&mut self, r: &Data)
        requires
            old(self).wf(),
            old(self).value.room() >= 1,
        ensures
            *final(self) == old(self).after(*r),
            final(self).wf(),
            final(self).value.room() >= old(self).value.room() - 1,
    {
        match (self.metric_type, &mut self.value) {
            (MetricType::ServiceLevel(window), Value::Percent(m)) => {
                if r.status == Status::Answered {
                    if let Some(wait) = r.wait_time {
                        m.report(wait <= window);
                    }
                }
            },
            (MetricType::AverageWorkTime, Value::MeanDuration(m)) => {
                if r.status == Status::Answered {
                    if let Some(handle) = r.handle_time {
                        m.report(handle);
                    }
                }
            },
            (MetricType::AverageSpeedAnswer, Value::MeanDuration(m)) => {
                if r.status == Status::Answered {
                    if let Some(wait) = r.wait_time {
                        m.report(wait);
                    }
                }
            },
            (MetricType::AverageTimeToAbandon, Value::MeanDuration(m)) => {
                if r.status == Status::Abandoned {
                    if let Some(wait) = r.wait_time {
                        m.report(wait);
                    }
                }
            },
            (MetricType::AbandonRate, Value::Percent(m)) => {
                m.report(r.status == Status::Abandoned);
            },
            (MetricType::AverageTimeInQueue, Value::MeanDuration(m)) => {
                if let Some(wait) = r.wait_time {
                    m.report(wait);
                }
            },
            (MetricType::AnswerCount, Value::Count(m)) => {
                if r.status == Status::Answered {
                    m.report();
                }
            },
            _ => {},
        }
    }
}

proof fn lemma_product_fits(a: u64, b: u64)
    ensures
        a as int * b as int <= u128::MAX,
{
    assert(a as int * b as int <= u64::MAX as int * u64::MAX as int) by (nonlinear_arith)
        requires
            a <= u64::MAX,
            b <= u64::MAX,
    ;
}

} // verus!
