use awt::{
    Aggregator, Count, Data, MeanDuration, Metric, MetricError, MetricType, Percent, Status, Target,
    TargetCondition, Value,
};

const SECOND: u64 = 1_000_000_000;

fn answered(id: usize, wait: u64, handle: u64) -> Data {
    Data {
        id,
        status: Status::Answered,
        wait_time: Some(wait),
        handle_time: Some(handle),
    }
}

fn abandoned(id: usize, wait: u64) -> Data {
    Data {
        id,
        status: Status::Abandoned,
        wait_time: Some(wait),
        handle_time: None,
    }
}

fn pending(id: usize) -> Data {
    Data {
        id,
        status: Status::Pending,
        wait_time: None,
        handle_time: None,
    }
}

fn outcomes() -> Vec<Data> {
    vec![
        answered(0, 10 * SECOND, 300 * SECOND),
        abandoned(1, 30 * SECOND),
        answered(2, 40 * SECOND, 100 * SECOND),
        pending(3),
        answered(3, 0, 200 * SECOND),
    ]
}

fn all_metrics() -> Vec<Metric> {
    vec![
        Metric::with_target(MetricType::ServiceLevel(20 * SECOND), Target::percent(8, 10)).unwrap(),
        Metric::with_target(MetricType::AverageWorkTime, Target::mean_duration(300 * SECOND)).unwrap(),
        Metric::with_target(MetricType::AverageSpeedAnswer, Target::mean_duration(20 * SECOND)).unwrap(),
        Metric::with_target(MetricType::AverageTimeToAbandon, Target::mean_duration(SECOND)).unwrap(),
        Metric::with_target(MetricType::AbandonRate, Target::percent(1, 10)).unwrap(),
        Metric::with_target(MetricType::AverageTimeInQueue, Target::mean_duration(60 * SECOND)).unwrap(),
        Metric::with_target(MetricType::AnswerCount, Target::count(3)).unwrap(),
    ]
}

fn value_of(a: &Aggregator, t: MetricType) -> Value {
    a.get(&t).unwrap().value
}

#[test]
fn each_metric_takes_its_own_records() {
    let mut a = Aggregator::with_metrics(&all_metrics());
    a.calculate(&outcomes());

    assert_eq!(
        Value::Percent(Percent { hits: 2, total: 3 }),
        value_of(&a, MetricType::ServiceLevel(20 * SECOND))
    );
    assert_eq!(
        Value::MeanDuration(MeanDuration { sum: 600 * SECOND as u128, count: 3 }),
        value_of(&a, MetricType::AverageWorkTime)
    );
    assert_eq!(
        Value::MeanDuration(MeanDuration { sum: 50 * SECOND as u128, count: 3 }),
        value_of(&a, MetricType::AverageSpeedAnswer)
    );
    assert_eq!(
        Value::MeanDuration(MeanDuration { sum: 30 * SECOND as u128, count: 1 }),
        value_of(&a, MetricType::AverageTimeToAbandon)
    );
    assert_eq!(
        Value::Percent(Percent { hits: 1, total: 5 }),
        value_of(&a, MetricType::AbandonRate)
    );
    assert_eq!(
        Value::MeanDuration(MeanDuration { sum: 80 * SECOND as u128, count: 4 }),
        value_of(&a, MetricType::AverageTimeInQueue)
    );
    assert_eq!(Value::Count(Count { count: 3 }), value_of(&a, MetricType::AnswerCount));
}

#[test]
fn targets_are_compared_by_kind() {
    let mut a = Aggregator::with_metrics(&all_metrics());
    a.calculate(&outcomes());

    // 2/3 >= 8/10 fails
    assert!(!a.get(&MetricType::ServiceLevel(20 * SECOND)).unwrap().on_target());
    // mean 200s <= 300s
    assert!(a.get(&MetricType::AverageWorkTime).unwrap().on_target());
    // mean 16.6s <= 20s
    assert!(a.get(&MetricType::AverageSpeedAnswer).unwrap().on_target());
    // 30s <= 1s fails
    assert!(!a.get(&MetricType::AverageTimeToAbandon).unwrap().on_target());
    // 1/5 <= 1/10 fails
    assert!(!a.get(&MetricType::AbandonRate).unwrap().on_target());
    // 20s <= 60s
    assert!(a.get(&MetricType::AverageTimeInQueue).unwrap().on_target());
    // 3 == 3
    assert!(a.get(&MetricType::AnswerCount).unwrap().on_target());
}

#[test]
fn conditions_follow_the_metric_type() {
    let m = all_metrics();
    assert_eq!(TargetCondition::GreaterOrEqual, m[0].target_condition);
    assert_eq!(TargetCondition::LessOrEqual, m[1].target_condition);
    assert_eq!(TargetCondition::LessOrEqual, m[4].target_condition);
    assert_eq!(TargetCondition::Equal, m[6].target_condition);
}

#[test]
fn an_empty_metric_meets_its_target() {
    let m = Metric::with_target(MetricType::AbandonRate, Target::percent(0, 1)).unwrap();
    assert!(m.on_target());
    assert_eq!(Value::Percent(Percent { hits: 0, total: 0 }), m.value());
}

#[test]
fn mismatched_target_is_refused() {
    assert_eq!(
        Err(MetricError::BadTarget),
        Metric::with_target(MetricType::AnswerCount, Target::percent(1, 2))
    );
    assert_eq!(
        Err(MetricError::BadTarget),
        Metric::with_target(MetricType::AverageWorkTime, Target::count(1))
    );
    assert_eq!(
        Err(MetricError::BadTarget),
        Metric::with_target(MetricType::ServiceLevel(SECOND), Target::mean_duration(1))
    );
    assert!(Metric::with_target(MetricType::UtilisationTime, Target::percent(1, 2)).is_ok());
}

#[test]
fn utilisation_takes_no_records() {
    let mut a = Aggregator::with_metrics(&vec![
        Metric::with_target(MetricType::UtilisationTime, Target::percent(1, 2)).unwrap(),
    ]);
    a.calculate(&outcomes());
    assert_eq!(
        Value::Percent(Percent { hits: 0, total: 0 }),
        value_of(&a, MetricType::UtilisationTime)
    );
}

#[test]
fn two_batches_equal_one() {
    let all = outcomes();
    let mut whole = Aggregator::with_metrics(&all_metrics());
    whole.calculate(&all);

    let mut split = Aggregator::with_metrics(&all_metrics());
    split.calculate(&all[..2].to_vec());
    split.calculate(&all[2..].to_vec());

    assert_eq!(whole.metrics(), split.metrics());
}

#[test]
fn service_level_counts_answers_within_the_window() {
    let records = vec![
        answered(0, 5 * SECOND, SECOND),
        answered(1, 20 * SECOND, SECOND),
        answered(2, 21 * SECOND, SECOND),
        abandoned(3, SECOND),
    ];
    let mut a = Aggregator::with_metrics(&vec![Metric::with_target(
        MetricType::ServiceLevel(20 * SECOND),
        Target::percent(1, 2),
    )
    .unwrap()]);
    a.calculate(&records);
    assert_eq!(
        Value::Percent(Percent { hits: 2, total: 3 }),
        value_of(&a, MetricType::ServiceLevel(20 * SECOND))
    );
}

#[test]
fn a_later_metric_of_one_type_replaces_the_earlier() {
    let mut a = Aggregator::with_metrics(&vec![
        Metric::with_target(MetricType::AnswerCount, Target::count(1)).unwrap(),
        Metric::with_target(MetricType::AbandonRate, Target::percent(0, 1)).unwrap(),
        Metric::with_target(MetricType::AnswerCount, Target::count(7)).unwrap(),
    ]);
    assert_eq!(2, a.metrics().len());
    assert_eq!(MetricType::AnswerCount, a.metrics()[0].metric());
    assert_eq!(Value::Count(Count { count: 7 }), a.metrics()[0].target);
    assert!(a.get(&MetricType::AverageWorkTime).is_none());
    a.set_simulation(4);
    assert_eq!(4, a.simulation());
}

#[test]
fn accumulators_report() {
    let mut m = MeanDuration { sum: 0, count: 0 };
    assert_eq!(None, m.mean());
    m.report(3);
    m.report(4);
    assert_eq!(Some(3), m.mean());
    let mut c = Count { count: 0 };
    c.report();
    assert_eq!(1, c.count);
    let mut p = Percent { hits: 0, total: 0 };
    p.report(true);
    p.report(false);
    assert_eq!(Percent { hits: 1, total: 2 }, p);
}
