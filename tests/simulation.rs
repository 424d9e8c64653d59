use awt::{
    Aggregator, Client, Data, Metric, MetricType, RandomSource, Server, Simulation, Status, Target,
    Value,
};
use rand::rngs::mock::StepRng;

const TICK_SIZE: u64 = 50_000_000;
const ONE_HOUR: u64 = 3_600_000_000_000;
const ONE_SECOND: u64 = 1_000_000_000;

fn mock_rng() -> RandomSource {
    // Set the step size to be compatible with `gen_range`. `gen_range` restricts the domain by
    // giving multiple rolls per element in the range sequentially.
    let step = u64::MAX / 3600;
    RandomSource::Stepped(StepRng::new(1, step))
}

fn simulation() -> Simulation {
    Simulation::new(ONE_HOUR, TICK_SIZE, mock_rng())
}

fn status_count(data: &[Data], status: Status) -> Option<usize> {
    let n = data.iter().filter(|d| d.status == status).count();
    if n == 0 {
        None
    } else {
        Some(n)
    }
}

fn metrics() -> Aggregator {
    Aggregator::with_metrics(&vec![
        Metric::with_target(MetricType::AbandonRate, Target::percent(0, 1)).unwrap(),
        Metric::with_target(MetricType::AnswerCount, Target::count(0)).unwrap(),
    ])
}

fn shown(value: Value) -> String {
    match value {
        Value::MeanDuration(m) => match m.mean() {
            None => "None".to_string(),
            Some(nanos) => format!("{:?}", std::time::Duration::from_nanos(nanos as u64)),
        },
        Value::Count(c) => format!("{}", c.count),
        Value::Percent(p) => {
            if p.total == 0 {
                "None".to_string()
            } else {
                format!("{}", p.hits as f64 / p.total as f64)
            }
        }
    }
}

fn simulation_with_metrics() -> Simulation {
    let mut sim = simulation();
    sim.add_metric(Metric::with_target(MetricType::AbandonRate, Target::percent(0, 1)).unwrap())
        .unwrap();
    sim.add_metric(Metric::with_target(MetricType::AnswerCount, Target::count(0)).unwrap())
        .unwrap();
    sim
}

fn run(sim: &mut Simulation) {
    sim.enable().unwrap();
    while sim.tick() {}
}

#[test]
fn lib_empty_sim() {
    let mut sim = simulation();
    run(&mut sim);

    let data = sim.request_data();
    assert_eq!(None, status_count(&data, Status::Answered));
    assert_eq!(None, status_count(&data, Status::Abandoned));
    assert_eq!((false, ONE_HOUR), sim.running());
}

#[test]
fn lib_no_servers() {
    let mut sim = simulation();
    sim.add_client(Client::default()).unwrap();
    run(&mut sim);

    let data = sim.request_data();
    assert_eq!(None, status_count(&data, Status::Answered));
    assert_eq!(Some(1), status_count(&data, Status::Abandoned));
    assert_eq!((false, ONE_HOUR), sim.running());
}

#[test]
fn lib_can_handle_requests() {
    let mut sim = simulation();
    sim.add_client(Client::default()).unwrap();
    sim.add_server(Server::default()).unwrap();
    run(&mut sim);

    let data = sim.request_data();
    assert_eq!(Some(1), status_count(&data, Status::Answered));
    assert_eq!(None, status_count(&data, Status::Abandoned));
    assert_eq!((false, ONE_HOUR), sim.running());
}

#[test]
fn lib_requests_can_abandon() {
    let mut sim = simulation();

    // Ensure two requests are provided in a way that the second cannot be handled in time
    let client = Client {
        handle_time: 300 * ONE_SECOND,
        ..Client::default()
    };
    sim.add_client(client.clone()).unwrap();
    sim.add_client(client).unwrap();
    sim.add_server(Server::default()).unwrap();
    run(&mut sim);

    let data = sim.request_data();
    assert_eq!(Some(1), status_count(&data, Status::Answered));
    assert_eq!(Some(1), status_count(&data, Status::Abandoned));
    assert_eq!((false, ONE_HOUR), sim.running());
}

#[test]
fn lib_cannot_add_profiles_whilst_running() {
    let mut sim = simulation();
    sim.enable().unwrap();

    // Cannot add profile to running sim
    assert!(sim.add_client(Client::default()).is_err());
}

#[test]
fn lib_cannot_enable_twice() {
    let mut sim = simulation();
    sim.enable().unwrap();

    // Cannot enable twice
    assert!(sim.enable().is_err());
}

#[test]
fn lib_cannot_add_server_whilst_running() {
    let mut sim = simulation();
    sim.enable().unwrap();

    assert!(sim.add_server(Server::default()).is_err());
}

#[test]
fn mod_empty_sim() {
    let mut sim = simulation_with_metrics();
    run(&mut sim);

    let stats = sim.statistics().unwrap();
    assert_eq!("None", shown(stats.get(&MetricType::AbandonRate).unwrap().value));
    assert_eq!("0", shown(stats.get(&MetricType::AnswerCount).unwrap().value));
    assert_eq!((false, ONE_HOUR), sim.running());
}

#[test]
fn mod_no_servers() {
    let mut sim = simulation_with_metrics();
    sim.add_client(Client::default()).unwrap();
    run(&mut sim);

    let stats = sim.statistics().unwrap();
    assert_eq!("1", shown(stats.get(&MetricType::AbandonRate).unwrap().value));
    assert_eq!("0", shown(stats.get(&MetricType::AnswerCount).unwrap().value));
    assert_eq!((false, ONE_HOUR), sim.running());
}

#[test]
fn mod_can_handle_requests() {
    let mut sim = simulation_with_metrics();
    sim.add_client(Client::default()).unwrap();
    sim.add_server(Server::default()).unwrap();
    run(&mut sim);

    let stats = sim.statistics().unwrap();
    assert_eq!("0", shown(stats.get(&MetricType::AbandonRate).unwrap().value));
    assert_eq!("1", shown(stats.get(&MetricType::AnswerCount).unwrap().value));
    assert_eq!((false, ONE_HOUR), sim.running());
}

#[test]
fn mod_requests_can_abandon() {
    let mut sim = simulation_with_metrics();

    // Ensure two requests are provided in a way that the second cannot be handled in time
    let client = Client {
        handle_time: 300 * ONE_SECOND,
        ..Client::default()
    };
    sim.add_client(client.clone()).unwrap();
    sim.add_client(client).unwrap();
    sim.add_server(Server::default()).unwrap();
    run(&mut sim);

    let stats = sim.statistics().unwrap();
    assert_eq!("0.5", shown(stats.get(&MetricType::AbandonRate).unwrap().value));
    assert_eq!("1", shown(stats.get(&MetricType::AnswerCount).unwrap().value));
    assert_eq!((false, ONE_HOUR), sim.running());
}

#[test]
fn mod_cannot_add_profiles_whilst_running() {
    let mut sim = simulation();
    sim.enable().unwrap();

    assert!(sim.add_client(Client::default()).is_err());
}

#[test]
fn mod_cannot_enable_twice() {
    let mut sim = simulation();
    sim.enable().unwrap();

    assert!(sim.enable().is_err());
}

#[test]
fn mod_cannot_add_server_whilst_running() {
    let mut sim = simulation();
    sim.enable().unwrap();

    assert!(sim.add_server(Server::default()).is_err());
}

#[test]
fn metrics_wait_for_the_end_of_the_run() {
    let mut sim = simulation_with_metrics();
    sim.add_client(Client::default()).unwrap();
    sim.enable().unwrap();
    assert!(sim.statistics().is_err());
    let late = Metric::with_target(MetricType::AverageWorkTime, Target::mean_duration(1)).unwrap();
    assert!(sim.add_metric(late).is_err());
    while sim.tick() {}
    let first = sim.statistics().unwrap();
    let second = sim.statistics().unwrap();
    assert_eq!(first.metrics(), second.metrics());
    assert_eq!(2, first.metrics().len());
}

#[test]
fn starts_lie_within_the_run() {
    let mut sim = simulation();
    for _ in 0..5 {
        sim.add_client(Client::default()).unwrap();
    }
    sim.enable().unwrap();
    let data = sim.request_data();
    assert_eq!(5, data.len());
    for (i, d) in data.iter().enumerate() {
        assert_eq!(i, d.id);
        assert_eq!(Status::Pending, d.status);
    }
}

#[test]
fn a_finished_run_stands_at_the_end() {
    let mut sim = simulation();
    sim.add_client(Client::default()).unwrap();
    sim.enable().unwrap();
    let mut last = 0;
    while sim.tick() {
        let (running, now) = sim.running();
        assert!(running);
        assert!(last <= now);
        last = now;
    }
    assert_eq!((false, ONE_HOUR), sim.running());
    assert!(!sim.tick());
    assert_eq!((false, ONE_HOUR), sim.running());
}

#[test]
fn a_simulation_not_enabled_does_not_tick() {
    let mut sim = simulation();
    assert!(!sim.tick());
    assert_eq!((false, 0), sim.running());
}

#[test]
fn identical_inputs_give_identical_outcomes() {
    let build = || {
        let mut sim = simulation();
        for i in 0..20u64 {
            let client = Client {
                handle_time: (i + 1) * 90 * ONE_SECOND,
                ..Client::default()
            };
            sim.add_client(client).unwrap();
        }
        sim.add_server(Server::default()).unwrap();
        sim.add_server(Server::default()).unwrap();
        run(&mut sim);
        sim.request_data()
    };
    let first = build();
    let second = build();
    assert_eq!(first, second);

    let mut a = metrics();
    a.calculate(&first);
    let mut b = metrics();
    b.calculate(&second);
    assert_eq!(a.metrics(), b.metrics());
}

#[test]
fn answered_requests_wait_then_take_their_handle_time() {
    let mut sim = simulation();
    for _ in 0..3 {
        sim.add_client(Client::default()).unwrap();
    }
    sim.add_server(Server::default()).unwrap();
    run(&mut sim);
    for d in sim.request_data() {
        match d.status {
            Status::Answered => {
                assert_eq!(Some(300 * ONE_SECOND), d.handle_time);
                assert!(d.wait_time.unwrap() < 30 * ONE_SECOND);
            }
            Status::Abandoned => {
                assert_eq!(None, d.handle_time);
                assert!(d.wait_time.unwrap() >= 30 * ONE_SECOND);
            }
            _ => {}
        }
    }
}

#[test]
fn built_from_a_config() {
    let mut config = awt::Config::new(ONE_HOUR, TICK_SIZE, mock_rng());
    config.add_client(Client::default());
    config.add_server(Server::default());
    let mut sim = Simulation::from_config(config);
    run(&mut sim);
    let data = sim.request_data();
    assert_eq!(Some(1), status_count(&data, Status::Answered));
    assert_eq!((false, ONE_HOUR), sim.running());
}

#[test]
fn abandoned_and_answered_times_in_the_scenarios() {
    let mut sim = simulation();
    sim.add_client(Client::default()).unwrap();
    run(&mut sim);
    let d = sim.request_data();
    assert_eq!(Status::Abandoned, d[0].status);
    assert_eq!(Some(30 * ONE_SECOND), d[0].wait_time);
    assert_eq!(None, d[0].handle_time);

    let mut sim = simulation();
    sim.add_client(Client::default()).unwrap();
    sim.add_server(Server::default()).unwrap();
    run(&mut sim);
    let d = sim.request_data();
    assert_eq!(Status::Answered, d[0].status);
    assert_eq!(Some(0), d[0].wait_time);
    assert_eq!(Some(300 * ONE_SECOND), d[0].handle_time);
}
