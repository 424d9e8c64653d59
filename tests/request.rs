use awt::{Request, Status};

const ABANDON_TICKS: u64 = 1_000_000_000;
const HANDLE_TICKS: u64 = 300_000_000_000;
const START_TIME: u64 = 100;
const ONE_MS: u64 = 1;

fn default_request(start: u64) -> (Request, u64) {
    let abandon_ticks = start + ABANDON_TICKS;
    let handle_ticks = HANDLE_TICKS;

    (
        Request::new(0, start, abandon_ticks, handle_ticks, vec![]),
        abandon_ticks,
    )
}

fn enqueued_request(start: u64) -> (Request, u64) {
    let (mut request, abandon_ticks) = default_request(start);

    request.enqueue(start);
    (request, abandon_ticks)
}

#[test]
fn default_status_is_pending() {
    let (request, _) = default_request(0);
    assert_eq!(&Status::Pending, request.status());
}

#[test]
fn abandons_past_abandonment_tick() {
    let (mut request, abandon_tick) = enqueued_request(START_TIME);

    request.tick_wait(abandon_tick - ONE_MS);
    assert_eq!(&Status::Enqueued, request.status());
    assert!(!request.tick_wait(abandon_tick));
    assert_eq!(&Status::Abandoned, request.status());
}

#[test]
fn only_ticks_when_unanswered() {
    let (mut request, abandon_tick) = enqueued_request(START_TIME);

    request.tick_wait(abandon_tick);

    assert!(!request.tick_wait(abandon_tick + ONE_MS));
}

#[test]
fn handling_handles() {
    let (mut request, _) = enqueued_request(START_TIME);

    assert_eq!(START_TIME + HANDLE_TICKS, request.handle(START_TIME));
    assert_eq!(&Status::Answered, request.status());
    assert_eq!(Some(0), request.wait_time());
}

#[test]
fn wait_time_abandoned() {
    let (mut request, abandon_tick) = enqueued_request(START_TIME);
    request.tick_wait(abandon_tick);

    assert_eq!(&Status::Abandoned, request.status());
    assert_eq!(Some(ABANDON_TICKS), request.wait_time());
}

#[test]
fn wait_time_answered() {
    let (mut request, _) = enqueued_request(START_TIME);
    request.handle(START_TIME * 2);

    assert_eq!(&Status::Answered, request.status());
    assert_eq!(Some(START_TIME), request.wait_time());
}

#[test]
fn wait_time_unanswered() {
    let (mut request, _) = enqueued_request(START_TIME);
    request.tick_wait(START_TIME + ONE_MS);

    assert_eq!(&Status::Enqueued, request.status());
    assert_eq!(None, request.wait_time());
}

#[test]
fn handle_time_unanswered() {
    let (mut request, _) = enqueued_request(START_TIME);
    request.tick_wait(START_TIME + ONE_MS);

    assert_eq!(&Status::Enqueued, request.status());
    assert_eq!(None, request.handle_time());
}

#[test]
fn handle_time_answered() {
    let (mut request, _) = enqueued_request(START_TIME);
    request.handle(START_TIME * 2);

    assert_eq!(&Status::Answered, request.status());
    assert_eq!(Some(HANDLE_TICKS), request.handle_time());
}

#[test]
fn handle_time_abandonend() {
    let (mut request, abandon_tick) = enqueued_request(START_TIME);
    request.tick_wait(abandon_tick);

    assert_eq!(&Status::Abandoned, request.status());
    assert_eq!(None, request.handle_time());
}

#[test]
fn outcome_record_of_answered_request() {
    let (mut request, _) = enqueued_request(START_TIME);
    request.handle(START_TIME * 3);
    let data = request.data();

    assert_eq!(0, data.id);
    assert_eq!(Status::Answered, data.status);
    assert_eq!(Some(2 * START_TIME), data.wait_time);
    assert_eq!(Some(HANDLE_TICKS), data.handle_time);
}

#[test]
fn waiting_before_deadline_keeps_waiting() {
    let (mut request, abandon_tick) = enqueued_request(START_TIME);

    assert!(request.tick_wait(abandon_tick - ONE_MS));
    assert_eq!(None, request.wait_time());
}
