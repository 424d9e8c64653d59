use awt::{route_requests, Attribute, MinQueue, RequestData, ServerData};
use awt::RandomSource;
use rand::rngs::mock::StepRng;
use awt::random::scale_to;
use rand::RngCore;

#[test]
fn min_queue_yields_least_first() {
    let mut q = MinQueue::new();
    assert!(q.is_empty());
    assert_eq!(None, q.peek());
    q.push((3, 0));
    q.push((1, 1));
    q.push((5, 2));
    q.push((1, 0));
    assert_eq!(4, q.len());
    assert_eq!(Some((1, 0)), q.peek());
    assert_eq!(Some((1, 0)), q.pop());
    assert_eq!(Some((1, 1)), q.pop());
    assert_eq!(Some((3, 0)), q.pop());
    assert_eq!(Some((5, 2)), q.pop());
    assert_eq!(None, q.pop());
}

#[test]
fn min_queue_drains() {
    let mut q = MinQueue::with_capacity(4);
    q.push((2, 2));
    q.push((9, 1));
    q.drain();
    assert!(q.is_empty());
}

fn request(id: usize) -> RequestData {
    RequestData {
        id,
        start: id as u64,
        required_attributes: vec![Attribute::new(7, Some(1))],
    }
}

fn server(id: usize) -> ServerData {
    ServerData {
        id,
        attributes: vec![],
    }
}

#[test]
fn routing_pairs_in_order_with_last_free_server() {
    let routes = route_requests(
        vec![request(10), request(11), request(12)],
        vec![server(0), server(1)],
    );
    assert_eq!(vec![(10, 1), (11, 0)], routes);
}

#[test]
fn routing_with_nothing_free_routes_nothing() {
    assert!(route_requests(vec![request(1)], vec![]).is_empty());
    assert!(route_requests(vec![], vec![server(1)]).is_empty());
}

#[test]
fn draws_follow_the_generator() {
    let end = 3_600_000_000_000u64;
    let step = u64::MAX / 3600;
    let mut expected = StepRng::new(1, step);
    let mut source = RandomSource::Stepped(StepRng::new(1, step));
    for _ in 0..4 {
        let raw = expected.next_u64();
        let want = ((raw as u128 * (end as u128 + 1)) >> 64) as u64;
        let got = source.draw(end);
        assert_eq!(want, got);
        assert!(got <= end);
    }
    // the n-th draw of this generator lands close to n seconds
    let fifth = source.draw(end);
    assert!(fifth > 3_999_000_000 && fifth < 4_001_000_000);
}

#[test]
fn scaling_spans_the_range() {
    assert_eq!(0, scale_to(0, 10));
    assert_eq!(10, scale_to(u64::MAX, 10));
    assert_eq!(5, scale_to(1 << 63, 10));
    assert_eq!(0, scale_to(u64::MAX, 0));
    assert_eq!(u64::MAX - 1, scale_to(u64::MAX - 1, u64::MAX));
}

#[test]
fn a_constant_generator_still_draws() {
    let mut source = RandomSource::Stepped(StepRng::new(0x5555_5555, 0));
    assert_eq!(0, source.draw(2));
    assert_eq!(0, source.draw(2));
    let mut high = RandomSource::Stepped(StepRng::new(u64::MAX, 0));
    assert_eq!(2, high.draw(2));
}

#[test]
fn min_queue_keeps_entries_when_shrunk() {
    let mut q = MinQueue::with_capacity(16);
    q.push((4, 0));
    q.push((2, 1));
    assert!(q.capacity() >= 2);
    q.reserve(100);
    assert!(q.capacity() >= 102);
    q.reserve_exact(200);
    assert!(q.capacity() >= 202);
    assert_eq!(2, q.len());
    q.shrink_to(8);
    q.shrink_to_fit();
    assert_eq!(2, q.len());
    assert_eq!(Some((2, 1)), q.pop());
}
