use trv_sync::task::fetch::classify;
use trv_sync::task::fetch::verdict;
use trv_sync::task::fetch::Attempt;
use trv_sync::task::fetch::Failure;
use trv_sync::task::fetch::FetchWindow;
use trv_sync::task::fetch::Verdict;
use trv_sync::task::fetch::CONCURRENT_REQUESTS;

#[test]
fn no_answer_is_transient() {
    assert_eq!(classify(Attempt::Unreachable), Some(Failure::Transient));
}

#[test]
fn error_status_is_transient() {
    for status in [400, 404, 429, 499, 500, 503, 599] {
        assert_eq!(classify(Attempt::Answered { status, decoded: false }), Some(Failure::Transient));
        assert_eq!(classify(Attempt::Answered { status, decoded: true }), Some(Failure::Transient));
    }
}

#[test]
fn undecodable_body_is_permanent() {
    for status in [200, 204, 301, 399, 600] {
        assert_eq!(classify(Attempt::Answered { status, decoded: false }), Some(Failure::Permanent));
    }
}

#[test]
fn decoded_answer_is_no_failure() {
    for status in [200, 201, 302, 399] {
        assert_eq!(classify(Attempt::Answered { status, decoded: true }), None);
    }
}

#[test]
fn transient_failure_is_retried_until_exhaustion() {
    assert_eq!(verdict(Failure::Transient, false), Verdict::Retry);
    assert_eq!(verdict(Failure::Transient, true), Verdict::Skip);
}

#[test]
fn permanent_failure_is_never_retried() {
    assert_eq!(verdict(Failure::Permanent, false), Verdict::Skip);
    assert_eq!(verdict(Failure::Permanent, true), Verdict::Skip);
}

#[test]
fn default_limit_is_128() {
    assert_eq!(CONCURRENT_REQUESTS, 128);
}

#[test]
fn window_starts_items_in_order_up_to_the_limit() {
    let mut w = FetchWindow::new(10, 3);
    assert_eq!(w.next(), Some(0));
    assert_eq!(w.next(), Some(1));
    assert_eq!(w.next(), Some(2));
    assert_eq!(w.next(), None);
    assert_eq!(w.outstanding, 3);
    w.completed(true);
    assert_eq!(w.next(), Some(3));
    assert_eq!(w.next(), None);
    assert_eq!(w, FetchWindow { limit: 3, total: 10, issued: 4, outstanding: 3, yielded: 1 });
}

#[test]
fn window_over_nothing_is_finished_at_once() {
    let mut w = FetchWindow::new(0, 128);
    assert!(w.is_finished());
    assert_eq!(w.next(), None);
}

#[test]
fn window_drops_failed_items_from_the_results() {
    let mut w = FetchWindow::new(4, 2);
    assert_eq!(w.next(), Some(0));
    assert_eq!(w.next(), Some(1));
    w.completed(false);
    w.completed(true);
    assert_eq!(w.next(), Some(2));
    assert_eq!(w.next(), Some(3));
    assert!(!w.is_finished());
    w.completed(false);
    w.completed(true);
    assert!(w.is_finished());
    assert_eq!(w.yielded, 2);
    assert_eq!(w.next(), None);
}

/// An upstream that counts the calls that are outstanding.
struct Upstream {
    outstanding: Vec<u64>,
    most: usize,
    seen: Vec<u64>,
}

#[test]
fn bound_holds_against_an_instrumented_upstream() {
    let limit = 128;
    let total = 50_000;
    let mut window = FetchWindow::new(total, limit);
    let mut upstream = Upstream { outstanding: vec![], most: 0, seen: vec![] };
    let mut turn: u64 = 0;
    while !window.is_finished() {
        while let Some(item) = window.next() {
            upstream.outstanding.push(item);
            upstream.seen.push(item);
            upstream.most = upstream.most.max(upstream.outstanding.len());
            assert!(upstream.outstanding.len() <= limit);
        }
        // Answers come back in no particular order.
        turn = turn.wrapping_mul(6_364_136_223_846_793_005).wrapping_add(1_442_695_040_888_963_407);
        let pick = (turn >> 33) as usize % upstream.outstanding.len();
        let item = upstream.outstanding.swap_remove(pick);
        window.completed(item % 7 != 0);
        assert_eq!(window.outstanding, upstream.outstanding.len());
    }
    assert_eq!(upstream.most, limit);
    assert_eq!(upstream.seen, (0..total).collect::<Vec<_>>());
    let failed = (0..total).filter(|i| i % 7 == 0).count() as u64;
    assert_eq!(window.yielded, total - failed);
}

#[test]
fn bound_holds_for_a_limit_of_one() {
    let mut window = FetchWindow::new(5, 1);
    let mut order = vec![];
    while !window.is_finished() {
        let item = window.next().unwrap();
        assert_eq!(window.next(), None);
        assert_eq!(window.outstanding, 1);
        order.push(item);
        window.completed(true);
    }
    assert_eq!(order, vec![0, 1, 2, 3, 4]);
}
