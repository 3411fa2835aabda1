use dialrace::endpoint::Endpoint;
use dialrace::race::{plan_attempts, race, run_race, Action, Arbiter, Event, Outcome, RaceError};

fn ep(addr: u32) -> Endpoint {
    Endpoint::v4(addr, 80)
}

fn connected(attempt: usize) -> Event {
    Event {
        attempt,
        outcome: Outcome::Connected,
    }
}

fn failed(attempt: usize) -> Event {
    Event {
        attempt,
        outcome: Outcome::Failed,
    }
}

// One refusal, one slow acceptor, one fast acceptor: the fast acceptor's
// connect arrives first and wins; the refusal only settles the accounting;
// the slow acceptor's late connection is closed.
#[test]
fn scenario_fast_acceptor_wins() {
    let endpoints = vec![ep(1), ep(2), ep(3)];
    // Arrival order: attempt 0 refuses at once, attempt 2 connects after
    // 10ms, attempt 1 connects after 50ms.
    let events = vec![failed(0), connected(2), connected(1)];

    let verdict = race(&endpoints, &events);
    assert_eq!(verdict, Ok(ep(3)));

    let (winner, actions) = run_race(3, &events);
    assert_eq!(winner, Some(2));
    assert_eq!(actions, vec![Action::Ignore, Action::Deliver, Action::Close]);
}

// Resolution produced zero endpoints: the explicit resolution failure is
// reported instead of waiting on a race nobody entered.
#[test]
fn scenario_resolution_failure() {
    let endpoints: Vec<Endpoint> = Vec::new();
    let events: Vec<Event> = Vec::new();
    assert_eq!(race(&endpoints, &events), Err(RaceError::ResolutionFailure));
}

// Every endpoint refuses: the race ends with the explicit all-attempts-failed
// error once both failures are accounted for, rather than hanging.
#[test]
fn scenario_all_refused() {
    let endpoints = vec![ep(1), ep(2)];
    let events = vec![failed(0), failed(1)];
    assert_eq!(race(&endpoints, &events), Err(RaceError::AllAttemptsFailed));

    let (winner, actions) = run_race(2, &events);
    assert_eq!(winner, None);
    assert_eq!(actions, vec![Action::Ignore, Action::Ignore]);
}

// Exactly one endpoint is reachable: its connection is the one delivered,
// even when its outcome arrives last.
#[test]
fn single_reachable_endpoint_wins() {
    let endpoints = vec![ep(10), ep(20), ep(30)];
    let events = vec![failed(1), failed(0), connected(2)];

    assert_eq!(race(&endpoints, &events), Ok(ep(30)));

    let (winner, actions) = run_race(3, &events);
    assert_eq!(winner, Some(2));
    assert_eq!(actions[2], Action::Deliver);
}

// Two endpoints are reachable: the one whose connect completes first wins,
// regardless of its position in the resolved list.
#[test]
fn arrival_order_beats_list_order() {
    let endpoints = vec![ep(1), ep(2)];
    let events = vec![connected(1), connected(0)];
    assert_eq!(race(&endpoints, &events), Ok(ep(2)));
}

// Re-running against the same fixed reachability (endpoint 1 unreachable,
// endpoints 0 and 2 reachable) gives the same winner class under either
// arrival order: a reachable endpoint wins both times.
#[test]
fn rerun_same_reachability_same_winner_class() {
    let endpoints = vec![ep(1), ep(2), ep(3)];
    let reachable = [true, false, true];

    let first = vec![failed(1), connected(0), connected(2)];
    let second = vec![connected(2), failed(1), connected(0)];

    for events in [first, second] {
        match race(&endpoints, &events) {
            Ok(winner) => {
                let idx = endpoints.iter().position(|e| *e == winner).unwrap();
                assert!(reachable[idx]);
            }
            Err(_) => panic!("a reachable endpoint must win"),
        }
    }
}

// With several established connections, every one after the winner's is
// closed: no socket outlives the race.
#[test]
fn every_losing_connection_is_closed() {
    let events = vec![connected(0), connected(1), connected(2)];
    let (winner, actions) = run_race(3, &events);
    assert_eq!(winner, Some(0));
    assert_eq!(actions, vec![Action::Deliver, Action::Close, Action::Close]);
}

// The streaming arbiter: one event per attempt, the outstanding count ends at
// zero, and the conclusion names the winner.
#[test]
fn arbiter_accounts_for_every_attempt() {
    let mut arbiter = Arbiter::new(3);
    assert!(!arbiter.done());

    assert_eq!(arbiter.observe(failed(2)), Action::Ignore);
    assert_eq!(arbiter.observe(connected(0)), Action::Deliver);
    assert!(!arbiter.done());
    assert_eq!(arbiter.observe(connected(1)), Action::Close);

    assert!(arbiter.done());
    assert_eq!(arbiter.conclude(), Ok(0));
}

// An arbiter told that zero attempts are outstanding is done at once and
// concludes with no winner instead of waiting forever.
#[test]
fn arbiter_with_zero_attempts_is_done_at_once() {
    let arbiter = Arbiter::new(0);
    assert!(arbiter.done());
    assert_eq!(arbiter.conclude(), Err(RaceError::AllAttemptsFailed));
}

// The dispatcher's plan pairs each attempt with its own endpoint, in
// resolved order.
#[test]
fn plan_pairs_attempts_with_endpoints() {
    let endpoints = vec![ep(7), ep(8)];
    let plan = plan_attempts(&endpoints).unwrap();
    assert_eq!(plan.len(), 2);
    assert_eq!(plan[0].id, 0);
    assert_eq!(plan[0].endpoint, ep(7));
    assert_eq!(plan[1].id, 1);
    assert_eq!(plan[1].endpoint, ep(8));
}

// Planning over zero endpoints is the explicit resolution failure.
#[test]
fn plan_of_nothing_is_resolution_failure() {
    let endpoints: Vec<Endpoint> = Vec::new();
    assert_eq!(plan_attempts(&endpoints), Err(RaceError::ResolutionFailure));
}
