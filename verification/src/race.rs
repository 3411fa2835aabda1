//! The dial race: one attempt per endpoint, a shared results order, and a
//! winner-take-first arbiter with exact outstanding-count accounting.
//!
//! The race is modelled over the order in which attempt outcomes arrive at
//! the arbiter (arrival order, not list order). Every attempt reports exactly
//! one terminal event — a successful connect or a failure — so the arbiter
//! can tell "no winner yet" from "no winner ever" and never waits forever.

use crate::endpoint::Endpoint;
use vstd::prelude::*;

verus! {

/// The terminal outcome of one dial attempt.
#[derive(Clone, Copy, PartialEq, Eq, Structural, Debug)]
pub enum Outcome {
    /// The attempt established a connection and handed it to the arbiter.
    Connected,
    /// The attempt ended without a connection: refused, unreachable, timed
    /// out, or its dispatch signal never arrived.
    Failed,
}

/// One terminal event as the arbiter observes it: which attempt ended, and
/// how. Events arrive in racing order — the order connects complete — not in
/// the order the endpoints were resolved.
#[derive(Clone, Copy, PartialEq, Eq, Structural, Debug)]
pub struct Event {
    /// The index of the attempt that ended.
    pub attempt: usize,
    /// How it ended.
    pub outcome: Outcome,
}

/// What the arbiter does with one observed event.
#[derive(Clone, Copy, PartialEq, Eq, Structural, Debug)]
pub enum Action {
    /// First established connection: hand it to the consumer. It is the winner.
    Deliver,
    /// A later established connection: close it so nothing leaks.
    Close,
    /// A failure: nothing to release; it only settles the accounting.
    Ignore,
}

/// Why a race produced no connection for the consumer.
#[derive(Clone, Copy, PartialEq, Eq, Structural, Debug)]
pub enum RaceError {
    /// Resolution returned zero endpoints: there was nothing to race.
    ResolutionFailure,
    /// Every attempt ended in a dial failure.
    AllAttemptsFailed,
}

/// The index (in arrival order) of the winning event: the first event whose
/// outcome is a successful connect, if any.
pub open spec fn winner_index(events: Seq<Event>) -> Option<int>
    decreases events.len(),
{
    if events.len() == 0 {
        None::<int>
    } else {
        match winner_index(events.drop_last()) {
            Some(i) => Some(i),
            None => {
                if events.last().outcome is Connected {
                    Some(events.len() - 1)
                } else {
                    None::<int>
                }
            },
        }
    }
}

/// The attempt that won the race, if any: the attempt named by the first
/// connected event.
pub open spec fn winner_attempt(events: Seq<Event>) -> Option<usize> {
    match winner_index(events) {
        Some(i) => Some(events[i].attempt),
        None => None::<usize>,
    }
}

/// What the arbiter does with the event at position `i`, given everything
/// that arrived before it.
pub open spec fn action_at(events: Seq<Event>, i: int) -> Action {
    match events[i].outcome {
        Outcome::Connected => {
            if winner_index(events.take(i)) is None {
                Action::Deliver
            } else {
                Action::Close
            }
        },
        Outcome::Failed => Action::Ignore,
    }
}

/// The verdict of a whole race: an explicit error when there was nothing to
/// race or when every attempt failed, otherwise the endpoint whose attempt
/// produced the first connected event.
pub open spec fn race_verdict(endpoints: Seq<Endpoint>, events: Seq<Event>) -> Result<
    Endpoint,
    RaceError,
> {
    if endpoints.len() == 0 {
        Err(RaceError::ResolutionFailure)
    } else {
        match winner_attempt(events) {
            Some(a) => Ok(endpoints[a as int]),
            None => Err(RaceError::AllAttemptsFailed),
        }
    }
}

/// One planned dial attempt: the attempt's index and the endpoint its
/// dispatch signal will carry.
#[derive(Clone, Copy, PartialEq, Eq, Structural, Debug)]
pub struct Attempt {
    /// The attempt's index; events name the attempt that ended by it.
    pub id: usize,
    /// The endpoint this attempt dials.
    pub endpoint: Endpoint,
}

/// The dispatcher's plan: one attempt per resolved endpoint, in resolved
/// order, each attempt's dispatch signal carrying that attempt's own
/// endpoint. Zero endpoints are rejected up front, so the arbiter is never
/// asked to wait on a race nobody entered.
pub fn plan_attempts(endpoints: &Vec<Endpoint>) -> (r: Result<Vec<Attempt>, RaceError>)
    ensures
        endpoints@.len() == 0 ==> r == Err::<Vec<Attempt>, RaceError>(RaceError::ResolutionFailure),
        endpoints@.len() > 0 ==> (r matches Ok(plan) && plan@.len() == endpoints@.len()
            && (forall|i: int|
                0 <= i < endpoints@.len() ==> plan@[i].id == i
                    && plan@[i].endpoint == endpoints@[i])),
{
    if endpoints.len() == 0 {
        return Err(RaceError::ResolutionFailure);
    }
    let mut plan: Vec<Attempt> = Vec::new();
    let mut i: usize = 0;
    while i < endpoints.len()
        invariant
            i <= endpoints@.len(),
            plan@.len() == i,
            forall|j: int|
                0 <= j < i ==> #[trigger] plan@[j] == (Attempt {
                    id: j as usize,
                    endpoint: endpoints@[j],
                }),
        decreases endpoints@.len() - i,
    {
        let ghost prev = plan@;
        plan.push(Attempt { id: i, endpoint: endpoints[i] });
        proof {
            assert forall|j: int|
                0 <= j < i + 1 implies #[trigger] plan@[j] == (Attempt {
                id: j as usize,
                endpoint: endpoints@[j],
            }) by {
                if j < i {
                    assert(plan@[j] == prev[j]);
                } else {
                    assert(plan@[j] == (Attempt { id: i, endpoint: endpoints@[i as int] }));
                }
            }
        }
        i = i + 1;
    }
    proof {
        assert forall|k: int|
            0 <= k < endpoints@.len() implies plan@[k].id == k && plan@[k].endpoint
            == endpoints@[k] by {
            assert(plan@[k] == (Attempt { id: k as usize, endpoint: endpoints@[k] }));
        }
    }
    Ok(plan)
}

/// The single consumer of the results channel. It owns all race-outcome
/// bookkeeping: how many attempts are still outstanding, and which attempt's
/// connection, if any, was handed to the consumer.
pub struct Arbiter {
    /// Attempts whose terminal outcome has not been observed yet.
    pub outstanding: usize,
    /// The winning attempt, once a connected event has arrived.
    pub winner: Option<usize>,
}

impl Arbiter {
    /// Starts the accounting for a race of `attempts` dial attempts. Telling
    /// the arbiter the exact count — even zero — is what lets its wait loop
    /// end instead of waiting forever on missing successes.
    pub fn new(attempts: usize) -> (a: Arbiter)
        ensures
            a.outstanding == attempts,
            a.winner is None,
    {
        Arbiter { outstanding: attempts, winner: None }
    }

    /// Whether every attempt's outcome has been accounted for: only then may
    /// the arbiter conclude the race.
    pub fn done(&self) -> (r: bool)
        ensures
            r == (self.outstanding == 0),
    {
        self.outstanding == 0
    }

    /// Observes one attempt's terminal event and says what to do with it:
    /// the first connected event wins and its connection goes to the
    /// consumer; every later connection is closed; a failure only settles the
    /// accounting. Each event settles exactly one outstanding attempt.
    pub fn observe(&mut self, e: Event) -> (act: Action)
        requires
            old(self).outstanding > 0,
        ensures
            final(self).outstanding == old(self).outstanding - 1,
            e.outcome is Failed ==> act == Action::Ignore
                && final(self).winner == old(self).winner,
            e.outcome is Connected && old(self).winner is None ==> act == Action::Deliver
                && final(self).winner == Some(e.attempt),
            e.outcome is Connected && old(self).winner is Some ==> act == Action::Close
                && final(self).winner == old(self).winner,
    {
        self.outstanding = self.outstanding - 1;
        match e.outcome {
            Outcome::Connected => {
                if self.winner.is_none() {
                    self.winner = Some(e.attempt);
                    Action::Deliver
                } else {
                    Action::Close
                }
            },
            Outcome::Failed => Action::Ignore,
        }
    }

    /// The race's outcome once nothing is outstanding: the winning attempt,
    /// or the explicit no-route error — never a hang.
    pub fn conclude(&self) -> (r: Result<usize, RaceError>)
        requires
            self.outstanding == 0,
        ensures
            self.winner matches Some(w) ==> r == Ok::<usize, RaceError>(w),
            self.winner is None ==> r == Err::<usize, RaceError>(RaceError::AllAttemptsFailed),
    {
        match self.winner {
            Some(w) => Ok(w),
            None => Err(RaceError::AllAttemptsFailed),
        }
    }
}

/// Runs the arbiter over a whole race's events in arrival order: one event
/// per attempt. Returns the winning attempt, if any, and the action taken on
/// each event — which connection was delivered, which were closed.
pub fn run_race(attempts: usize, events: &Vec<Event>) -> (r: (Option<usize>, Vec<Action>))
    requires
        events@.len() == attempts,
    ensures
        r.0 == winner_attempt(events@),
        r.1@.len() == events@.len(),
        forall|i: int| 0 <= i < events@.len() ==> r.1@[i] == action_at(events@, i),
{
    let mut arb = Arbiter::new(attempts);
    let mut actions: Vec<Action> = Vec::new();
    let mut i: usize = 0;
    while i < events.len()
        invariant
            events@.len() == attempts,
            i <= events@.len(),
            arb.outstanding == attempts - i,
            arb.winner == winner_attempt(events@.take(i as int)),
            actions@.len() == i,
            forall|j: int| 0 <= j < i ==> actions@[j] == action_at(events@, j),
        decreases events@.len() - i,
    {
        let e = events[i];
        proof {
            lemma_winner_characterization(events@.take(i as int));
        }
        let act = arb.observe(e);
        actions.push(act);
        proof {
            assert(events@.take(i as int + 1).drop_last() =~= events@.take(i as int));
            assert(events@.take(i as int + 1).last() == events@[i as int]);
        }
        i = i + 1;
    }
    proof {
        assert(events@.take(events@.len() as int) =~= events@);
    }
    (arb.winner, actions)
}

/// The whole race against a resolved endpoint list: an empty list is the
/// explicit resolution failure, a race with no connected event is the
/// explicit all-attempts-failed error, and otherwise the winner is the
/// endpoint whose attempt connected first.
pub fn race(endpoints: &Vec<Endpoint>, events: &Vec<Event>) -> (r: Result<Endpoint, RaceError>)
    requires
        events@.len() == endpoints@.len(),
        forall|i: int| 0 <= i < events@.len() ==> events@[i].attempt < endpoints@.len(),
    ensures
        r == race_verdict(endpoints@, events@),
{
    if endpoints.len() == 0 {
        return Err(RaceError::ResolutionFailure);
    }
    let (w, _actions) = run_race(endpoints.len(), events);
    match w {
        Some(a) => {
            proof {
                lemma_winner_characterization(events@);
            }
            Ok(endpoints[a])
        },
        None => Err(RaceError::AllAttemptsFailed),
    }
}

/// The winner is exactly the first connected event: there is a winner if and
/// only if some event connected, the winning event itself connected, and
/// every event before it failed.
pub proof fn lemma_winner_characterization(events: Seq<Event>)
    ensures
        (winner_index(events) is None) <==> (forall|j: int|
            0 <= j < events.len() ==> events[j].outcome is Failed),
        winner_index(events) matches Some(i) ==> 0 <= i < events.len()
            && events[i].outcome is Connected && (forall|j: int|
            0 <= j < i ==> events[j].outcome is Failed),
    decreases events.len(),
{
    if events.len() > 0 {
        let prefix = events.drop_last();
        lemma_winner_characterization(prefix);
        assert(forall|j: int| 0 <= j < prefix.len() ==> prefix[j] == events[j]);
    }
}

/// Law: the first connect to arrive into the results channel wins, wherever
/// its endpoint stood in the resolved list — arrival order, not list order,
/// decides the race.
pub proof fn lemma_first_success_wins(events: Seq<Event>, i: int)
    requires
        0 <= i < events.len(),
        events[i].outcome is Connected,
        forall|j: int| 0 <= j < i ==> events[j].outcome is Failed,
    ensures
        winner_index(events) == Some(i),
        winner_attempt(events) == Some(events[i].attempt),
{
    lemma_winner_characterization(events);
    if winner_index(events) is Some {
        let k = winner_index(events)->Some_0;
        if k < i {
            assert(events[k].outcome is Failed);
        }
        if i < k {
            assert(events[i].outcome is Failed);
        }
    }
}

/// Law: when exactly one attempt connects, that attempt is the winner and its
/// connection is the one delivered to the consumer.
pub proof fn lemma_sole_success_wins(events: Seq<Event>, i: int)
    requires
        0 <= i < events.len(),
        events[i].outcome is Connected,
        forall|j: int| 0 <= j < events.len() && j != i ==> events[j].outcome is Failed,
    ensures
        winner_index(events) == Some(i),
        winner_attempt(events) == Some(events[i].attempt),
        action_at(events, i) == Action::Deliver,
{
    lemma_first_success_wins(events, i);
    lemma_winner_delivered(events, i);
}

/// Law: when every attempt fails, the race ends in the explicit
/// all-attempts-failed error — and it does end, since the arbiter consumes
/// exactly one event per attempt rather than waiting for successes that never
/// come.
pub proof fn lemma_all_failed(endpoints: Seq<Endpoint>, events: Seq<Event>)
    requires
        endpoints.len() > 0,
        forall|j: int| 0 <= j < events.len() ==> events[j].outcome is Failed,
    ensures
        race_verdict(endpoints, events) == Err::<Endpoint, RaceError>(RaceError::AllAttemptsFailed),
{
    lemma_winner_characterization(events);
}

/// Law: the winning event's connection is the one handed to the consumer.
pub proof fn lemma_winner_delivered(events: Seq<Event>, i: int)
    requires
        winner_index(events) == Some(i),
    ensures
        0 <= i < events.len(),
        action_at(events, i) == Action::Deliver,
{
    lemma_winner_characterization(events);
    let before = events.take(i);
    assert(forall|j: int| 0 <= j < before.len() ==> before[j] == events[j]);
    lemma_winner_characterization(before);
    if winner_index(before) is Some {
        let k = winner_index(before)->Some_0;
        assert(events[k].outcome is Connected);
    }
}

/// Law: every established connection other than the winner's is closed by the
/// arbiter, so no socket leaks past the race.
pub proof fn lemma_losers_closed(events: Seq<Event>, i: int)
    requires
        0 <= i < events.len(),
        events[i].outcome is Connected,
        winner_index(events) != Some(i),
    ensures
        action_at(events, i) == Action::Close,
{
    let before = events.take(i);
    lemma_winner_characterization(before);
    if winner_index(before) is None {
        assert(forall|j: int| 0 <= j < i ==> events[j] == before[j]);
        lemma_first_success_wins(events, i);
    }
}

/// Whether some event of the trial reports the terminal outcome of attempt
/// `a`.
pub open spec fn attempt_reported(events: Seq<Event>, a: int) -> bool {
    exists|j: int| 0 <= j < events.len() && (#[trigger] events[j]).attempt == a
}

/// One recorded trial against a fixed per-attempt reachability: every event
/// names a real attempt, an attempt's event is a connect exactly when that
/// attempt's endpoint is reachable, and every attempt's outcome shows up in
/// the trial.
pub open spec fn consistent_trial(reachable: Seq<bool>, events: Seq<Event>) -> bool {
    &&& forall|j: int| 0 <= j < events.len() ==> (#[trigger] events[j]).attempt < reachable.len()
    &&& forall|j: int|
        0 <= j < events.len() ==> ((#[trigger] events[j]).outcome is Connected <==> reachable[events[j].attempt as int])
    &&& forall|a: int| 0 <= a < reachable.len() ==> #[trigger] attempt_reported(events, a)
}

/// In a consistent trial there is a winner exactly when some endpoint is
/// reachable, and any winner is a reachable endpoint's attempt.
pub proof fn lemma_trial_winner(reachable: Seq<bool>, events: Seq<Event>)
    requires
        consistent_trial(reachable, events),
    ensures
        (winner_attempt(events) is Some) <==> (exists|a: int|
            0 <= a < reachable.len() && reachable[a]),
        winner_attempt(events) matches Some(a) ==> 0 <= a < reachable.len() && reachable[a as int],
{
    lemma_winner_characterization(events);
    if exists|a: int| 0 <= a < reachable.len() && reachable[a] {
        let a = choose|a: int| 0 <= a < reachable.len() && reachable[a];
        assert(attempt_reported(events, a));
        let j = choose|j: int| 0 <= j < events.len() && (#[trigger] events[j]).attempt == a;
        assert(reachable[events[j].attempt as int]);
        assert(events[j].outcome is Connected);
        assert(!(winner_index(events) is None));
    }
    if winner_index(events) is Some {
        let i = winner_index(events)->Some_0;
        assert(events[i].outcome is Connected);
        assert(reachable[events[i].attempt as int]);
    }
}

/// Law: re-running the race against the same fixed set of reachable and
/// unreachable endpoints yields the same winner class, whatever the arrival
/// orders were — both trials pick a reachable endpoint's attempt, or both end
/// with no winner.
pub proof fn lemma_rerun_same_winner_class(
    reachable: Seq<bool>,
    first: Seq<Event>,
    second: Seq<Event>,
)
    requires
        consistent_trial(reachable, first),
        consistent_trial(reachable, second),
    ensures
        (winner_attempt(first) is Some) <==> (winner_attempt(second) is Some),
        winner_attempt(first) matches Some(a) ==> reachable[a as int],
        winner_attempt(second) matches Some(a) ==> reachable[a as int],
{
    lemma_trial_winner(reachable, first);
    lemma_trial_winner(reachable, second);
}

} // verus!
