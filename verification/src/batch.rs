//! The life of a batch as a state machine: its states, the events that move
//! it, and what holds of every state that events can lead to.

use vstd::prelude::*;

use crate::error::NetworkError;
use crate::redirects::redirect_map;

verus! {

/// The number of requests that may be outstanding at once.
pub const POOL_SIZE: usize = 5;

/// How far the resolution of one URL of a batch has come.
pub enum Stage {
    /// No request has been handed out for it.
    Waiting,
    /// Its request is outstanding.
    InFlight,
    /// Its request ended at this URL.
    Resolved(Seq<char>),
    /// Its request failed.
    Failed,
}

/// What can happen to a batch.
pub enum Event {
    /// The caller asks for a request to send.
    Dispatch,
    /// The request for the URL at this position ended at this URL.
    Resolved(int, Seq<char>),
    /// The request for the URL at this position failed.
    Failed(int, NetworkError),
}

/// The state of a batch.
#[verifier::ext_equal]
pub struct Batch {
    /// The URLs to resolve, in the order given.
    pub hosts: Seq<Seq<char>>,
    /// The stage of each of them.
    pub stages: Seq<Stage>,
    /// How many requests have been handed out: always those for the first
    /// `launched` URLs.
    pub launched: nat,
    /// The first failure that was reported, if any.
    pub failure: Option<NetworkError>,
}

impl Batch {
    /// The batch for `hosts` before anything has happened.
    pub open spec fn start(hosts: Seq<Seq<char>>) -> Batch {
        Batch {
            hosts,
            stages: Seq::new(hosts.len(), |i: int| Stage::Waiting),
            launched: 0,
            failure: None,
        }
    }

    /// The positions whose requests are outstanding.
    pub open spec fn in_flight(self) -> Set<int> {
        Set::new(|i: int| 0 <= i < self.stages.len() && self.stages[i] is InFlight)
    }

    /// What holds of every batch that events have led to.
    pub open spec fn wf(self) -> bool {
        &&& self.stages.len() == self.hosts.len()
        &&& self.launched <= self.stages.len()
        &&& forall|i: int|
            0 <= i < self.stages.len() ==> (self.stages[i] is Waiting <==> i >= self.launched)
        &&& forall|i: int|
            0 <= i < self.stages.len() && self.stages[i] is Failed ==> self.failure is Some
        &&& self.in_flight().finite()
        &&& self.in_flight().len() <= POOL_SIZE
    }

    /// Whether a request may be handed out: the batch has not failed, a URL
    /// is waiting, and the pool has room.
    pub open spec fn can_dispatch(self) -> bool {
        &&& self.failure is None
        &&& self.launched < self.hosts.len()
        &&& self.in_flight().len() < POOL_SIZE
    }

    /// Whether the end of the request at position `i` is awaited.
    pub open spec fn awaits(self, i: int) -> bool {
        &&& self.failure is None
        &&& 0 <= i < self.stages.len()
        &&& self.stages[i] is InFlight
    }

    /// The batch after `event`. An event that does not fit the state (a
    /// dispatch with no room, the end of a request that is not awaited)
    /// changes nothing.
    pub open spec fn step(self, event: Event) -> Batch {
        match event {
            Event::Dispatch => if self.can_dispatch() {
                Batch {
                    stages: self.stages.update(self.launched as int, Stage::InFlight),
                    launched: self.launched + 1,
                    ..self
                }
            } else {
                self
            },
            Event::Resolved(i, url) => if self.awaits(i) {
                Batch { stages: self.stages.update(i, Stage::Resolved(url)), ..self }
            } else {
                self
            },
            Event::Failed(i, error) => if self.awaits(i) {
                Batch { stages: self.stages.update(i, Stage::Failed), failure: Some(error), ..self }
            } else {
                self
            },
        }
    }

    /// The batch after `events`, in their order.
    pub open spec fn run(self, events: Seq<Event>) -> Batch
        decreases events.len(),
    {
        if events.len() == 0 {
            self
        } else {
            self.run(events.drop_last()).step(events.last())
        }
    }

    /// Whether every URL has been resolved.
    pub open spec fn all_resolved(self) -> bool {
        forall|i: int| 0 <= i < self.stages.len() ==> self.stages[i] is Resolved
    }

    /// The URL that each request ended at, once every URL has been resolved.
    pub open spec fn finals(self) -> Seq<Seq<char>> {
        Seq::new(self.stages.len(), |i: int| self.stages[i]->Resolved_0)
    }

    /// What the batch has come to: nothing yet, the first failure, or the
    /// redirect map of all the resolutions.
    pub open spec fn outcome(self) -> Option<Result<Map<Seq<char>, Seq<char>>, NetworkError>> {
        match self.failure {
            Some(error) => Some(Err(error)),
            None => if self.all_resolved() {
                Some(Ok(redirect_map(self.hosts, self.finals())))
            } else {
                None
            },
        }
    }
}

/// An event leads from one well-formed batch to another. In particular the
/// number of outstanding requests stays within the pool.
pub proof fn lemma_step_wf(batch: Batch, event: Event)
    requires
        batch.wf(),
    ensures
        batch.step(event).wf(),
        batch.step(event).hosts == batch.hosts,
{
    let next = batch.step(event);
    match event {
        Event::Dispatch => {
            if batch.can_dispatch() {
                assert(next.in_flight() =~= batch.in_flight().insert(batch.launched as int));
            }
        },
        Event::Resolved(i, url) => {
            if batch.awaits(i) {
                assert(next.in_flight() =~= batch.in_flight().remove(i));
            }
        },
        Event::Failed(i, error) => {
            if batch.awaits(i) {
                assert(next.in_flight() =~= batch.in_flight().remove(i));
            }
        },
    }
}

/// Whatever happens to a batch, and in whatever order, it stays well formed.
pub proof fn lemma_run_wf(hosts: Seq<Seq<char>>, events: Seq<Event>)
    ensures
        Batch::start(hosts).run(events).wf(),
        Batch::start(hosts).run(events).hosts == hosts,
    decreases events.len(),
{
    if events.len() == 0 {
        assert(Batch::start(hosts).in_flight() =~= Set::<int>::empty());
    } else {
        lemma_run_wf(hosts, events.drop_last());
        lemma_step_wf(Batch::start(hosts).run(events.drop_last()), events.last());
    }
}

/// At no point of a batch are more than `POOL_SIZE` requests outstanding,
/// however many URLs it holds and whatever the order of events.
pub proof fn lemma_pool_bound(hosts: Seq<Seq<char>>, events: Seq<Event>)
    ensures
        Batch::start(hosts).run(events).in_flight().len() <= POOL_SIZE,
{
    lemma_run_wf(hosts, events);
}

/// A batch that has come to nothing yet has work left: a request is
/// outstanding, or one may be handed out.
pub proof fn lemma_progress(batch: Batch)
    requires
        batch.wf(),
        batch.outcome() is None,
    ensures
        batch.in_flight().len() > 0 || batch.can_dispatch(),
{
    let i = choose|i: int| 0 <= i < batch.stages.len() && !(batch.stages[i] is Resolved);
    if batch.stages[i] is InFlight {
        assert(batch.in_flight().contains(i));
    }
}

/// Every request that `events` reports as resolved ended where `answers`
/// says the URL at its position leads.
pub open spec fn agrees_with(events: Seq<Event>, answers: Seq<Seq<char>>) -> bool {
    forall|k: int|
        0 <= k < events.len() ==> (#[trigger] events[k] matches Event::Resolved(i, url) ==> (0 <= i
            < answers.len() ==> url == answers[i]))
}

proof fn lemma_run_agrees(hosts: Seq<Seq<char>>, answers: Seq<Seq<char>>, events: Seq<Event>)
    requires
        answers.len() == hosts.len(),
        agrees_with(events, answers),
    ensures
        forall|i: int|
            0 <= i < hosts.len() ==> (#[trigger] Batch::start(hosts).run(
                events,
            ).stages[i] matches Stage::Resolved(url) ==> url == answers[i]),
    decreases events.len(),
{
    if events.len() > 0 {
        let before = events.drop_last();
        assert forall|k: int| 0 <= k < before.len() implies (#[trigger] before[k] matches
            Event::Resolved(i, url) ==> (0 <= i < answers.len() ==> url == answers[i])) by {
            assert(before[k] == events[k]);
        }
        lemma_run_agrees(hosts, answers, before);
        lemma_run_wf(hosts, before);
        let last = events.last();
        assert(last == events[events.len() - 1]);
    }
}

/// Where the URL at position `i` leads to `answers[i]`, a batch that comes to
/// a map comes to the redirect map of its hosts and `answers`, whatever the
/// events were that led there.
pub proof fn lemma_outcome_of_answers(
    hosts: Seq<Seq<char>>,
    answers: Seq<Seq<char>>,
    events: Seq<Event>,
)
    requires
        answers.len() == hosts.len(),
        agrees_with(events, answers),
    ensures
        Batch::start(hosts).run(events).outcome() matches Some(Ok(map)) ==> map == redirect_map(
            hosts,
            answers,
        ),
{
    let end = Batch::start(hosts).run(events);
    lemma_run_wf(hosts, events);
    lemma_run_agrees(hosts, answers, events);
    if end.outcome() matches Some(Ok(map)) {
        assert(end.finals() =~= answers);
    }
}

/// The redirect map of a batch does not depend on the order in which its
/// requests end, nor on when they are handed out: two runs of events in
/// which every URL leads to the same place come to the same map, if each
/// comes to one.
pub proof fn lemma_order_independence(
    hosts: Seq<Seq<char>>,
    answers: Seq<Seq<char>>,
    first: Seq<Event>,
    second: Seq<Event>,
)
    requires
        answers.len() == hosts.len(),
        agrees_with(first, answers),
        agrees_with(second, answers),
    ensures
        ({
            &&& Batch::start(hosts).run(first).outcome() matches Some(Ok(one))
            &&& Batch::start(hosts).run(second).outcome() matches Some(Ok(other))
        }) ==> Batch::start(hosts).run(first).outcome() == Batch::start(hosts).run(
            second,
        ).outcome(),
{
    lemma_outcome_of_answers(hosts, answers, first);
    lemma_outcome_of_answers(hosts, answers, second);
}

/// Once a failure is recorded, no event changes what the batch has come to.
pub proof fn lemma_failure_stays(batch: Batch, events: Seq<Event>)
    requires
        batch.failure is Some,
    ensures
        batch.run(events).failure == batch.failure,
        batch.run(events).outcome() == batch.outcome(),
    decreases events.len(),
{
    if events.len() > 0 {
        lemma_failure_stays(batch, events.drop_last());
    }
}

/// A batch that has come to a map or to a failure is at its end: no event
/// changes it, and nothing is tried again.
pub proof fn lemma_end_is_final(batch: Batch, events: Seq<Event>)
    requires
        batch.wf(),
        batch.outcome() is Some,
    ensures
        batch.run(events) == batch,
    decreases events.len(),
{
    if events.len() > 0 {
        lemma_end_is_final(batch, events.drop_last());
        if batch.failure is None && batch.launched < batch.stages.len() {
            assert(batch.stages[batch.launched as int] is Waiting);
        }
    }
}

/// One failed request fails the whole batch: from the moment the failure of
/// an awaited request is reported, the batch has come to that failure, and
/// nothing that happens afterwards yields a redirect map.
pub proof fn lemma_fail_fast(batch: Batch, i: int, error: NetworkError, later: Seq<Event>)
    requires
        batch.awaits(i),
    ensures
        batch.step(Event::Failed(i, error)).run(later).outcome() == Some(
            Err::<Map<Seq<char>, Seq<char>>, NetworkError>(error),
        ),
{
    lemma_failure_stays(batch.step(Event::Failed(i, error)), later);
}

} // verus!
