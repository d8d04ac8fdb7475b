//! The batch processor: which request goes out next, what is still awaited,
//! and what the batch comes to.
//!
//! The processor sends nothing itself. Its caller asks it for the next
//! position to request with [`Processor::dispatch`], sends that request, and
//! reports the end of each one with [`Processor::resolved`] or
//! [`Processor::failed`]; [`Processor::process`] then gives the result.

use vstd::prelude::*;

use crate::batch::{lemma_progress, lemma_step_wf, Batch, Event, Stage, POOL_SIZE};
use crate::error::NetworkError;
use crate::redirects::{redirect_order, RedirectMap};
use crate::url::{texts, Url};

verus! {

enum Slot {
    Waiting,
    InFlight,
    Resolved(Url),
    Failed,
}

impl View for Slot {
    type V = Stage;

    closed spec fn view(&self) -> Stage {
        match self {
            Slot::Waiting => Stage::Waiting,
            Slot::InFlight => Stage::InFlight,
            Slot::Resolved(url) => Stage::Resolved(url@),
            Slot::Failed => Stage::Failed,
        }
    }
}

spec fn stages(slots: Seq<Slot>) -> Seq<Stage> {
    slots.map_values(|slot: Slot| slot@)
}

struct State {
    hosts: Vec<Url>,
    slots: Vec<Slot>,
    launched: usize,
    outstanding: usize,
    failure: Option<NetworkError>,
}

impl View for State {
    type V = Batch;

    closed spec fn view(&self) -> Batch {
        Batch {
            hosts: texts(self.hosts@),
            stages: stages(self.slots@),
            launched: self.launched as nat,
            failure: self.failure,
        }
    }
}

impl State {
    spec fn wf(&self) -> bool {
        &&& self@.wf()
        &&& self.outstanding == self@.in_flight().len()
    }

    fn new(hosts: Vec<Url>) -> (r: State)
        ensures
            r.wf(),
            r@ == Batch::start(texts(hosts@)),
            r.hosts == hosts,
    {
        let mut slots: Vec<Slot> = Vec::new();
        let mut i: usize = 0;
        while i < hosts.len()
            invariant
                i <= hosts.len(),
                slots.len() == i,
                forall|j: int| 0 <= j < i ==> slots[j] is Waiting,
            decreases hosts.len() - i,
        {
            slots.push(Slot::Waiting);
            i += 1;
        }
        let r = State { hosts, slots, launched: 0, outstanding: 0, failure: None };
        proof {
            assert(r@.stages =~= Batch::start(texts(hosts@)).stages);
            assert(r@ =~= Batch::start(texts(hosts@)));
            assert(r@.in_flight() =~= Set::<int>::empty());
        }
        r
    }

    fn dispatch(&mut self) -> (r: Option<usize>)
        requires
            old(self).wf(),
        ensures
            final(self).wf(),
            final(self)@ == old(self)@.step(Event::Dispatch),
            final(self).hosts == old(self).hosts,
            match r {
                Some(i) => old(self)@.can_dispatch() && i == old(self)@.launched,
                None => !old(self)@.can_dispatch(),
            },
    {
        if self.failure.is_some() || self.launched >= self.hosts.len() || self.outstanding
            >= POOL_SIZE {
            return None;
        }
        let index = self.launched;
        proof {
            lemma_step_wf(self@, Event::Dispatch);
        }
        self.slots.set(index, Slot::InFlight);
        self.launched = index + 1;
        self.outstanding = self.outstanding + 1;
        proof {
            assert(self@.stages =~= old(self)@.stages.update(index as int, Stage::InFlight));
            assert(self@ =~= old(self)@.step(Event::Dispatch));
            assert(self@.in_flight() =~= old(self)@.in_flight().insert(index as int));
        }
        Some(index)
    }

    fn resolved(&mut self, index: usize, url: Url) -> (r: bool)
        requires
            old(self).wf(),
        ensures
            final(self).wf(),
            final(self)@ == old(self)@.step(Event::Resolved(index as int, url@)),
            final(self).hosts == old(self).hosts,
            r == old(self)@.awaits(index as int),
    {
        if !self.awaited(index) {
            return false;
        }
        proof {
            lemma_step_wf(self@, Event::Resolved(index as int, url@));
            assert(old(self)@.in_flight().contains(index as int));
        }
        self.slots.set(index, Slot::Resolved(url));
        self.outstanding = self.outstanding - 1;
        proof {
            assert(self@.stages =~= old(self)@.stages.update(
                index as int,
                Stage::Resolved(url@),
            ));
            assert(self@ =~= old(self)@.step(Event::Resolved(index as int, url@)));
            assert(self@.in_flight() =~= old(self)@.in_flight().remove(index as int));
        }
        true
    }

    fn failed(&mut self, index: usize, error: NetworkError) -> (r: bool)
        requires
            old(self).wf(),
        ensures
            final(self).wf(),
            final(self)@ == old(self)@.step(Event::Failed(index as int, error)),
            final(self).hosts == old(self).hosts,
            r == old(self)@.awaits(index as int),
    {
        if !self.awaited(index) {
            return false;
        }
        proof {
            lemma_step_wf(self@, Event::Failed(index as int, error));
            assert(old(self)@.in_flight().contains(index as int));
        }
        self.slots.set(index, Slot::Failed);
        self.outstanding = self.outstanding - 1;
        self.failure = Some(error);
        proof {
            assert(self@.stages =~= old(self)@.stages.update(index as int, Stage::Failed));
            assert(self@ =~= old(self)@.step(Event::Failed(index as int, error)));
            assert(self@.in_flight() =~= old(self)@.in_flight().remove(index as int));
        }
        true
    }

    fn awaited(&self, index: usize) -> (r: bool)
        requires
            self.wf(),
        ensures
            r == self@.awaits(index as int),
    {
        if self.failure.is_some() || index >= self.slots.len() {
            return false;
        }
        match &self.slots[index] {
            Slot::InFlight => true,
            _ => false,
        }
    }

    /// The URL that each request ended at, if every URL has been resolved.
    fn finals(&self) -> (r: Option<Vec<Url>>)
        requires
            self.wf(),
        ensures
            match r {
                Some(finals) => self@.all_resolved() && texts(finals@) == self@.finals(),
                None => !self@.all_resolved(),
            },
    {
        if self.launched < self.slots.len() {
            proof {
                assert(self@.stages[self.launched as int] is Waiting);
            }
            return None;
        }
        if self.outstanding > 0 {
            proof {
                let i = self@.in_flight().choose();
                assert(self@.in_flight().contains(i));
                assert(self@.stages[i] is InFlight);
            }
            return None;
        }
        let mut finals: Vec<Url> = Vec::new();
        let mut i: usize = 0;
        while i < self.slots.len()
            invariant
                i <= self.slots.len(),
                finals.len() == i,
                forall|j: int| 0 <= j < i ==> self.slots[j] is Resolved,
                forall|j: int| 0 <= j < i ==> finals[j]@ == self@.finals()[j],
            decreases self.slots.len() - i,
        {
            match &self.slots[i] {
                Slot::Resolved(url) => {
                    finals.push(url.clone());
                },
                _ => {
                    proof {
                        assert(!(self@.stages[i as int] is Resolved));
                    }
                    return None;
                },
            }
            i += 1;
        }
        proof {
            assert(texts(finals@) =~= self@.finals());
            assert forall|j: int| 0 <= j < self@.stages.len() implies
                self@.stages[j] is Resolved by {
                assert(self.slots[j] is Resolved);
            }
        }
        Some(finals)
    }
}

/// A batch of URLs to resolve, and how far their resolution has come.
///
/// One processor serves one batch: it starts with nothing requested and ends
/// when every URL is resolved or one request has failed.
pub struct Processor {
    state: State,
}

impl View for Processor {
    type V = Batch;

    closed spec fn view(&self) -> Batch {
        self.state@
    }
}

impl Processor {
    #[verifier::type_invariant]
    spec fn well_formed(self) -> bool {
        self.state.wf()
    }

    /// The URLs of the batch, in the order given.
    pub closed spec fn urls(&self) -> Seq<Url> {
        self.state.hosts@
    }

    /// The batch's state speaks of the serializations of its URLs.
    pub proof fn lemma_urls(&self)
        ensures
            self@.hosts == texts(self.urls()),
    {
    }

    /// A batch for `hosts`, of which nothing has been requested yet.
    /// Duplicates are kept, and so is the order.
    pub fn from_hosts(hosts: Vec<Url>) -> (r: Processor)
        ensures
            r@ == Batch::start(texts(hosts@)),
            r@.wf(),
            r@.in_flight() == Set::<int>::empty(),
            r.urls() == hosts@,
    {
        let state = State::new(hosts);
        proof {
            assert(state@.in_flight() =~= Set::<int>::empty());
        }
        Processor { state }
    }

    /// The URLs of the batch, in the order given.
    pub fn hosts(&self) -> (r: &Vec<Url>)
        ensures
            r@ == self.urls(),
    {
        &self.state.hosts
    }

    /// The number of requests that are outstanding.
    pub fn in_flight(&self) -> (r: usize)
        ensures
            self@.wf(),
            r == self@.in_flight().len(),
            r <= POOL_SIZE,
    {
        proof {
            use_type_invariant(self);
        }
        self.state.outstanding
    }

    /// Hands out the next request, if one may go out: `Some(i)` asks the
    /// caller to send the request for the URL at position `i`, which is then
    /// outstanding. Positions are handed out in the order of the batch, and
    /// none while `POOL_SIZE` requests are outstanding or after a failure.
    pub fn dispatch(&mut self) -> (r: Option<usize>)
        ensures
            final(self)@.wf(),
            final(self)@ == old(self)@.step(Event::Dispatch),
            final(self).urls() == old(self).urls(),
            final(self)@.in_flight().len() <= POOL_SIZE,
            match r {
                Some(i) => {
                    &&& old(self)@.can_dispatch()
                    &&& i == old(self)@.launched
                    &&& final(self)@.in_flight() == old(self)@.in_flight().insert(i as int)
                    &&& final(self)@.in_flight().len() == old(self)@.in_flight().len() + 1
                },
                None => !old(self)@.can_dispatch(),
            },
    {
        proof {
            use_type_invariant(&*self);
        }
        // The state is taken out while it changes: what stands in for it
        // meanwhile is an empty batch.
        let mut state = State::new(Vec::new());
        std::mem::swap(&mut state, &mut self.state);
        let r = state.dispatch();
        proof {
            if r is Some {
                assert(state@.in_flight() =~= old(self)@.in_flight().insert(
                    old(self)@.launched as int,
                ));
            }
        }
        std::mem::swap(&mut state, &mut self.state);
        r
    }

    /// Records that the request for the URL at position `index` ended at
    /// `url`. Returns whether that end was awaited; if it was not, nothing
    /// changes.
    pub fn resolved(&mut self, index: usize, url: Url) -> (r: bool)
        ensures
            final(self)@.wf(),
            final(self)@ == old(self)@.step(Event::Resolved(index as int, url@)),
            final(self).urls() == old(self).urls(),
            r == old(self)@.awaits(index as int),
            r ==> final(self)@.in_flight() == old(self)@.in_flight().remove(index as int),
            r ==> final(self)@.in_flight().len() == old(self)@.in_flight().len() - 1,
    {
        proof {
            use_type_invariant(&*self);
        }
        let mut state = State::new(Vec::new());
        std::mem::swap(&mut state, &mut self.state);
        let r = state.resolved(index, url);
        proof {
            if r {
                assert(state@.in_flight() =~= old(self)@.in_flight().remove(index as int));
            }
        }
        std::mem::swap(&mut state, &mut self.state);
        r
    }

    /// Records that the request for the URL at position `index` failed with
    /// `error`, which ends the batch. Returns whether the end of that request
    /// was awaited; if it was not, nothing changes.
    pub fn failed(&mut self, index: usize, error: NetworkError) -> (r: bool)
        ensures
            final(self)@.wf(),
            final(self)@ == old(self)@.step(Event::Failed(index as int, error)),
            final(self).urls() == old(self).urls(),
            r == old(self)@.awaits(index as int),
            r ==> final(self)@.in_flight() == old(self)@.in_flight().remove(index as int),
            r ==> final(self)@.in_flight().len() == old(self)@.in_flight().len() - 1,
            r ==> final(self)@.outcome() == Some(
                Err::<Map<Seq<char>, Seq<char>>, NetworkError>(error),
            ),
    {
        proof {
            use_type_invariant(&*self);
        }
        let mut state = State::new(Vec::new());
        std::mem::swap(&mut state, &mut self.state);
        let r = state.failed(index, error);
        proof {
            if r {
                assert(state@.in_flight() =~= old(self)@.in_flight().remove(index as int));
            }
        }
        std::mem::swap(&mut state, &mut self.state);
        r
    }

    /// What the batch has come to. `None` while requests are waiting or
    /// outstanding and none has failed; the first failure that was reported,
    /// whatever else has been resolved; and once every URL is resolved, the
    /// redirect map: each URL that was redirected, with the URL that its last
    /// redirected occurrence in the batch led to.
    pub fn process(&self) -> (r: Option<Result<RedirectMap, NetworkError>>)
        ensures
            self@.wf(),
            match r {
                None => {
                    &&& self@.outcome() is None
                    &&& self@.in_flight().len() > 0 || self@.can_dispatch()
                },
                Some(Err(error)) => self@.outcome() == Some(
                    Err::<Map<Seq<char>, Seq<char>>, NetworkError>(error),
                ),
                Some(Ok(map)) => {
                    &&& self@.outcome() == Some(
                        Ok::<Map<Seq<char>, Seq<char>>, NetworkError>(map@),
                    )
                    &&& map.order() == redirect_order(self@.hosts, self@.finals())
                    &&& forall|source: Seq<char>| #[trigger]
                        map@.contains_key(source) ==> self@.hosts.contains(source)
                    &&& forall|source: Seq<char>| #[trigger]
                        map@.contains_key(source) ==> map@[source] != source
                },
            },
    {
        proof {
            use_type_invariant(self);
        }
        if let Some(error) = self.state.failure {
            return Some(Err(error));
        }
        match self.state.finals() {
            Some(finals) => Some(Ok(RedirectMap::from_resolutions(&self.state.hosts, &finals))),
            None => {
                proof {
                    lemma_progress(self@);
                }
                None
            },
        }
    }
}

} // verus!
