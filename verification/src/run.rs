//! One crawl run: the limiter, the visited guard, the collector and every
//! live invocation, stepped by the embedding program.
//!
//! The run decides; the embedding program acts.  [`CrawlRun::next_step`]
//! admits the next waiting invocation, if a slot is free, and says whether a
//! page is to be fetched, a fetch in flight is to be awaited, or the crawl is
//! over.  [`CrawlRun::complete`] takes the outcome of a fetch and does what
//! follows from it: emit, continue the chain, report, give the slot back.

use vstd::prelude::*;
use crate::assembler::assemble;
use crate::assembler::document_of;
use crate::collector::ChapterResult;
use crate::collector::Collector;
use crate::collector::chapter_views;
use crate::driver::Effects;
use crate::driver::Event;
use crate::driver::Invocation;
use crate::driver::pending;
use crate::identity::PageIdentity;
use crate::identity::StartupError;
use crate::identity::parsed_url;
use crate::limiter::Limiter;
use crate::limiter::Token;
use crate::page::FetchError;
use crate::page::Page;
use crate::page::outcome_view;
use crate::state::Completion;
use crate::state::FailureView;
use crate::state::RunView;
use crate::state::StepView;
use crate::state::lemma_admitted_holds;
use crate::state::lemma_completed_holds;
use crate::state::lemma_initial_holds;
use crate::state::lemma_with_chain_holds;
use crate::state::urls_of;
use crate::visited::VisitedGuard;

verus! {

/// The number of fetches that a run lets be in flight at once unless it is
/// told otherwise.
pub const MAX_CONCURRENT_REQUESTS: usize = 50;

/// A page whose fetch failed, with the reason.
#[derive(Debug)]
pub struct Failure {
    pub url: PageIdentity,
    pub error: FetchError,
}

impl View for Failure {
    type V = FailureView;

    open spec fn view(&self) -> FailureView {
        FailureView { url: self.url@, error: self.error }
    }
}

/// What the embedding program has to do next.
#[derive(Debug)]
pub enum Step {
    /// The invocation for the page at `url` was admitted: fetch the page and
    /// hand the outcome to [`CrawlRun::complete`].
    Fetch { index: usize, url: PageIdentity },
    /// The invocation for the page at `url` ended at once, because the page
    /// had been claimed before.  Nothing is to be done for it.
    Duplicate { index: usize, url: PageIdentity },
    /// No invocation can be admitted before a fetch in flight is completed.
    Wait,
    /// The crawl is quiescent: no invocation is live and none can start.
    Finished,
}

impl View for Step {
    type V = StepView;

    open spec fn view(&self) -> StepView {
        match self {
            Step::Fetch { index, url } => StepView::Fetch { index: *index as nat, url: url@ },
            Step::Duplicate { index, url } => StepView::Duplicate {
                index: *index as nat,
                url: url@,
            },
            Step::Wait => StepView::Wait,
            Step::Finished => StepView::Finished,
        }
    }
}

/// An invocation whose fetch is in flight, with the slot that it holds.
struct InFlight {
    invocation: Invocation,
    token: Token,
}

/// The state of one crawl run.
pub struct CrawlRun {
    limiter: Limiter,
    visited: VisitedGuard,
    collector: Collector,
    pending: Vec<Invocation>,
    fetching: Vec<InFlight>,
    failures: Vec<Failure>,
    origins: Ghost<Seq<Seq<char>>>,
    chains: Ghost<nat>,
}

impl View for CrawlRun {
    type V = RunView;

    closed spec fn view(&self) -> RunView {
        RunView {
            capacity: self.limiter@.capacity,
            visited: self.visited@,
            pending: self.pending@.map_values(|invocation: Invocation| invocation@),
            fetching: self.fetching@.map_values(|flight: InFlight| flight.invocation@),
            collected: self.collector@,
            origins: self.origins@,
            failures: self.failures@.map_values(|failure: Failure| failure@),
            chains: self.chains@,
        }
    }
}

impl CrawlRun {
    /// What holds of a run at all times.
    pub closed spec fn wf(&self) -> bool {
        &&& self.limiter.wf()
        &&& self.visited.wf()
        &&& self.limiter@.in_flight == self.fetching@.len()
        &&& self@.wf()
    }

    /// A run that holds together has a value that holds together.
    pub proof fn lemma_wf(&self)
        requires
            self.wf(),
        ensures
            self@.wf(),
    {
    }

    /// A run with `max_concurrency` slots and one chain, whose first page is
    /// at `start`.
    pub fn new(start: PageIdentity, max_concurrency: usize) -> (run: CrawlRun)
        requires
            max_concurrency > 0,
        ensures
            run.wf(),
            run@ == RunView::initial(start@, max_concurrency as nat),
    {
        let mut waiting: Vec<Invocation> = Vec::new();
        waiting.push(Invocation::new(0, start));
        let run = CrawlRun {
            limiter: Limiter::new(max_concurrency),
            visited: VisitedGuard::new(),
            collector: Collector::new(),
            pending: waiting,
            fetching: Vec::new(),
            failures: Vec::new(),
            origins: Ghost(Seq::empty()),
            chains: Ghost(1),
        };
        proof {
            assert(run@.pending =~= seq![pending(0, start@)]);
            assert(run@.fetching =~= Seq::empty());
            assert(run@.failures =~= Seq::empty());
            lemma_initial_holds(start@, max_concurrency as nat);
        }
        run
    }

    /// A run with `max_concurrency` slots and one chain, whose first page is
    /// at the absolute URL that `start_url` holds.  Nothing is crawled where
    /// `start_url` is malformed.
    pub fn start(start_url: &str, max_concurrency: usize) -> (run: Result<CrawlRun, StartupError>)
        requires
            max_concurrency > 0,
        ensures
            match run {
                Ok(run) => {
                    &&& run.wf()
                    &&& parsed_url(start_url@) is Some
                    &&& run@ == RunView::initial(
                        parsed_url(start_url@)->Some_0,
                        max_concurrency as nat,
                    )
                },
                Err(error) => parsed_url(start_url@) is None && error == StartupError::MalformedUrl,
            },
    {
        match PageIdentity::parse(start_url) {
            Ok(start) => Ok(CrawlRun::new(start, max_concurrency)),
            Err(error) => Err(error),
        }
    }

    /// Starts one more chain, whose first page is at `start`.
    pub fn add_chain(&mut self, start: PageIdentity)
        requires
            old(self).wf(),
        ensures
            final(self).wf(),
            final(self)@ == old(self)@.with_chain(start@),
    {
        self.pending.push(Invocation::new(0, start));
        self.chains = Ghost(self.chains@ + 1);
        proof {
            assert(self@.pending =~= old(self)@.pending.push(pending(0, start@)));
            lemma_with_chain_holds(old(self)@, start@);
        }
    }

    /// Admits the invocation that waits first, if a slot is free, and says
    /// what the embedding program has to do next.
    pub fn next_step(&mut self) -> (step: Step)
        requires
            old(self).wf(),
        ensures
            final(self).wf(),
            (final(self)@, step@) == old(self)@.admitted(),
    {
        if self.pending.len() == 0 {
            if self.fetching.len() == 0 {
                return Step::Finished;
            } else {
                return Step::Wait;
            }
        }
        let token = match self.limiter.try_acquire() {
            Some(token) => token,
            None => {
                return Step::Wait;
            },
        };
        let head = self.pending.remove(0);
        let (granted, _) = head.step(Event::TokenGranted);
        let first = self.visited.claim(&granted.url);
        let (checked, effects) = granted.step(Event::ClaimChecked { first });
        let index = checked.index;
        let url = checked.url.clone();
        if effects.release_token {
            self.limiter.release(token);
        } else {
            self.fetching.push(InFlight { invocation: checked, token });
        }
        proof {
            assert(self@.pending =~= old(self)@.pending.drop_first());
            if first {
                assert(self@.fetching =~= old(self)@.fetching.push(checked@));
            }
            lemma_admitted_holds(old(self)@);
        }
        if first {
            Step::Fetch { index, url }
        } else {
            Step::Duplicate { index, url }
        }
    }

    /// The place among the fetches in flight of the one for the page at
    /// `url`.
    fn find_in_flight(&self, url: &PageIdentity) -> (place: Option<usize>)
        requires
            self.wf(),
        ensures
            match place {
                Some(k) => self@.in_flight_for(url@) == Some(k as int) && k < self@.fetching.len()
                    && self@.fetching[k as int].url == url@,
                None => self@.in_flight_for(url@) is None,
            },
    {
        let ghost urls = urls_of(self@.fetching);
        let mut k: usize = 0;
        while k < self.fetching.len()
            invariant
                self.wf(),
                k <= self.fetching.len(),
                urls == urls_of(self@.fetching),
                forall|i: int| 0 <= i < k ==> urls[i] != url@,
            decreases self.fetching.len() - k,
        {
            if self.fetching[k].invocation.url.same_page(url) {
                assert(urls[k as int] == url@);
                assert(urls.no_duplicates());
                return Some(k);
            }
            k = k + 1;
        }
        None
    }

    /// Takes the outcome of the fetch of the page at `url` and does what
    /// follows from it.
    pub fn complete(&mut self, url: &PageIdentity, outcome: Result<Page, FetchError>) -> (done:
        Completion)
        requires
            old(self).wf(),
        ensures
            final(self).wf(),
            (final(self)@, done) == old(self)@.reported(url@, outcome_view(outcome)),
    {
        let place = match self.find_in_flight(url) {
            Some(place) => place,
            None => {
                return Completion::NotInFlight;
            },
        };
        let ghost before = old(self)@;
        let InFlight { invocation, token } = self.fetching.remove(place);
        proof {
            assert(invocation@ == before.fetching[place as int]);
            assert(self@.fetching =~= before.fetching.remove(place as int));
            self.visited.lemma_len_fits();
        }
        let index = invocation.index;
        let (ended, effects) = invocation.step(Event::Fetched { outcome });
        let Invocation { url: origin, .. } = ended;
        let Effects { release_token, emit, spawn, report } = effects;
        if release_token {
            self.limiter.release(token);
        }
        let spawned = spawn.is_some();
        match emit {
            Some(result) => {
                self.collector.receive(result);
                self.origins = Ghost(self.origins@.push(origin@));
            },
            None => {},
        }
        match spawn {
            Some(successor) => {
                self.pending.push(successor);
                assert(self@.pending =~= before.pending.push(successor@));
            },
            None => {},
        }
        let done = match report {
            Some(error) => {
                self.failures.push(Failure { url: origin, error });
                assert(self@.failures =~= before.failures.push(
                    FailureView { url: origin@, error },
                ));
                Completion::Failed { index, error }
            },
            None => Completion::Emitted { index, spawned },
        };
        proof {
            lemma_completed_holds(before, place as int, outcome_view(outcome));
        }
        done
    }

    /// Whether the crawl is over: no invocation is live, so none can start.
    pub fn is_quiescent(&self) -> (quiescent: bool)
        ensures
            quiescent == self@.quiescent(),
    {
        self.pending.len() == 0 && self.fetching.len() == 0
    }

    /// The number of invocations that wait for a slot.
    pub fn waiting(&self) -> (n: usize)
        ensures
            n == self@.pending.len(),
    {
        self.pending.len()
    }

    /// The number of fetches in flight.
    pub fn in_flight(&self) -> (n: usize)
        ensures
            n == self@.fetching.len(),
    {
        self.fetching.len()
    }

    /// The number of fetches that may be in flight at once.
    pub fn capacity(&self) -> (n: usize)
        ensures
            n == self@.capacity,
    {
        self.limiter.capacity()
    }

    /// Whether the page at `url` has been claimed.
    pub fn has_claimed(&self, url: &PageIdentity) -> (claimed: bool)
        ensures
            claimed == self@.visited.contains(url@),
    {
        self.visited.contains(url)
    }

    /// The results emitted so far, in the order of their arrival.
    pub fn collected(&self) -> (results: &Vec<ChapterResult>)
        ensures
            chapter_views(results@) == self@.collected,
    {
        self.collector.results()
    }

    /// The failures reported so far, in the order of their arrival.
    pub fn failures(&self) -> (failures: &Vec<Failure>)
        ensures
            failures@.map_values(|failure: Failure| failure@) == self@.failures,
    {
        &self.failures
    }

    /// Ends the run and hands over the results emitted, in the order of their
    /// arrival.
    pub fn into_results(self) -> (results: Vec<ChapterResult>)
        ensures
            chapter_views(results@) == self@.collected,
    {
        self.collector.into_results()
    }

    /// Ends the run and makes the document of the results emitted.
    pub fn into_document(self) -> (document: String)
        ensures
            document@ == document_of(self@.collected),
    {
        assemble(self.collector.into_results())
    }
}

} // verus!
