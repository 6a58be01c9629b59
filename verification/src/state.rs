//! The state of a crawl run and the steps it takes, as mathematics.
//!
//! A run has waiting invocations, fetches in flight, claimed pages, emitted
//! results and reported failures.  It changes in two ways only: the
//! invocation that waits first is admitted, or a fetch in flight is
//! completed.  What holds of a run at all times is stated and proved here.

use vstd::prelude::*;
use crate::collector::ChapterView;
use crate::driver::InvocationView;
use crate::driver::Phase;
use crate::driver::pending;
use crate::order::ascending;
use crate::order::distinct_indices;
use crate::order::in_chain_order;
use crate::order::lemma_chain_order_keeps_ascending;
use crate::page::FetchError;
use crate::page::PageView;

verus! {

/// A page whose fetch failed, with the reason.
pub struct FailureView {
    pub url: Seq<char>,
    pub error: FetchError,
}

/// What the embedding program has to do next: fetch the page at `url` and
/// report back, nothing for an invocation that ended as a duplicate, wait for
/// a fetch in flight to be completed, or stop because the crawl is over.
pub enum StepView {
    Fetch { index: nat, url: Seq<char> },
    Duplicate { index: nat, url: Seq<char> },
    Wait,
    Finished,
}

/// What became of a completed fetch.
#[derive(Clone, Copy, Debug, PartialEq, Eq, Structural)]
pub enum Completion {
    /// The page's fragment was emitted under `index`; `spawned` tells whether
    /// the chain goes on behind it.
    Emitted { index: usize, spawned: bool },
    /// The page's failure was reported; its chain stops there.
    Failed { index: usize, error: FetchError },
    /// No fetch of that page was in flight: nothing was done.
    NotInFlight,
}

/// The state of a crawl run.
pub struct RunView {
    /// The number of fetches that may be in flight at once.
    pub capacity: nat,
    /// The identities claimed, in the order of their claims.
    pub visited: Seq<Seq<char>>,
    /// The invocations that wait for a slot, the next to be admitted first.
    pub pending: Seq<InvocationView>,
    /// The invocations whose fetch is in flight; each holds a slot.
    pub fetching: Seq<InvocationView>,
    /// The results emitted, in the order of their arrival.
    pub collected: Seq<ChapterView>,
    /// For each emitted result, the identity of the page that it came from.
    pub origins: Seq<Seq<char>>,
    /// The failures reported, in the order of their arrival.
    pub failures: Seq<FailureView>,
    /// The number of chains that were started.
    pub chains: nat,
}

/// The identities of the pages of the invocations.
pub open spec fn urls_of(invocations: Seq<InvocationView>) -> Seq<Seq<char>> {
    invocations.map_values(|invocation: InvocationView| invocation.url)
}

impl RunView {
    /// What holds of a run at all times.
    pub open spec fn wf(self) -> bool {
        &&& 0 < self.capacity
        &&& self.fetching.len() <= self.capacity
        &&& self.visited.no_duplicates()
        &&& forall|i: int|
            0 <= i < self.pending.len() ==> {
                &&& (#[trigger] self.pending[i]).phase == Phase::Pending
                &&& self.pending[i].index <= self.collected.len()
            }
        &&& forall|i: int|
            0 <= i < self.fetching.len() ==> {
                &&& (#[trigger] self.fetching[i]).phase == Phase::Fetching
                &&& self.fetching[i].index <= self.collected.len()
                &&& self.visited.contains(self.fetching[i].url)
            }
        &&& urls_of(self.fetching).no_duplicates()
        &&& self.origins.len() == self.collected.len()
        &&& self.origins.no_duplicates()
        &&& forall|i: int|
            0 <= i < self.origins.len() ==> {
                &&& self.visited.contains(#[trigger] self.origins[i])
                &&& !urls_of(self.fetching).contains(self.origins[i])
            }
        &&& self.visited.len() == self.collected.len() + self.failures.len()
            + self.fetching.len()
        &&& self.chains >= 1
        &&& self.chains == 1 ==> self.single_file()
    }

    /// How a run of one chain goes: at most one invocation is live at a time,
    /// the results arrive in chain order without a gap, and the live
    /// invocation is the one for the position behind the last result.
    pub open spec fn single_file(self) -> bool {
        &&& self.pending.len() + self.fetching.len() <= 1
        &&& forall|k: int|
            0 <= k < self.collected.len() ==> (#[trigger] self.collected[k]).index == k
        &&& forall|i: int|
            0 <= i < self.pending.len() ==> (#[trigger] self.pending[i]).index
                == self.collected.len()
        &&& forall|i: int|
            0 <= i < self.fetching.len() ==> (#[trigger] self.fetching[i]).index
                == self.collected.len()
    }

    /// The run of one chain before anything happened: the invocation for the
    /// page at `start` waits under index zero.
    pub open spec fn initial(start: Seq<char>, capacity: nat) -> RunView {
        RunView {
            capacity,
            visited: Seq::empty(),
            pending: seq![pending(0, start)],
            fetching: Seq::empty(),
            collected: Seq::empty(),
            origins: Seq::empty(),
            failures: Seq::empty(),
            chains: 1,
        }
    }

    /// A bound on the number of admissions and completions that a run can
    /// still see, where `pages` is the number of pages that can be claimed
    /// at all: each page not yet claimed can be admitted and completed, each
    /// fetch in flight can be completed and followed by an invocation that
    /// is no more than a duplicate, and each waiting invocation can be one.
    pub open spec fn work_left(self, pages: nat) -> int {
        2 * (pages - self.visited.len()) + 2 * self.fetching.len() + self.pending.len()
    }

    /// The number of invocations that have not ended.
    pub open spec fn outstanding(self) -> nat {
        self.pending.len() + self.fetching.len()
    }

    /// No invocation is live, so none can start: the crawl is over.
    pub open spec fn quiescent(self) -> bool {
        self.outstanding() == 0
    }

    /// The run with one more chain, whose first page is at `start`.
    pub open spec fn with_chain(self, start: Seq<char>) -> RunView {
        RunView {
            pending: self.pending.push(pending(0, start)),
            chains: self.chains + 1,
            ..self
        }
    }

    /// The run after the attempt to admit the invocation that waits first,
    /// and what the embedding program has to do then.
    ///
    /// - Where nothing waits, nothing changes: the crawl is over if nothing
    ///   is in flight either, else a completion has to be awaited.
    /// - Where every slot is taken, nothing changes: a completion has to be
    ///   awaited.
    /// - Else the first waiting invocation takes a slot and claims its page.
    ///   As the page's first claimant it goes on to fetch; otherwise it
    ///   gives the slot back and ends.
    pub open spec fn admitted(self) -> (RunView, StepView) {
        if self.pending.len() == 0 {
            (
                self,
                if self.fetching.len() == 0 {
                    StepView::Finished
                } else {
                    StepView::Wait
                },
            )
        } else if self.fetching.len() >= self.capacity {
            (self, StepView::Wait)
        } else {
            let head = self.pending[0];
            if self.visited.contains(head.url) {
                (
                    RunView { pending: self.pending.drop_first(), ..self },
                    StepView::Duplicate { index: head.index, url: head.url },
                )
            } else {
                (
                    RunView {
                        pending: self.pending.drop_first(),
                        visited: self.visited.push(head.url),
                        fetching: self.fetching.push(
                            InvocationView { phase: Phase::Fetching, ..head },
                        ),
                        ..self
                    },
                    StepView::Fetch { index: head.index, url: head.url },
                )
            }
        }
    }

    /// The place among the fetches in flight of the one for the page at
    /// `url`, if there is one.
    pub open spec fn in_flight_for(self, url: Seq<char>) -> Option<int> {
        if urls_of(self.fetching).contains(url) {
            Some(urls_of(self.fetching).index_of(url))
        } else {
            None
        }
    }

    /// The run after the fetch in flight at `place` came back with
    /// `outcome`, and what became of it.
    ///
    /// The invocation gives its slot back and ends.  A page that arrived is
    /// emitted under the invocation's index and, if it names a successor, the
    /// successor's invocation starts to wait under the next index.  A page
    /// that failed is reported; nothing is emitted and nothing starts.
    pub open spec fn completed(self, place: int, outcome: Result<PageView, FetchError>) -> (
        RunView,
        Completion,
    ) {
        let invocation = self.fetching[place];
        match outcome {
            Ok(page) => (
                RunView {
                    fetching: self.fetching.remove(place),
                    collected: self.collected.push(
                        ChapterView { index: invocation.index, content: page.content },
                    ),
                    origins: self.origins.push(invocation.url),
                    pending: match page.next {
                        Some(next) => self.pending.push(pending(invocation.index + 1, next)),
                        None => self.pending,
                    },
                    ..self
                },
                Completion::Emitted {
                    index: invocation.index as usize,
                    spawned: page.next is Some,
                },
            ),
            Err(error) => (
                RunView {
                    fetching: self.fetching.remove(place),
                    failures: self.failures.push(FailureView { url: invocation.url, error }),
                    ..self
                },
                Completion::Failed { index: invocation.index as usize, error },
            ),
        }
    }

    /// The run after the fetch of the page at `url` came back with `outcome`.
    /// Where no fetch of that page is in flight, nothing changes.
    pub open spec fn reported(self, url: Seq<char>, outcome: Result<PageView, FetchError>) -> (
        RunView,
        Completion,
    ) {
        match self.in_flight_for(url) {
            Some(place) => self.completed(place, outcome),
            None => (self, Completion::NotInFlight),
        }
    }
}

/// A run of one chain holds together before anything happened.
pub proof fn lemma_initial_holds(start: Seq<char>, capacity: nat)
    requires
        capacity > 0,
    ensures
        RunView::initial(start, capacity).wf(),
{
    let run = RunView::initial(start, capacity);
    assert(urls_of(run.fetching) =~= Seq::empty());
}

/// A run holds together when a chain is added to it.
pub proof fn lemma_with_chain_holds(run: RunView, start: Seq<char>)
    requires
        run.wf(),
    ensures
        run.with_chain(start).wf(),
{
}

/// A run holds together when an invocation is admitted to it.
pub proof fn lemma_admitted_holds(run: RunView)
    requires
        run.wf(),
    ensures
        run.admitted().0.wf(),
{
    let after = run.admitted().0;
    if run.admitted().1 is Fetch {
        let url = run.pending[0].url;
        let n = run.fetching.len() as int;
        assert(urls_of(after.fetching) =~= urls_of(run.fetching).push(url));
        assert forall|i: int| 0 <= i < after.origins.len() implies {
            &&& after.visited.contains(#[trigger] after.origins[i])
            &&& !urls_of(after.fetching).contains(after.origins[i])
        } by {
            let at = choose|k: int| 0 <= k < run.visited.len() && run.visited[k] == run.origins[i];
            assert(after.visited[at] == after.origins[i]);
        }
        assert forall|i: int| 0 <= i < after.fetching.len() implies {
            &&& (#[trigger] after.fetching[i]).phase == Phase::Fetching
            &&& after.fetching[i].index <= after.collected.len()
            &&& after.visited.contains(after.fetching[i].url)
        } by {
            if i < n {
                let at = choose|k: int|
                    0 <= k < run.visited.len() && run.visited[k] == run.fetching[i].url;
                assert(after.visited[at] == after.fetching[i].url);
            } else {
                assert(after.visited[run.visited.len() as int] == url);
            }
        }
        assert forall|i: int, j: int|
            0 <= i < urls_of(after.fetching).len() && 0 <= j < urls_of(after.fetching).len() && i
                != j implies urls_of(after.fetching)[i] != urls_of(after.fetching)[j] by {
            if i < n && j < n {
                assert(urls_of(run.fetching)[i] != urls_of(run.fetching)[j]);
            } else if i < n {
                assert(run.visited.contains(run.fetching[i].url));
            } else {
                assert(run.visited.contains(run.fetching[j].url));
            }
        }
    }
}

/// A run holds together when a fetch in flight is completed.
pub proof fn lemma_completed_holds(run: RunView, place: int, outcome: Result<PageView, FetchError>)
    requires
        run.wf(),
        0 <= place < run.fetching.len(),
    ensures
        run.completed(place, outcome).0.wf(),
{
    let after = run.completed(place, outcome).0;
    let gone = urls_of(run.fetching);
    let url = run.fetching[place].url;
    assert(gone[place] == url);
    assert(urls_of(after.fetching) =~= gone.remove(place));
    assert forall|i: int| 0 <= i < after.fetching.len() implies {
        &&& (#[trigger] after.fetching[i]).phase == Phase::Fetching
        &&& after.fetching[i].index <= after.collected.len()
        &&& after.visited.contains(after.fetching[i].url)
    } by {
        let j = if i < place { i } else { i + 1 };
        assert(after.fetching[i] == run.fetching[j]);
    }
    assert forall|i: int, j: int|
        0 <= i < urls_of(after.fetching).len() && 0 <= j < urls_of(after.fetching).len() && i
            != j implies urls_of(after.fetching)[i] != urls_of(after.fetching)[j] by {
        let a = if i < place { i } else { i + 1 };
        let b = if j < place { j } else { j + 1 };
        assert(urls_of(after.fetching)[i] == gone[a]);
        assert(urls_of(after.fetching)[j] == gone[b]);
    }
    assert forall|i: int| 0 <= i < after.origins.len() implies {
        &&& after.visited.contains(#[trigger] after.origins[i])
        &&& !urls_of(after.fetching).contains(after.origins[i])
    } by {
        if urls_of(after.fetching).contains(after.origins[i]) {
            let k = choose|k: int|
                0 <= k < urls_of(after.fetching).len() && urls_of(after.fetching)[k]
                    == after.origins[i];
            let a = if k < place { k } else { k + 1 };
            assert(urls_of(after.fetching)[k] == gone[a]);
            if i < run.origins.len() {
                assert(gone.contains(run.origins[i]));
            }
        }
        if i == run.origins.len() {
            assert(run.visited.contains(run.fetching[place].url));
        }
    }
    assert forall|i: int, j: int|
        0 <= i < after.origins.len() && 0 <= j < after.origins.len() && i
            != j implies after.origins[i] != after.origins[j] by {
        if i == run.origins.len() || j == run.origins.len() {
            assert(gone.contains(url));
        }
    }
    assert forall|i: int| 0 <= i < after.pending.len() implies {
        &&& (#[trigger] after.pending[i]).phase == Phase::Pending
        &&& after.pending[i].index <= after.collected.len()
    } by {
        if i < run.pending.len() {
            assert(after.pending[i] == run.pending[i]);
        }
    }
}

/// A run holds together when the outcome of a fetch is reported to it.
pub proof fn lemma_reported_holds(run: RunView, url: Seq<char>, outcome: Result<PageView, FetchError>)
    requires
        run.wf(),
    ensures
        run.reported(url, outcome).0.wf(),
{
    match run.in_flight_for(url) {
        Some(place) => {
            lemma_completed_holds(run, place, outcome);
        },
        None => {},
    }
}

/// What can happen to a run.
pub enum Move {
    /// The invocation that waits first is admitted, if a slot is free.
    Admit,
    /// The fetch of the page at `url` comes back with `outcome`.
    Report { url: Seq<char>, outcome: Result<PageView, FetchError> },
    /// A chain is added, whose first page is at `start`.
    AddChain { start: Seq<char> },
}

impl RunView {
    /// The run after one move.
    pub open spec fn after(self, next: Move) -> RunView {
        match next {
            Move::Admit => self.admitted().0,
            Move::Report { url, outcome } => self.reported(url, outcome).0,
            Move::AddChain { start } => self.with_chain(start),
        }
    }

    /// The run after a sequence of moves.
    pub open spec fn after_all(self, moves: Seq<Move>) -> RunView
        decreases moves.len(),
    {
        if moves.len() == 0 {
            self
        } else {
            self.after_all(moves.drop_last()).after(moves.last())
        }
    }
}

/// A run holds together whatever happens to it, in whatever order.
pub proof fn lemma_every_run_holds(start: Seq<char>, capacity: nat, moves: Seq<Move>)
    requires
        capacity > 0,
    ensures
        RunView::initial(start, capacity).after_all(moves).wf(),
    decreases moves.len(),
{
    if moves.len() == 0 {
        lemma_initial_holds(start, capacity);
    } else {
        lemma_every_run_holds(start, capacity, moves.drop_last());
        let before = RunView::initial(start, capacity).after_all(moves.drop_last());
        match moves.last() {
            Move::Admit => lemma_admitted_holds(before),
            Move::Report { url, outcome } => lemma_reported_holds(before, url, outcome),
            Move::AddChain { start } => lemma_with_chain_holds(before, start),
        }
    }
}

/// No page is emitted twice: in every run, whatever the pages link to and in
/// whatever order the fetches come back, the emitted results come from pages
/// that are all different.
pub proof fn lemma_each_page_emitted_once(start: Seq<char>, capacity: nat, moves: Seq<Move>)
    requires
        capacity > 0,
    ensures
        ({
            let run = RunView::initial(start, capacity).after_all(moves);
            &&& run.origins.len() == run.collected.len()
            &&& forall|i: int, j: int|
                0 <= i < j < run.collected.len() ==> run.origins[i] != run.origins[j]
        }),
{
    lemma_every_run_holds(start, capacity, moves);
}

/// The fetches in flight never outnumber the slots: in every run, at every
/// moment, at most `capacity` pages are being fetched, and no page twice.
pub proof fn lemma_in_flight_within_capacity(start: Seq<char>, capacity: nat, moves: Seq<Move>)
    requires
        capacity > 0,
    ensures
        ({
            let run = RunView::initial(start, capacity).after_all(moves);
            &&& run.capacity == capacity
            &&& run.fetching.len() <= capacity
            &&& forall|i: int, j: int|
                0 <= i < j < run.fetching.len() ==> run.fetching[i].url != run.fetching[j].url
        }),
    decreases moves.len(),
{
    lemma_every_run_holds(start, capacity, moves);
    let run = RunView::initial(start, capacity).after_all(moves);
    assert forall|i: int, j: int| 0 <= i < j < run.fetching.len() implies run.fetching[i].url
        != run.fetching[j].url by {
        assert(urls_of(run.fetching)[i] == run.fetching[i].url);
        assert(urls_of(run.fetching)[j] == run.fetching[j].url);
    }
    if moves.len() > 0 {
        lemma_in_flight_within_capacity(start, capacity, moves.drop_last());
    }
}

/// A page is claimed at most once, and every page that was claimed is
/// accounted for: it was emitted, it failed, or its fetch is in flight.
pub proof fn lemma_claims_accounted_for(start: Seq<char>, capacity: nat, moves: Seq<Move>)
    requires
        capacity > 0,
    ensures
        ({
            let run = RunView::initial(start, capacity).after_all(moves);
            &&& run.visited.no_duplicates()
            &&& run.visited.len() == run.collected.len() + run.failures.len()
                + run.fetching.len()
        }),
{
    lemma_every_run_holds(start, capacity, moves);
}

/// Whether no chain is added among the moves.
pub open spec fn one_chain(moves: Seq<Move>) -> bool {
    forall|i: int| 0 <= i < moves.len() ==> !(#[trigger] moves[i] is AddChain)
}

/// In a run of one chain the indices are assigned without a gap, from zero
/// on: the result that arrives `k`-th has index `k`, and at most one
/// invocation is live at a time.  The results are then in chain order as they
/// arrive and no two share an index.
pub proof fn lemma_single_chain_is_gapless(start: Seq<char>, capacity: nat, moves: Seq<Move>)
    requires
        capacity > 0,
        one_chain(moves),
    ensures
        ({
            let run = RunView::initial(start, capacity).after_all(moves);
            &&& run.chains == 1
            &&& run.outstanding() <= 1
            &&& forall|k: int|
                0 <= k < run.collected.len() ==> (#[trigger] run.collected[k]).index == k
            &&& distinct_indices(run.collected)
            &&& in_chain_order(run.collected) == run.collected
        }),
    decreases moves.len(),
{
    lemma_every_run_holds(start, capacity, moves);
    if moves.len() > 0 {
        assert(one_chain(moves.drop_last())) by {
            assert forall|i: int| 0 <= i < moves.drop_last().len() implies !(
            #[trigger] moves.drop_last()[i] is AddChain) by {
                assert(moves.drop_last()[i] == moves[i]);
            }
        }
        lemma_single_chain_is_gapless(start, capacity, moves.drop_last());
        assert(!(moves[moves.len() - 1] is AddChain));
    }
    let run = RunView::initial(start, capacity).after_all(moves);
    assert(run.chains == 1);
    assert(ascending(run.collected));
    lemma_chain_order_keeps_ascending(run.collected);
}

/// A run is told to wait only while a fetch is in flight, whose completion
/// will free a slot, and waiting changes nothing.
pub proof fn lemma_wait_means_in_flight(run: RunView)
    requires
        run.wf(),
        run.admitted().1 is Wait,
    ensures
        run.fetching.len() > 0,
        run.admitted().0 == run,
{
}

/// A run is told that the crawl is over exactly when it is quiescent, and
/// then nothing changes any more.
pub proof fn lemma_finished_means_quiescent(run: RunView)
    requires
        run.wf(),
    ensures
        run.admitted().1 is Finished <==> run.quiescent(),
        run.quiescent() ==> run.admitted().0 == run,
{
}

/// Once a fetch has been completed, an invocation that waits is admitted at
/// the next step: it does not have to wait any longer.
pub proof fn lemma_completion_frees_a_slot(
    run: RunView,
    place: int,
    outcome: Result<PageView, FetchError>,
)
    requires
        run.wf(),
        0 <= place < run.fetching.len(),
    ensures
        ({
            let after = run.completed(place, outcome).0;
            after.pending.len() > 0 ==> after.admitted().1 is Fetch || after.admitted().1
                is Duplicate
        }),
{
}

/// A page is fetched only as its first claimant: the step that starts a
/// fetch claims a page that had not been claimed, and no other step claims
/// anything.
pub proof fn lemma_fetch_claims_a_new_page(run: RunView)
    requires
        run.wf(),
    ensures
        match run.admitted().1 {
            StepView::Fetch { url, .. } => !run.visited.contains(url) && run.admitted().0.visited
                == run.visited.push(url),
            StepView::Duplicate { url, .. } => run.visited.contains(url)
                && run.admitted().0.visited == run.visited,
            _ => run.admitted().0.visited == run.visited,
        },
{
}

/// Every step that admits an invocation brings the run nearer to its end.
pub proof fn lemma_admission_makes_progress(run: RunView, pages: nat)
    requires
        run.wf(),
        run.admitted().1 is Fetch || run.admitted().1 is Duplicate,
    ensures
        run.admitted().0.work_left(pages) < run.work_left(pages),
{
}

/// Every completed fetch brings the run nearer to its end.
pub proof fn lemma_completion_makes_progress(
    run: RunView,
    place: int,
    outcome: Result<PageView, FetchError>,
    pages: nat,
)
    requires
        run.wf(),
        0 <= place < run.fetching.len(),
    ensures
        run.completed(place, outcome).0.work_left(pages) < run.work_left(pages),
{
}

/// Where all pages that a run has come upon are among finitely many, the
/// work that is left is never negative: it is at least what the invocations
/// that are live will need.
pub proof fn lemma_work_left_is_bounded(run: RunView, web: Set<Seq<char>>)
    requires
        run.wf(),
        web.finite(),
        forall|i: int| 0 <= i < run.visited.len() ==> web.contains(#[trigger] run.visited[i]),
    ensures
        run.work_left(web.len()) >= run.outstanding(),
        run.visited.len() <= web.len(),
{
    run.visited.unique_seq_to_set();
    assert(run.visited.to_set().subset_of(web));
    vstd::set_lib::lemma_len_subset(run.visited.to_set(), web);
}

/// A failed fetch stops its own chain and touches nothing else: what was
/// emitted stays, what waits goes on waiting, and every other fetch stays in
/// flight.
pub proof fn lemma_failure_stops_one_chain_only(run: RunView, place: int, error: FetchError)
    requires
        run.wf(),
        0 <= place < run.fetching.len(),
    ensures
        ({
            let after = run.completed(place, Err(error)).0;
            &&& after.collected == run.collected
            &&& after.origins == run.origins
            &&& after.pending == run.pending
            &&& after.visited == run.visited
            &&& after.fetching == run.fetching.remove(place)
            &&& after.failures == run.failures.push(
                FailureView { url: run.fetching[place].url, error },
            )
        }),
{
}

/// Whether all pages that the run has come upon are among those of `web`.
pub open spec fn within(run: RunView, web: Set<Seq<char>>) -> bool {
    &&& forall|i: int| 0 <= i < run.visited.len() ==> web.contains(#[trigger] run.visited[i])
    &&& forall|i: int| 0 <= i < run.pending.len() ==> web.contains((#[trigger] run.pending[i]).url)
}

/// Whether the move leads to no page but those of `web`: the successor that a
/// reported page names, and the start of an added chain, are among them.
pub open spec fn leads_within(next: Move, web: Set<Seq<char>>) -> bool {
    match next {
        Move::Admit => true,
        Move::Report { url, outcome } => match outcome {
            Ok(page) => page.next is Some ==> web.contains(page.next->Some_0),
            Err(_) => true,
        },
        Move::AddChain { start } => web.contains(start),
    }
}

/// Whether all the moves lead to no page but those of `web`.
pub open spec fn all_lead_within(moves: Seq<Move>, web: Set<Seq<char>>) -> bool {
    forall|i: int| 0 <= i < moves.len() ==> leads_within(#[trigger] moves[i], web)
}

/// The number of moves among `moves` that changed the run.  A move changes
/// nothing if it finds the run waiting or at its end, or reports a page that
/// is not in flight.
pub open spec fn steps_taken(run: RunView, moves: Seq<Move>) -> nat
    decreases moves.len(),
{
    if moves.len() == 0 {
        0
    } else {
        let before = run.after_all(moves.drop_last());
        let earlier = steps_taken(run, moves.drop_last());
        if before.after(moves.last()) == before {
            earlier
        } else {
            earlier + 1
        }
    }
}

proof fn lemma_move_stays_within(run: RunView, next: Move, web: Set<Seq<char>>)
    requires
        run.wf(),
        within(run, web),
        leads_within(next, web),
    ensures
        within(run.after(next), web),
{
    let after = run.after(next);
    match next {
        Move::Admit => {
            assert forall|i: int| 0 <= i < after.pending.len() implies web.contains(
                (#[trigger] after.pending[i]).url,
            ) by {
                if after.pending != run.pending {
                    assert(after.pending[i] == run.pending[i + 1]);
                }
            }
            assert forall|i: int| 0 <= i < after.visited.len() implies web.contains(
                #[trigger] after.visited[i],
            ) by {
                if i < run.visited.len() {
                    assert(after.visited[i] == run.visited[i]);
                } else {
                    assert(after.visited[i] == run.pending[0].url);
                }
            }
        },
        Move::Report { url, outcome } => {
            assert forall|i: int| 0 <= i < after.pending.len() implies web.contains(
                (#[trigger] after.pending[i]).url,
            ) by {
                if i < run.pending.len() {
                    assert(after.pending[i] == run.pending[i]);
                }
            }
        },
        Move::AddChain { start } => {
            assert forall|i: int| 0 <= i < after.pending.len() implies web.contains(
                (#[trigger] after.pending[i]).url,
            ) by {
                if i < run.pending.len() {
                    assert(after.pending[i] == run.pending[i]);
                }
            }
        },
    }
}

/// A crawl ends: where all pages that it can come upon are among finitely
/// many, a run is changed by no more than two moves for each of these pages
/// and two for each chain, less one, whatever the pages link to and however
/// the moves are ordered.  A chain that leads back into itself is followed
/// once around and no further.
pub proof fn lemma_crawl_is_bounded(
    start: Seq<char>,
    capacity: nat,
    web: Set<Seq<char>>,
    moves: Seq<Move>,
)
    requires
        capacity > 0,
        web.finite(),
        web.contains(start),
        all_lead_within(moves, web),
    ensures
        ({
            let first = RunView::initial(start, capacity);
            let last = first.after_all(moves);
            &&& last.wf()
            &&& within(last, web)
            &&& steps_taken(first, moves) + last.work_left(web.len()) <= 2 * web.len() + 2
                * last.chains - 1
            &&& steps_taken(first, moves) <= 2 * web.len() + 2 * last.chains - 1
        }),
    decreases moves.len(),
{
    let first = RunView::initial(start, capacity);
    lemma_every_run_holds(start, capacity, moves);
    if moves.len() == 0 {
        assert(first.pending[0].url == start);
    } else {
        let earlier = moves.drop_last();
        let next = moves.last();
        assert(all_lead_within(earlier, web)) by {
            assert forall|i: int| 0 <= i < earlier.len() implies leads_within(
                #[trigger] earlier[i],
                web,
            ) by {
                assert(earlier[i] == moves[i]);
            }
        }
        assert(leads_within(moves[moves.len() - 1], web));
        lemma_crawl_is_bounded(start, capacity, web, earlier);
        let before = first.after_all(earlier);
        lemma_move_stays_within(before, next, web);
        match next {
            Move::Admit => {
                if before.admitted().1 is Fetch || before.admitted().1 is Duplicate {
                    lemma_admission_makes_progress(before, web.len());
                } else {
                    lemma_finished_means_quiescent(before);
                    if before.admitted().1 is Wait {
                        lemma_wait_means_in_flight(before);
                    }
                }
            },
            Move::Report { url, outcome } => {
                match before.in_flight_for(url) {
                    Some(place) => {
                        lemma_completion_makes_progress(before, place, outcome, web.len());
                    },
                    None => {},
                }
            },
            Move::AddChain { start } => {},
        }
    }
    lemma_work_left_is_bounded(first.after_all(moves), web);
}

} // verus!
