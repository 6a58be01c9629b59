//! The crawl driver: the life of one invocation, from its start to its end,
//! as a state machine.
//!
//! An invocation stands for one page of a chain.  It waits for a slot of the
//! limiter, claims its page under the visited guard, has the page fetched and
//! ends by emitting the page's fragment or reporting its failure.  Each event
//! moves it one phase on and names what has to be done on its behalf.

use vstd::prelude::*;
use crate::collector::ChapterResult;
use crate::collector::ChapterView;
use crate::identity::PageIdentity;
use crate::page::FetchError;
use crate::page::Page;
use crate::page::PageView;

verus! {

/// Where an invocation stands.
#[derive(Clone, Copy, Debug, PartialEq, Eq, Structural)]
pub enum Phase {
    /// It waits for a slot of the limiter.
    Pending,
    /// It holds a slot and has yet to claim its page.
    TokenAcquired,
    /// It has claimed its page, which is being fetched.
    Fetching,
    /// It ended because its page had been claimed before.
    Rejected,
    /// It ended after its page's fragment was emitted.
    Succeeded,
    /// It ended after its page's failure was reported.
    Failed,
}

impl Phase {
    /// An invocation in a terminal phase moves no further.
    pub open spec fn terminal(self) -> bool {
        self is Rejected || self is Succeeded || self is Failed
    }

    /// Whether the phase is terminal.
    pub fn is_terminal(&self) -> (t: bool)
        ensures
            t == self.terminal(),
    {
        match self {
            Phase::Rejected | Phase::Succeeded | Phase::Failed => true,
            _ => false,
        }
    }
}

/// One invocation of the driver: the page at `url`, which is the `index`-th
/// of its chain.
#[derive(Debug)]
pub struct Invocation {
    pub index: usize,
    pub url: PageIdentity,
    pub phase: Phase,
}

/// The mathematical value of an [`Invocation`].
pub struct InvocationView {
    pub index: nat,
    pub url: Seq<char>,
    pub phase: Phase,
}

impl View for Invocation {
    type V = InvocationView;

    open spec fn view(&self) -> InvocationView {
        InvocationView { index: self.index as nat, url: self.url@, phase: self.phase }
    }
}

/// What can happen to an invocation.
#[derive(Debug)]
pub enum Event {
    /// The limiter granted a slot.
    TokenGranted,
    /// The visited guard answered the claim; `first` tells whether this
    /// invocation is the first claimant of its page.
    ClaimChecked { first: bool },
    /// The fetch of the page came back.
    Fetched { outcome: Result<Page, FetchError> },
}

/// The mathematical value of an [`Event`].
pub enum EventView {
    TokenGranted,
    ClaimChecked { first: bool },
    Fetched { outcome: Result<PageView, FetchError> },
}

impl View for Event {
    type V = EventView;

    open spec fn view(&self) -> EventView {
        match self {
            Event::TokenGranted => EventView::TokenGranted,
            Event::ClaimChecked { first } => EventView::ClaimChecked { first: *first },
            Event::Fetched { outcome } => EventView::Fetched {
                outcome: match outcome {
                    Ok(page) => Ok(page@),
                    Err(error) => Err(*error),
                },
            },
        }
    }
}

/// What has to be done on behalf of an invocation after a step.
#[derive(Debug)]
pub struct Effects {
    /// The invocation's slot goes back to the limiter.
    pub release_token: bool,
    /// This result goes to the collector.
    pub emit: Option<ChapterResult>,
    /// This invocation is started.
    pub spawn: Option<Invocation>,
    /// This failure is reported.
    pub report: Option<FetchError>,
}

/// The mathematical value of [`Effects`].
pub struct EffectsView {
    pub release_token: bool,
    pub emit: Option<ChapterView>,
    pub spawn: Option<InvocationView>,
    pub report: Option<FetchError>,
}

impl View for Effects {
    type V = EffectsView;

    open spec fn view(&self) -> EffectsView {
        EffectsView {
            release_token: self.release_token,
            emit: match self.emit {
                Some(result) => Some(result@),
                None => None,
            },
            spawn: match self.spawn {
                Some(invocation) => Some(invocation@),
                None => None,
            },
            report: self.report,
        }
    }
}

/// Nothing has to be done.
pub open spec fn no_effects() -> EffectsView {
    EffectsView { release_token: false, emit: None, spawn: None, report: None }
}

/// The invocation that starts for the page at `url`, the `index`-th of its
/// chain.
pub open spec fn pending(index: nat, url: Seq<char>) -> InvocationView {
    InvocationView { index, url, phase: Phase::Pending }
}

/// The invocation that continues the chain behind `invocation`, if the page
/// names a successor.
pub open spec fn continuation(invocation: InvocationView, page: PageView) -> Option<
    InvocationView,
> {
    match page.next {
        Some(next) => Some(pending(invocation.index + 1, next)),
        None => None,
    }
}

/// The step that `event` makes `invocation` take, and what follows from it.
///
/// - A pending invocation that is granted a slot holds it.
/// - An invocation that holds a slot and is the first claimant of its page
///   goes on to fetch it; one that is not gives its slot back and ends.
/// - A fetching invocation whose page arrived emits the page's fragment
///   under its own index, starts the invocation of the successor under the
///   next index if the page names one, gives its slot back and ends.
/// - A fetching invocation whose page failed reports the failure, gives its
///   slot back and ends: nothing is emitted and the chain stops there.
/// - An event that does not fit the phase changes nothing.
pub open spec fn step_of(invocation: InvocationView, event: EventView) -> (
    InvocationView,
    EffectsView,
) {
    match (invocation.phase, event) {
        (Phase::Pending, EventView::TokenGranted) => (
            InvocationView { phase: Phase::TokenAcquired, ..invocation },
            no_effects(),
        ),
        (Phase::TokenAcquired, EventView::ClaimChecked { first }) => if first {
            (InvocationView { phase: Phase::Fetching, ..invocation }, no_effects())
        } else {
            (
                InvocationView { phase: Phase::Rejected, ..invocation },
                EffectsView { release_token: true, ..no_effects() },
            )
        },
        (Phase::Fetching, EventView::Fetched { outcome }) => match outcome {
            Ok(page) => (
                InvocationView { phase: Phase::Succeeded, ..invocation },
                EffectsView {
                    release_token: true,
                    emit: Some(ChapterView { index: invocation.index, content: page.content }),
                    spawn: continuation(invocation, page),
                    report: None,
                },
            ),
            Err(error) => (
                InvocationView { phase: Phase::Failed, ..invocation },
                EffectsView { release_token: true, emit: None, spawn: None, report: Some(error) },
            ),
        },
        _ => (invocation, no_effects()),
    }
}

impl Invocation {
    /// The invocation that starts for the page at `url`, the `index`-th of
    /// its chain.
    pub fn new(index: usize, url: PageIdentity) -> (invocation: Invocation)
        ensures
            invocation@ == pending(index as nat, url@),
    {
        Invocation { index, url, phase: Phase::Pending }
    }

    /// Takes the step that `event` asks for.
    pub fn step(self, event: Event) -> (next: (Invocation, Effects))
        requires
            self.phase == Phase::Fetching ==> self.index < usize::MAX,
        ensures
            (next.0@, next.1@) == step_of(self@, event@),
    {
        let Invocation { index, url, phase } = self;
        let idle = Effects { release_token: false, emit: None, spawn: None, report: None };
        match (phase, event) {
            (Phase::Pending, Event::TokenGranted) => (
                Invocation { index, url, phase: Phase::TokenAcquired },
                idle,
            ),
            (Phase::TokenAcquired, Event::ClaimChecked { first }) => {
                if first {
                    (Invocation { index, url, phase: Phase::Fetching }, idle)
                } else {
                    (
                        Invocation { index, url, phase: Phase::Rejected },
                        Effects { release_token: true, emit: None, spawn: None, report: None },
                    )
                }
            },
            (Phase::Fetching, Event::Fetched { outcome }) => match outcome {
                Ok(page) => {
                    let Page { content, next } = page;
                    let spawn = match next {
                        Some(successor) => Some(Invocation::new(index + 1, successor)),
                        None => None,
                    };
                    (
                        Invocation { index, url, phase: Phase::Succeeded },
                        Effects {
                            release_token: true,
                            emit: Some(ChapterResult { index, content }),
                            spawn,
                            report: None,
                        },
                    )
                },
                Err(error) => (
                    Invocation { index, url, phase: Phase::Failed },
                    Effects { release_token: true, emit: None, spawn: None, report: Some(error) },
                ),
            },
            (phase, _) => (Invocation { index, url, phase }, idle),
        }
    }
}

} // verus!
