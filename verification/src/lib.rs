//! Orchestration core of a chapter-chain crawler.
//!
//! A chapter chain is a linear sequence of pages in which every page names at
//! most one successor through a "next page" link.  The crate holds the
//! decisions of a crawl over such a chain: which page may be fetched next,
//! how many fetches may be in flight at once, which pages have been claimed
//! already, and how the collected fragments are put back into chain order and
//! combined into one document.  Network transport is left to the embedding
//! program, which reports each finished fetch back to the [`run::CrawlRun`].
//!
//! - [`identity`]: page identities, read and resolved as URLs.
//! - [`page`]: what a fetched page yields, and why it may yield nothing.
//! - [`limiter`]: the pool of fetch slots.
//! - [`visited`]: the guard under which each page is claimed once.
//! - [`collector`]: the results of a run in the order of their arrival.
//! - [`order`]: the order in which chapters stand in the document.
//! - [`assembler`]: the document made of the collected results.
//! - [`driver`]: the life of one invocation as a state machine.
//! - [`state`]: the state of a run, its moves and what holds of every run.
//! - [`run`]: the run itself, stepped by the embedding program.

pub mod identity;
pub mod page;
pub mod limiter;
pub mod visited;
pub mod collector;
pub mod order;
pub mod assembler;
pub mod driver;
pub mod state;
pub mod run;
