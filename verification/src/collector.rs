//! The result collector: every result emitted during a run, in the order of
//! its arrival.

use vstd::prelude::*;

verus! {

/// The content fragment of one successfully fetched page, with the position
/// of that page in its chain.
#[derive(Debug)]
pub struct ChapterResult {
    pub index: usize,
    pub content: String,
}

/// The mathematical value of a [`ChapterResult`].
pub struct ChapterView {
    pub index: nat,
    pub content: Seq<char>,
}

impl View for ChapterResult {
    type V = ChapterView;

    open spec fn view(&self) -> ChapterView {
        ChapterView { index: self.index as nat, content: self.content@ }
    }
}

impl Clone for ChapterResult {
    fn clone(&self) -> (copy: Self)
        ensures
            copy@ == self@,
    {
        ChapterResult { index: self.index, content: self.content.clone() }
    }
}

/// The mathematical values of a sequence of results.
pub open spec fn chapter_views(results: Seq<ChapterResult>) -> Seq<ChapterView> {
    results.map_values(|result: ChapterResult| result@)
}

/// The results received so far.
#[derive(Debug)]
pub struct Collector {
    received: Vec<ChapterResult>,
}

impl View for Collector {
    type V = Seq<ChapterView>;

    closed spec fn view(&self) -> Seq<ChapterView> {
        chapter_views(self.received@)
    }
}

impl Collector {
    /// A collector that has received nothing.
    pub fn new() -> (collector: Collector)
        ensures
            collector@ == Seq::<ChapterView>::empty(),
    {
        let collector = Collector { received: Vec::new() };
        assert(collector@ =~= Seq::<ChapterView>::empty());
        collector
    }

    /// Receives one result: it is appended behind all earlier ones.
    pub fn receive(&mut self, result: ChapterResult)
        ensures
            final(self)@ == old(self)@.push(result@),
    {
        self.received.push(result);
        assert(self@ =~= old(self)@.push(result@));
    }

    /// The number of results received.
    pub fn len(&self) -> (n: usize)
        ensures
            n == self@.len(),
    {
        self.received.len()
    }

    /// The results received, in the order of their arrival.
    pub fn results(&self) -> (results: &Vec<ChapterResult>)
        ensures
            chapter_views(results@) == self@,
    {
        &self.received
    }

    /// Ends the collection and hands over what was received, in the order of
    /// its arrival.
    pub fn into_results(self) -> (results: Vec<ChapterResult>)
        ensures
            chapter_views(results@) == self@,
    {
        self.received
    }
}

} // verus!
