//! The assembler: puts the collected fragments into chain order and combines
//! them into one document.

use vstd::prelude::*;
use vstd::string::*;
use crate::collector::ChapterResult;
use crate::collector::ChapterView;
use crate::collector::chapter_views;
use crate::order::ascending;
use crate::order::distinct_indices;
use crate::order::in_chain_order;
use crate::order::lemma_chain_order_ascends;
use crate::order::lemma_chain_order_ignores_arrival;
use crate::order::lemma_chain_order_len;
use crate::order::lemma_chain_order_rearranges;
use crate::order::lemma_insert_at;

verus! {

/// What stands between two neighbouring fragments of the document.
pub const SEPARATOR: &'static str = "<hr />\n";

/// What stands before the first fragment of the document.
pub const OPENING: &'static str =
    "\n        <!DOCTYPE html><html lang=\"en\"><head><meta charset=\"UTF-8\"><title>Scraped Documentation</title>\n        <style>body { font-family: sans-serif; line-height: 1.6; max-width: 800px; margin: 2rem auto; padding: 0 1rem; } h1, h2, h3 { line-height: 1.2; } hr { margin: 3rem 0; }</style>\n        </head><body>";

/// What stands behind the last fragment of the document.
pub const CLOSING: &'static str = "</body></html>\n        ";

/// The content fragments of the chapters.
pub open spec fn fragments(chapters: Seq<ChapterView>) -> Seq<Seq<char>> {
    chapters.map_values(|chapter: ChapterView| chapter.content)
}

/// The parts in their order, with `separator` between each two neighbours.
pub open spec fn joined(parts: Seq<Seq<char>>, separator: Seq<char>) -> Seq<char>
    decreases parts.len(),
{
    if parts.len() == 0 {
        Seq::empty()
    } else if parts.len() == 1 {
        parts[0]
    } else {
        joined(parts.drop_last(), separator) + separator + parts.last()
    }
}

/// The body of the document: the fragments in chain order, separated.
pub open spec fn body_of(chapters: Seq<ChapterView>) -> Seq<char> {
    joined(fragments(in_chain_order(chapters)), SEPARATOR@)
}

/// The document that the chapters make.
pub open spec fn document_of(chapters: Seq<ChapterView>) -> Seq<char> {
    OPENING@ + body_of(chapters) + CLOSING@
}

/// The order in which results arrive does not show in the document: two
/// arrivals of the same chapters, no two of which share an index, make the
/// same document.
pub proof fn lemma_arrival_order_is_immaterial(first: Seq<ChapterView>, second: Seq<ChapterView>)
    requires
        distinct_indices(first),
        first.to_multiset() == second.to_multiset(),
    ensures
        document_of(first) == document_of(second),
{
    lemma_chain_order_ignores_arrival(first, second);
}

/// The document holds the fragments by ascending index, each fragment that
/// arrived once, and nothing else.
pub proof fn lemma_document_is_in_chain_order(chapters: Seq<ChapterView>)
    ensures
        document_of(chapters) == OPENING@ + joined(
            fragments(in_chain_order(chapters)),
            SEPARATOR@,
        ) + CLOSING@,
        ascending(in_chain_order(chapters)),
        in_chain_order(chapters).to_multiset() == chapters.to_multiset(),
{
    lemma_chain_order_ascends(chapters);
    lemma_chain_order_rearranges(chapters);
}

/// Sorts the results by ascending index.  Results of equal index keep the
/// order in which they stand.
pub fn sort_by_index(results: &mut Vec<ChapterResult>)
    ensures
        chapter_views(final(results)@) == in_chain_order(chapter_views(old(results)@)),
{
    let ghost arrived = chapter_views(results@);
    let n = results.len();
    let mut done: usize = 0;
    assert(in_chain_order(arrived.take(0)) + arrived.skip(0) =~= arrived);
    while done < n
        invariant
            done <= n,
            n == arrived.len(),
            results.len() == n,
            chapter_views(results@) == in_chain_order(arrived.take(done as int)) + arrived.skip(
                done as int,
            ),
        decreases n - done,
    {
        let ghost front = in_chain_order(arrived.take(done as int));
        let ghost rest = arrived.skip(done + 1);
        let ghost before = chapter_views(results@);
        let ghost chapter = arrived[done as int];
        proof {
            lemma_chain_order_len(arrived.take(done as int));
            assert(before[done as int] == arrived.skip(done as int)[0]);
        }
        let index = results[done].index;
        let mut at: usize = done;
        while at > 0 && results[at - 1].index > index
            invariant
                at <= done < n,
                results.len() == n,
                chapter_views(results@) == before,
                before == front + arrived.skip(done as int),
                front.len() == done,
                index == chapter.index,
                forall|k: int| at <= k < done ==> front[k].index > chapter.index,
            decreases at,
        {
            assert(before[at - 1] == front[at - 1]);
            at = at - 1;
        }
        if at < done {
            let item = results.remove(done);
            results.insert(at, item);
        }
        proof {
            if at > 0 {
                assert(before[at - 1] == front[at - 1]);
            }
            lemma_insert_at(front, chapter, at as int);
            assert(arrived.take(done + 1).drop_last() =~= arrived.take(done as int));
            assert(arrived.take(done + 1).last() == chapter);
            assert(before.remove(done as int) =~= front + rest);
            assert((front + rest).insert(at as int, chapter) =~= front.insert(at as int, chapter)
                + rest);
            assert(before =~= front.insert(done as int, chapter) + rest);
            assert(chapter_views(results@) =~= front.insert(at as int, chapter) + rest);
        }
        done = done + 1;
    }
    assert(arrived.take(n as int) =~= arrived);
    assert(in_chain_order(arrived) + arrived.skip(n as int) =~= in_chain_order(arrived));
}

/// Concatenates the content fragments of the results in the order in which
/// they stand, with the separator between each two neighbours.
pub fn join_fragments(results: &Vec<ChapterResult>) -> (body: String)
    ensures
        body@ == joined(fragments(chapter_views(results@)), SEPARATOR@),
{
    let ghost parts = fragments(chapter_views(results@));
    let mut body = String::new();
    let mut i: usize = 0;
    while i < results.len()
        invariant
            i <= results.len(),
            parts == fragments(chapter_views(results@)),
            body@ == joined(parts.take(i as int), SEPARATOR@),
        decreases results.len() - i,
    {
        if i > 0 {
            body.append(SEPARATOR);
        }
        body.append(results[i].content.as_str());
        proof {
            let upto = parts.take(i + 1);
            assert(upto.drop_last() =~= parts.take(i as int));
            assert(upto.last() == results[i as int].content@);
            if i == 0 {
                assert(body@ =~= upto[0]);
            }
        }
        i = i + 1;
    }
    assert(parts.take(i as int) =~= parts);
    body
}

/// Wraps the body into the document shell.
pub fn wrap_document(body: &str) -> (document: String)
    ensures
        document@ == OPENING@ + body@ + CLOSING@,
{
    let mut document = String::new();
    document.append(OPENING);
    document.append(body);
    document.append(CLOSING);
    assert(document@ =~= OPENING@ + body@ + CLOSING@);
    document
}

/// Makes the document of the collected results: sorts them by index, joins
/// their fragments and wraps the whole into the document shell.
pub fn assemble(results: Vec<ChapterResult>) -> (document: String)
    ensures
        document@ == document_of(chapter_views(results@)),
{
    let mut sorted = results;
    sort_by_index(&mut sorted);
    let body = join_fragments(&sorted);
    wrap_document(body.as_str())
}

} // verus!
