//! Chain order: the order in which the chapters of a document stand.
//!
//! Chapters stand by ascending index, and chapters of one index stand as they
//! arrived.  There is one such order only, and where no two chapters share an
//! index it does not depend on the order of arrival at all.

use vstd::prelude::*;
use crate::collector::ChapterView;

verus! {

/// `sorted` with `chapter` put behind the last member whose index is not
/// greater than its own.
pub open spec fn insert_in_order(sorted: Seq<ChapterView>, chapter: ChapterView) -> Seq<
    ChapterView,
>
    decreases sorted.len(),
{
    if sorted.len() == 0 {
        seq![chapter]
    } else if sorted.last().index <= chapter.index {
        sorted.push(chapter)
    } else {
        insert_in_order(sorted.drop_last(), chapter).push(sorted.last())
    }
}

/// The chapters by ascending index; chapters of equal index stay in the order
/// of their arrival.
pub open spec fn in_chain_order(chapters: Seq<ChapterView>) -> Seq<ChapterView>
    decreases chapters.len(),
{
    if chapters.len() == 0 {
        chapters
    } else {
        insert_in_order(in_chain_order(chapters.drop_last()), chapters.last())
    }
}

/// No chapter stands before one of smaller index.
pub open spec fn ascending(chapters: Seq<ChapterView>) -> bool {
    forall|i: int, j: int| 0 <= i < j < chapters.len() ==> chapters[i].index <= chapters[j].index
}

/// No two chapters have the same index.
pub open spec fn distinct_indices(chapters: Seq<ChapterView>) -> bool {
    forall|i: int, j: int| 0 <= i < j < chapters.len() ==> chapters[i].index != chapters[j].index
}

proof fn lemma_insert_len(sorted: Seq<ChapterView>, chapter: ChapterView)
    ensures
        insert_in_order(sorted, chapter).len() == sorted.len() + 1,
    decreases sorted.len(),
{
    if sorted.len() > 0 && sorted.last().index > chapter.index {
        lemma_insert_len(sorted.drop_last(), chapter);
    }
}

/// Ordering keeps the number of chapters.
pub proof fn lemma_chain_order_len(chapters: Seq<ChapterView>)
    ensures
        in_chain_order(chapters).len() == chapters.len(),
    decreases chapters.len(),
{
    if chapters.len() > 0 {
        lemma_chain_order_len(chapters.drop_last());
        lemma_insert_len(in_chain_order(chapters.drop_last()), chapters.last());
    }
}

/// Where `at` is the place behind the last member of `sorted` whose index is
/// not greater than that of `chapter`, ordered insertion puts `chapter` there.
pub proof fn lemma_insert_at(sorted: Seq<ChapterView>, chapter: ChapterView, at: int)
    requires
        0 <= at <= sorted.len(),
        at > 0 ==> sorted[at - 1].index <= chapter.index,
        forall|k: int| at <= k < sorted.len() ==> sorted[k].index > chapter.index,
    ensures
        insert_in_order(sorted, chapter) == sorted.insert(at, chapter),
    decreases sorted.len(),
{
    if sorted.len() == 0 {
        assert(seq![chapter] =~= sorted.insert(at, chapter));
    } else if at == sorted.len() {
        assert(sorted.push(chapter) =~= sorted.insert(at, chapter));
    } else {
        let front = sorted.drop_last();
        lemma_insert_at(front, chapter, at);
        assert(front.insert(at, chapter).push(sorted.last()) =~= sorted.insert(at, chapter));
    }
}

/// The place at which ordered insertion puts `chapter` into `sorted`: the
/// members before it have indices that are not greater, if `sorted` is
/// ascending, and the members behind it have indices that are greater.
proof fn lemma_insert_place(sorted: Seq<ChapterView>, chapter: ChapterView) -> (at: int)
    ensures
        0 <= at <= sorted.len(),
        insert_in_order(sorted, chapter) == sorted.insert(at, chapter),
        at > 0 ==> sorted[at - 1].index <= chapter.index,
        forall|k: int| at <= k < sorted.len() ==> sorted[k].index > chapter.index,
    decreases sorted.len(),
{
    if sorted.len() == 0 {
        lemma_insert_at(sorted, chapter, 0);
        0
    } else if sorted.last().index <= chapter.index {
        lemma_insert_at(sorted, chapter, sorted.len() as int);
        sorted.len() as int
    } else {
        let front = sorted.drop_last();
        let at = lemma_insert_place(front, chapter);
        assert forall|k: int| at <= k < sorted.len() implies sorted[k].index
            > chapter.index by {
            if k < front.len() {
                assert(sorted[k] == front[k]);
            }
        }
        if at > 0 {
            assert(sorted[at - 1] == front[at - 1]);
        }
        lemma_insert_at(sorted, chapter, at);
        at
    }
}

/// Ordering yields ascending indices.
pub proof fn lemma_chain_order_ascends(chapters: Seq<ChapterView>)
    ensures
        ascending(in_chain_order(chapters)),
    decreases chapters.len(),
{
    if chapters.len() > 0 {
        let front = in_chain_order(chapters.drop_last());
        lemma_chain_order_ascends(chapters.drop_last());
        let at = lemma_insert_place(front, chapters.last());
        let whole = front.insert(at, chapters.last());
        assert forall|i: int, j: int| 0 <= i < j < whole.len() implies whole[i].index
            <= whole[j].index by {
            if j < at {
                assert(whole[i] == front[i] && whole[j] == front[j]);
            } else if j == at {
                assert(whole[i] == front[i]);
                assert(front[i].index <= front[at - 1].index);
            } else if i < at {
                assert(whole[i] == front[i] && whole[j] == front[j - 1]);
            } else if i == at {
                assert(whole[j] == front[j - 1]);
            } else {
                assert(whole[i] == front[i - 1] && whole[j] == front[j - 1]);
            }
        }
    }
}

/// Ordering neither loses nor adds nor changes a chapter: what comes out is
/// a rearrangement of what went in.
pub proof fn lemma_chain_order_rearranges(chapters: Seq<ChapterView>)
    ensures
        in_chain_order(chapters).to_multiset() == chapters.to_multiset(),
    decreases chapters.len(),
{
    if chapters.len() > 0 {
        let front = in_chain_order(chapters.drop_last());
        lemma_chain_order_rearranges(chapters.drop_last());
        let at = lemma_insert_place(front, chapters.last());
        vstd::seq_lib::to_multiset_insert(front, at, chapters.last());
        vstd::seq_lib::to_multiset_build(chapters.drop_last(), chapters.last());
        assert(chapters.drop_last().push(chapters.last()) =~= chapters);
    }
}

/// Chapters that are in ascending order already stay as they are.
pub proof fn lemma_chain_order_keeps_ascending(chapters: Seq<ChapterView>)
    requires
        ascending(chapters),
    ensures
        in_chain_order(chapters) == chapters,
    decreases chapters.len(),
{
    if chapters.len() > 0 {
        let front = chapters.drop_last();
        lemma_chain_order_keeps_ascending(front);
        if front.len() > 0 {
            assert(front.last() == chapters[chapters.len() - 2]);
        }
        assert(front.push(chapters.last()) =~= chapters);
    }
}

/// The chapters of index `index`, in the order in which they stand.
pub open spec fn with_index(chapters: Seq<ChapterView>, index: nat) -> Seq<ChapterView>
    decreases chapters.len(),
{
    if chapters.len() == 0 {
        Seq::empty()
    } else if chapters.last().index == index {
        with_index(chapters.drop_last(), index).push(chapters.last())
    } else {
        with_index(chapters.drop_last(), index)
    }
}

proof fn lemma_with_index_concat(a: Seq<ChapterView>, b: Seq<ChapterView>, index: nat)
    ensures
        with_index(a + b, index) == with_index(a, index) + with_index(b, index),
    decreases b.len(),
{
    if b.len() == 0 {
        assert(a + b =~= a);
        assert(with_index(a, index) + with_index(b, index) =~= with_index(a, index));
    } else {
        lemma_with_index_concat(a, b.drop_last(), index);
        assert((a + b).drop_last() =~= a + b.drop_last());
        assert((a + b).last() == b.last());
        if b.last().index == index {
            assert((with_index(a, index) + with_index(b.drop_last(), index)).push(b.last())
                =~= with_index(a, index) + with_index(b.drop_last(), index).push(b.last()));
        }
    }
}

proof fn lemma_with_index_absent(chapters: Seq<ChapterView>, index: nat)
    requires
        forall|k: int| 0 <= k < chapters.len() ==> chapters[k].index != index,
    ensures
        with_index(chapters, index) == Seq::<ChapterView>::empty(),
    decreases chapters.len(),
{
    if chapters.len() > 0 {
        let front = chapters.drop_last();
        assert forall|k: int| 0 <= k < front.len() implies front[k].index != index by {
            assert(front[k] == chapters[k]);
        }
        lemma_with_index_absent(front, index);
    }
}

/// Ordering is stable: the chapters of one index stay in the order of their
/// arrival.
pub proof fn lemma_chain_order_is_stable(chapters: Seq<ChapterView>, index: nat)
    ensures
        with_index(in_chain_order(chapters), index) == with_index(chapters, index),
    decreases chapters.len(),
{
    if chapters.len() > 0 {
        let arrived = chapters.drop_last();
        let chapter = chapters.last();
        let front = in_chain_order(arrived);
        lemma_chain_order_is_stable(arrived, index);
        let at = lemma_insert_place(front, chapter);
        let head = front.take(at);
        let tail = front.skip(at);
        assert(front =~= head + tail);
        assert(front.insert(at, chapter) =~= (head + seq![chapter]) + tail);
        lemma_with_index_concat(head, tail, index);
        lemma_with_index_concat(head + seq![chapter], tail, index);
        lemma_with_index_concat(head, seq![chapter], index);
        assert(seq![chapter].drop_last() =~= Seq::<ChapterView>::empty());
        assert(seq![chapter].last() == chapter);
        assert(with_index(seq![chapter].drop_last(), index) =~= Seq::<ChapterView>::empty());
        if chapter.index == index {
            assert forall|k: int| 0 <= k < tail.len() implies tail[k].index != index by {
                assert(tail[k] == front[at + k]);
            }
            lemma_with_index_absent(tail, index);
            assert(with_index(seq![chapter], index) =~= seq![chapter]);
            assert(with_index(front.insert(at, chapter), index) =~= with_index(front, index).push(
                chapter,
            ));
        } else {
            assert(with_index(seq![chapter], index) =~= Seq::<ChapterView>::empty());
            assert(with_index(front.insert(at, chapter), index) =~= with_index(front, index));
        }
    }
}

/// Some chapter among `chapters` has index `index`, if any has: its place.
proof fn lemma_with_index_witness(chapters: Seq<ChapterView>, index: nat) -> (at: int)
    requires
        with_index(chapters, index).len() > 0,
    ensures
        0 <= at < chapters.len(),
        chapters[at].index == index,
    decreases chapters.len(),
{
    if chapters.last().index == index {
        chapters.len() - 1
    } else {
        lemma_with_index_witness(chapters.drop_last(), index)
    }
}

/// Two ascending sequences that hold, for each index, the same chapters in
/// the same order are one and the same.
proof fn lemma_stable_order_is_unique(a: Seq<ChapterView>, b: Seq<ChapterView>)
    requires
        ascending(a),
        ascending(b),
        a.len() == b.len(),
        forall|index: nat| #[trigger] with_index(a, index) == with_index(b, index),
    ensures
        a == b,
    decreases a.len(),
{
    if a.len() == 0 {
        assert(a =~= b);
    } else {
        let top = a.last().index;
        let high = b.last().index;
        assert(with_index(a, top) == with_index(b, top));
        assert(with_index(a, high) == with_index(b, high));
        let j = lemma_with_index_witness(b, top);
        let i = lemma_with_index_witness(a, high);
        assert(high == top) by {
            if j < b.len() - 1 {
                assert(b[j].index <= b[b.len() - 1].index);
            }
            if i < a.len() - 1 {
                assert(a[i].index <= a[a.len() - 1].index);
            }
        }
        let shorter = with_index(a.drop_last(), top);
        let other = with_index(b.drop_last(), top);
        assert(shorter.push(a.last()) == other.push(b.last()));
        assert(a.last() == b.last()) by {
            assert(shorter.push(a.last()).last() == a.last());
            assert(other.push(b.last()).last() == b.last());
        }
        assert forall|index: nat| #[trigger]
            with_index(a.drop_last(), index) == with_index(b.drop_last(), index) by {
            assert(with_index(a, index) == with_index(b, index));
            if index == top {
                assert(shorter.push(a.last()).drop_last() =~= shorter);
                assert(other.push(b.last()).drop_last() =~= other);
            }
        }
        lemma_stable_order_is_unique(a.drop_last(), b.drop_last());
        assert(a =~= a.drop_last().push(a.last()));
        assert(b =~= b.drop_last().push(b.last()));
    }
}

/// Chain order is the one order that is ascending and stable: whatever
/// holds the chapters of each index as they arrived, and goes up by index, is
/// the chapters in chain order.
pub proof fn lemma_chain_order_is_the_stable_order(
    chapters: Seq<ChapterView>,
    ordered: Seq<ChapterView>,
)
    requires
        ascending(ordered),
        ordered.len() == chapters.len(),
        forall|index: nat| #[trigger] with_index(ordered, index) == with_index(chapters, index),
    ensures
        ordered == in_chain_order(chapters),
{
    lemma_chain_order_ascends(chapters);
    lemma_chain_order_len(chapters);
    assert forall|index: nat| #[trigger]
        with_index(ordered, index) == with_index(in_chain_order(chapters), index) by {
        lemma_chain_order_is_stable(chapters, index);
        assert(with_index(ordered, index) == with_index(chapters, index));
    }
    lemma_stable_order_is_unique(ordered, in_chain_order(chapters));
}

/// A rearrangement of chapters with distinct indices has distinct indices.
proof fn lemma_rearranged_indices_distinct(a: Seq<ChapterView>, b: Seq<ChapterView>)
    requires
        distinct_indices(a),
        a.to_multiset() == b.to_multiset(),
    ensures
        distinct_indices(b),
{
    assert(a.no_duplicates());
    a.lemma_multiset_has_no_duplicates();
    b.lemma_multiset_has_no_duplicates_conv();
    assert forall|i: int, j: int| 0 <= i < j < b.len() implies b[i].index != b[j].index by {
        vstd::seq_lib::to_multiset_contains(b, b[i]);
        vstd::seq_lib::to_multiset_contains(b, b[j]);
        vstd::seq_lib::to_multiset_contains(a, b[i]);
        vstd::seq_lib::to_multiset_contains(a, b[j]);
        assert(b.contains(b[i]) && b.contains(b[j]));
        let p = choose|p: int| 0 <= p < a.len() && a[p] == b[i];
        let q = choose|q: int| 0 <= q < a.len() && a[q] == b[j];
        if p == q {
            assert(b[i] == b[j]);
        }
    }
}

/// Two ascending arrangements of the same chapters are one and the same, as
/// long as no two chapters share an index.
proof fn lemma_ascending_arrangement_is_unique(a: Seq<ChapterView>, b: Seq<ChapterView>)
    requires
        ascending(a),
        ascending(b),
        distinct_indices(a),
        a.to_multiset() == b.to_multiset(),
    ensures
        a == b,
    decreases a.len(),
{
    vstd::seq_lib::to_multiset_len(a);
    vstd::seq_lib::to_multiset_len(b);
    if a.len() == 0 {
        assert(a =~= b);
    } else {
        let last = a.len() - 1;
        lemma_rearranged_indices_distinct(a, b);
        vstd::seq_lib::to_multiset_contains(a, a[last]);
        vstd::seq_lib::to_multiset_contains(b, a[last]);
        vstd::seq_lib::to_multiset_contains(a, b[last]);
        vstd::seq_lib::to_multiset_contains(b, b[last]);
        assert(a.contains(a[last]) && b.contains(b[last]));
        let j = choose|j: int| 0 <= j < b.len() && b[j] == a[last];
        let i = choose|i: int| 0 <= i < a.len() && a[i] == b[last];
        assert(a[last] == b[last]) by {
            if j < last {
                assert(b[j].index <= b[last].index);
                if i < last {
                    assert(a[i].index <= a[last].index);
                }
            }
        }
        vstd::seq_lib::to_multiset_remove(a, last);
        vstd::seq_lib::to_multiset_remove(b, last);
        assert(a.remove(last) =~= a.drop_last());
        assert(b.remove(last) =~= b.drop_last());
        lemma_ascending_arrangement_is_unique(a.drop_last(), b.drop_last());
        assert(a =~= a.drop_last().push(a[last]));
        assert(b =~= b.drop_last().push(b[last]));
    }
}

/// The order in which chapters arrive does not show in their chain order, as
/// long as no two of them share an index.
pub proof fn lemma_chain_order_ignores_arrival(first: Seq<ChapterView>, second: Seq<ChapterView>)
    requires
        distinct_indices(first),
        first.to_multiset() == second.to_multiset(),
    ensures
        in_chain_order(first) == in_chain_order(second),
{
    lemma_chain_order_ascends(first);
    lemma_chain_order_ascends(second);
    lemma_chain_order_rearranges(first);
    lemma_chain_order_rearranges(second);
    lemma_rearranged_indices_distinct(first, in_chain_order(first));
    lemma_ascending_arrangement_is_unique(in_chain_order(first), in_chain_order(second));
}

} // verus!
