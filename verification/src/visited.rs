//! The visited guard: the set of page identities that have been claimed.

use vstd::prelude::*;
use crate::identity::PageIdentity;

verus! {

/// The identities claimed so far, each held once, in the order of their
/// claims.
#[derive(Debug)]
pub struct VisitedGuard {
    claimed: Vec<PageIdentity>,
}

/// The claimed identities in the order of their claims.
impl View for VisitedGuard {
    type V = Seq<Seq<char>>;

    closed spec fn view(&self) -> Seq<Seq<char>> {
        self.claimed@.map_values(|id: PageIdentity| id@)
    }
}

/// The claims after `id` was claimed, and whether the claim was the first of
/// `id`: a first claim is recorded behind all earlier ones, a later claim
/// changes nothing.
pub open spec fn claimed(claims: Seq<Seq<char>>, id: Seq<char>) -> (Seq<Seq<char>>, bool) {
    if claims.contains(id) {
        (claims, false)
    } else {
        (claims.push(id), true)
    }
}

/// The claims after each of `ids` was claimed in turn.
pub open spec fn claimed_all(claims: Seq<Seq<char>>, ids: Seq<Seq<char>>) -> Seq<Seq<char>>
    decreases ids.len(),
{
    if ids.len() == 0 {
        claims
    } else {
        claimed(claimed_all(claims, ids.drop_last()), ids.last()).0
    }
}

/// What has been claimed stays claimed, and nothing is recorded twice,
/// whatever is claimed afterwards.
pub proof fn lemma_claims_stay(claims: Seq<Seq<char>>, ids: Seq<Seq<char>>, id: Seq<char>)
    requires
        claims.no_duplicates(),
        claims.contains(id),
    ensures
        claimed_all(claims, ids).no_duplicates(),
        claimed_all(claims, ids).contains(id),
    decreases ids.len(),
{
    if ids.len() > 0 {
        lemma_claims_stay(claims, ids.drop_last(), id);
        let before = claimed_all(claims, ids.drop_last());
        let at = choose|k: int| 0 <= k < before.len() && before[k] == id;
        if !before.contains(ids.last()) {
            assert(before.push(ids.last())[at] == id);
        }
    }
}

/// A page is granted once: of all the claims of one identity the first is
/// granted and every later one refused, whatever is claimed in between.
pub proof fn lemma_granted_once(claims: Seq<Seq<char>>, id: Seq<char>, between: Seq<Seq<char>>)
    requires
        claims.no_duplicates(),
    ensures
        !claimed(claimed_all(claimed(claims, id).0, between), id).1,
{
    let after = claimed(claims, id).0;
    if !claims.contains(id) {
        assert(after[claims.len() as int] == id);
    }
    lemma_claims_stay(after, between, id);
}

impl VisitedGuard {
    /// Every identity has been claimed at most once.
    pub open spec fn wf(&self) -> bool {
        self@.no_duplicates()
    }

    /// A guard under which nothing has been claimed.
    pub fn new() -> (guard: VisitedGuard)
        ensures
            guard.wf(),
            guard@ == Seq::<Seq<char>>::empty(),
    {
        VisitedGuard { claimed: Vec::new() }
    }

    /// Whether `id` has been claimed.
    pub fn contains(&self, id: &PageIdentity) -> (found: bool)
        ensures
            found == self@.contains(id@),
    {
        let mut i: usize = 0;
        while i < self.claimed.len()
            invariant
                i <= self.claimed.len(),
                forall|k: int| 0 <= k < i ==> self@[k] != id@,
            decreases self.claimed.len() - i,
        {
            if self.claimed[i].same_page(id) {
                assert(self@[i as int] == id@);
                return true;
            }
            i = i + 1;
        }
        false
    }

    /// Claims `id`: tests whether it has been claimed before and, if it has
    /// not, records it.  The first claimant of an identity gets `true`, every
    /// later one `false`.
    pub fn claim(&mut self, id: &PageIdentity) -> (first: bool)
        requires
            old(self).wf(),
        ensures
            final(self).wf(),
            (final(self)@, first) == claimed(old(self)@, id@),
    {
        if self.contains(id) {
            false
        } else {
            self.claimed.push(id.clone());
            assert(self@ =~= old(self)@.push(id@));
            true
        }
    }

    /// The claims are no more than can be counted.
    pub proof fn lemma_len_fits(&self)
        ensures
            self@.len() <= usize::MAX,
    {
        assert(self.claimed.len() == self.claimed@.len());
    }

    /// The number of identities claimed.
    pub fn len(&self) -> (n: usize)
        ensures
            n == self@.len(),
    {
        self.claimed.len()
    }
}

} // verus!
