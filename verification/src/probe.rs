//! The fallback search over the ordered candidate list: the head commit
//! first, then its parents in the order the upstream returned them. The
//! probe is a session that hands out one candidate at a time, records the
//! CI outcome reported for it, and stops at the first success.

use vstd::prelude::*;
use crate::cache::{Outcome, OutcomeSpec};

verus! {

/// The views of a list of commit id strings, in the same order.
pub open spec fn ids(s: Seq<String>) -> Seq<Seq<char>> {
    Seq::new(s.len(), |i: int| s[i]@)
}

/// The outcome a probe of `cands` owes, given the CI outcome of each probed
/// candidate in list order: the first candidate whose outcome is success,
/// or the not-found marker when none qualifies.
pub open spec fn first_qualifying(cands: Seq<Seq<char>>, outs: Seq<bool>) -> OutcomeSpec
    recommends
        outs.len() <= cands.len(),
    decreases outs.len(),
{
    if outs.len() == 0 {
        OutcomeSpec::NotFound
    } else if outs[0] {
        OutcomeSpec::Commit(cands[0])
    } else {
        first_qualifying(cands.drop_first(), outs.drop_first())
    }
}

/// Fallback order: when candidate `i` succeeds and every earlier candidate
/// fails, the probe outcome is exactly candidate `i` — candidates are never
/// skipped or reordered.
pub proof fn lemma_first_qualifying_is_first(cands: Seq<Seq<char>>, outs: Seq<bool>, i: int)
    requires
        0 <= i < outs.len(),
        outs.len() <= cands.len(),
        outs[i],
        forall|j: int| 0 <= j < i ==> !outs[j],
    ensures
        first_qualifying(cands, outs) == OutcomeSpec::Commit(cands[i]),
    decreases i,
{
    if i > 0 {
        lemma_first_qualifying_is_first(cands.drop_first(), outs.drop_first(), i - 1);
    }
}

/// When every probed candidate fails, the probe outcome is the not-found
/// marker; no commit id that failed its CI check is ever the outcome.
pub proof fn lemma_first_qualifying_none(cands: Seq<Seq<char>>, outs: Seq<bool>)
    requires
        forall|j: int| 0 <= j < outs.len() ==> !outs[j],
    ensures
        first_qualifying(cands, outs) == OutcomeSpec::NotFound,
    decreases outs.len(),
{
    if outs.len() > 0 {
        lemma_first_qualifying_none(cands.drop_first(), outs.drop_first());
    }
}

/// Build the full candidate order for a branch: the head commit followed by
/// its direct parents, exactly in the order given — no reordering, no
/// deduplication.
pub fn candidate_list(head: String, parents: &Vec<String>) -> (r: Vec<String>)
    ensures
        r@.len() == parents@.len() + 1,
        r@[0] == head,
        forall|i: int| 1 <= i < r@.len() ==> r@[i] == parents@[i - 1],
{
    let mut r: Vec<String> = Vec::new();
    r.push(head);
    let mut i: usize = 0;
    while i < parents.len()
        invariant
            0 <= i <= parents@.len(),
            r@.len() == i + 1,
            r@[0] == head,
            forall|j: int| 1 <= j < r@.len() ==> r@[j] == parents@[j - 1],
        decreases parents@.len() - i,
    {
        r.push(parents[i].clone());
        i = i + 1;
    }
    r
}

/// One in-flight resolution attempt for a branch, after the candidate list
/// arrived from upstream: hands out candidates in list order, records the
/// CI outcome reported for each, and stops at the first success.
pub struct ProbeSession {
    branch: String,
    candidates: Vec<String>,
    next: usize,
    found: Option<String>,
    outcomes: Ghost<Seq<bool>>,
}

impl ProbeSession {
    /// The branch this probe resolves.
    pub closed spec fn spec_branch(&self) -> Seq<char> {
        self.branch@
    }

    /// The candidate commit ids, head first, in upstream order.
    pub closed spec fn spec_candidates(&self) -> Seq<Seq<char>> {
        ids(self.candidates@)
    }

    /// The CI outcomes recorded so far, one per probed candidate, in order.
    pub closed spec fn spec_outcomes(&self) -> Seq<bool> {
        self.outcomes@
    }

    /// The session is consistent: outcomes were recorded for a prefix of the
    /// candidates, every outcome before a success was a failure, and a
    /// success ends the probe at the candidate that produced it.
    pub closed spec fn wf(&self) -> bool {
        match self.found {
            None => {
                &&& self.next == self.outcomes@.len()
                &&& self.next <= self.candidates@.len()
                &&& forall|i: int| 0 <= i < self.outcomes@.len() ==> !self.outcomes@[i]
            },
            Some(c) => {
                &&& 1 <= self.next <= self.candidates@.len()
                &&& self.outcomes@.len() == self.next
                &&& self.outcomes@[self.next - 1]
                &&& c@ == self.candidates@[self.next - 1]@
                &&& forall|i: int| 0 <= i < self.next - 1 ==> !self.outcomes@[i]
            },
        }
    }

    /// No candidate remains to probe: a success was found, or every
    /// candidate has been probed without one.
    pub closed spec fn is_complete(&self) -> bool {
        self.found is Some || self.next == self.candidates@.len()
    }

    pub fn new(branch: String, candidates: Vec<String>) -> (s: ProbeSession)
        ensures
            s.wf(),
            s.spec_branch() == branch@,
            s.spec_candidates() == ids(candidates@),
            s.spec_outcomes() == Seq::<bool>::empty(),
            s.is_complete() <==> candidates@.len() == 0,
    {
        ProbeSession {
            branch,
            candidates,
            next: 0,
            found: None,
            outcomes: Ghost(Seq::empty()),
        }
    }

    /// The candidate to probe next, in list order, or nothing once the
    /// probe is complete. Does not advance the session.
    pub fn next_candidate(&self) -> (r: Option<String>)
        requires
            self.wf(),
        ensures
            r matches Some(c) ==> !self.is_complete() && c@ == self.spec_candidates()[self.spec_outcomes().len() as int],
            r is None ==> self.is_complete(),
    {
        if self.found.is_some() {
            None
        } else if self.next < self.candidates.len() {
            Some(self.candidates[self.next].clone())
        } else {
            None
        }
    }

    /// Record the CI outcome reported for the candidate last handed out.
    /// A success ends the probe with that candidate as the result.
    pub fn record_outcome(&mut self, success: bool)
        requires
            old(self).wf(),
            !old(self).is_complete(),
        ensures
            final(self).wf(),
            final(self).spec_branch() == old(self).spec_branch(),
            final(self).spec_candidates() == old(self).spec_candidates(),
            final(self).spec_outcomes() == old(self).spec_outcomes().push(success),
            final(self).is_complete() <==> (success || old(self).spec_outcomes().len() + 1
                == old(self).spec_candidates().len()),
    {
        let n = self.candidates.len();
        assert(self.next < n);
        if success {
            let c = self.candidates[self.next].clone();
            self.found = Some(c);
        }
        self.next = self.next + 1;
        self.outcomes = Ghost(self.outcomes@.push(success));
    }

    /// Close a completed probe: the branch it resolved, and the outcome owed
    /// by the fallback policy — the first candidate in list order whose CI
    /// run fully succeeded, or the not-found marker when none did.
    pub fn conclude(self) -> (r: (String, Outcome))
        requires
            self.wf(),
            self.is_complete(),
        ensures
            r.0@ == self.spec_branch(),
            r.1@ == first_qualifying(self.spec_candidates(), self.spec_outcomes()),
    {
        proof {
            if self.found is Some {
                lemma_first_qualifying_is_first(
                    ids(self.candidates@),
                    self.outcomes@,
                    self.next - 1,
                );
            } else {
                lemma_first_qualifying_none(ids(self.candidates@), self.outcomes@);
            }
        }
        match self.found {
            Some(c) => (self.branch, Outcome::Commit(c)),
            None => (self.branch, Outcome::NotFound),
        }
    }
}

} // verus!
