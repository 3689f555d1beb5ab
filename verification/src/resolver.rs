//! The decision-making core: branch to qualifying-commit resolution with
//! memoization. On each lookup the cache is consulted first; only on a miss
//! is the upstream asked for the branch's head and parents, the candidates
//! probed in order, and the outcome — positive or negative — written back
//! with a fresh TTL. Transient upstream failures are never written: a failed
//! attempt simply never reaches the cache write.

use vstd::prelude::*;
use crate::cache::{BranchCache, EntrySpec, Outcome, OutcomeSpec};
use crate::probe::{first_qualifying, ProbeSession};

verus! {

/// What the cache prescribes for a lookup at a given time: return the
/// stored commit, report that nothing qualifies, or ask upstream.
pub enum CacheDecision {
    UseCommit(String),
    ReportNotFound,
    NeedUpstream,
}

/// Spec-level picture of a cache decision.
pub enum DecisionSpec {
    UseCommit(Seq<char>),
    ReportNotFound,
    NeedUpstream,
}

impl View for CacheDecision {
    type V = DecisionSpec;

    open spec fn view(&self) -> DecisionSpec {
        match self {
            CacheDecision::UseCommit(c) => DecisionSpec::UseCommit(c@),
            CacheDecision::ReportNotFound => DecisionSpec::ReportNotFound,
            CacheDecision::NeedUpstream => DecisionSpec::NeedUpstream,
        }
    }
}

/// No candidate among the branch's head and direct parents has a fully
/// successful CI run. This outcome is memoized; it is not a transport or
/// decode failure, which are never cached.
pub struct NotFoundError;

/// The resolver: a TTL-keyed cache from branch name to resolved outcome.
/// Upstream traffic happens between `consult_cache` and `finish_probe`,
/// outside this type; the resolver itself never performs a remote call.
pub struct CommitResolver {
    cache: BranchCache,
}

impl CommitResolver {
    pub closed spec fn wf(&self) -> bool {
        self.cache.wf()
    }

    /// What the cache currently stores for branch `k`, expired or not.
    pub closed spec fn entry(&self, k: Seq<char>) -> Option<EntrySpec> {
        self.cache.entry(k)
    }

    /// The fixed time-to-live this resolver stamps on every cache write.
    pub closed spec fn spec_ttl(&self) -> u64 {
        self.cache.spec_ttl()
    }

    /// The decision owed at time `now` for branch `k` from the cache alone:
    /// a live positive entry yields its commit, a live negative entry yields
    /// the not-found report, and an expired or missing entry requires a
    /// fresh upstream resolution.
    pub open spec fn decision_model(&self, k: Seq<char>, now: u64) -> DecisionSpec {
        match self.entry(k) {
            Some(e) => if now < e.expires_at {
                match e.outcome {
                    OutcomeSpec::Commit(c) => DecisionSpec::UseCommit(c),
                    OutcomeSpec::NotFound => DecisionSpec::ReportNotFound,
                }
            } else {
                DecisionSpec::NeedUpstream
            },
            None => DecisionSpec::NeedUpstream,
        }
    }

    /// A resolver with an empty cache: every branch needs upstream at first.
    pub fn new(ttl: u64, capacity: usize) -> (r: CommitResolver)
        requires
            1 <= ttl,
            1 <= capacity,
        ensures
            r.wf(),
            r.spec_ttl() == ttl,
            forall|k: Seq<char>| r.entry(k) is None,
    {
        CommitResolver { cache: BranchCache::new(ttl, capacity) }
    }

    /// The fast path of a resolution: read the cache and nothing else. A
    /// live entry answers the request by itself — the stored commit or the
    /// memoized not-found report — with no upstream call; otherwise the
    /// caller must fetch the branch's candidates and run a probe.
    pub fn consult_cache(&self, branch: &String, now: u64) -> (d: CacheDecision)
        requires
            self.wf(),
        ensures
            d@ == self.decision_model(branch@, now),
    {
        match self.cache.lookup(branch, now) {
            Some(Outcome::Commit(c)) => CacheDecision::UseCommit(c),
            Some(Outcome::NotFound) => CacheDecision::ReportNotFound,
            None => CacheDecision::NeedUpstream,
        }
    }

    /// The slow path's conclusion, once every needed candidate was probed:
    /// the first qualifying candidate is returned and cached; when none
    /// qualifies, the not-found marker is cached and the lookup fails. The
    /// fresh entry expires exactly a TTL after `now`. This is the only
    /// operation that writes the cache; a resolution abandoned on a
    /// transport or decode failure never reaches it.
    pub fn finish_probe(&mut self, session: ProbeSession, now: u64) -> (r: Result<
        String,
        NotFoundError,
    >)
        requires
            old(self).wf(),
            session.wf(),
            session.is_complete(),
            now + old(self).spec_ttl() <= u64::MAX,
        ensures
            final(self).wf(),
            final(self).spec_ttl() == old(self).spec_ttl(),
            final(self).entry(session.spec_branch()) == Some(
                EntrySpec {
                    outcome: first_qualifying(
                        session.spec_candidates(),
                        session.spec_outcomes(),
                    ),
                    expires_at: (now + old(self).spec_ttl()) as u64,
                },
            ),
            forall|k: Seq<char>|
                k != session.spec_branch() ==> final(self).entry(k) == old(self).entry(k)
                    || final(self).entry(k) is None,
            (match r {
                Ok(c) => first_qualifying(session.spec_candidates(), session.spec_outcomes())
                    == OutcomeSpec::Commit(c@),
                Err(_) => first_qualifying(session.spec_candidates(), session.spec_outcomes())
                    == OutcomeSpec::NotFound,
            }),
    {
        let (branch, outcome) = session.conclude();
        let r = match &outcome {
            Outcome::Commit(c) => Ok(c.clone()),
            Outcome::NotFound => Err(NotFoundError),
        };
        self.cache.insert(branch, outcome, now);
        r
    }
}

/// A live cache entry decides a lookup by itself: the stored commit is
/// returned, or the memoized not-found outcome reported, and no upstream
/// resolution is owed.
pub proof fn lemma_live_entry_decides(r: CommitResolver, b: Seq<char>, now: u64)
    requires
        r.entry(b) is Some,
        now < r.entry(b).unwrap().expires_at,
    ensures
        r.entry(b).unwrap().outcome matches OutcomeSpec::Commit(c) ==> r.decision_model(b, now)
            == DecisionSpec::UseCommit(c),
        r.entry(b).unwrap().outcome is NotFound ==> r.decision_model(b, now)
            == DecisionSpec::ReportNotFound,
{
}

/// From its expiry time onward a cache entry is treated as absent: the
/// decision is to resolve afresh upstream, exactly as for a branch that was
/// never cached.
pub proof fn lemma_expired_entry_ignored(r: CommitResolver, b: Seq<char>, now: u64)
    requires
        r.entry(b) matches Some(e) ==> now >= e.expires_at,
    ensures
        r.decision_model(b, now) == DecisionSpec::NeedUpstream,
{
}

/// Expiry, end to end: an entry written at time `t` — so stamped to expire
/// a TTL later, as `finish_probe` ensures — still decides the lookup at
/// every time before `t + ttl`, and is treated as absent from `t + ttl`
/// onward, triggering a fresh upstream resolution.
pub proof fn lemma_entry_written_at(r: CommitResolver, b: Seq<char>, t: u64, now: u64)
    requires
        r.entry(b) matches Some(e) && e.expires_at == t + r.spec_ttl(),
    ensures
        now < t + r.spec_ttl() ==> r.decision_model(b, now) != DecisionSpec::NeedUpstream,
        now >= t + r.spec_ttl() ==> r.decision_model(b, now) == DecisionSpec::NeedUpstream,
{
}

} // verus!
