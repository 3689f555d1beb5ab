//! End-to-end resolution flows driven against a scripted upstream: the
//! fallback order over candidates, positive and negative memoization,
//! expiry, and the handling of transport failures.

use commit_resolver::probe::{candidate_list, ProbeSession};
use commit_resolver::resolver::{CacheDecision, CommitResolver};

/// A scripted stand-in for the upstream service: a fixed head and parent
/// list, a fixed CI verdict per commit, and counters for every call made.
struct FakeUpstream {
    head: String,
    parents: Vec<String>,
    green: Vec<String>,
    fail_transport: bool,
    head_calls: usize,
    check_calls: Vec<String>,
}

impl FakeUpstream {
    fn new(head: &str, parents: &[&str], green: &[&str]) -> FakeUpstream {
        FakeUpstream {
            head: head.to_string(),
            parents: parents.iter().map(|p| p.to_string()).collect(),
            green: green.iter().map(|c| c.to_string()).collect(),
            fail_transport: false,
            head_calls: 0,
            check_calls: Vec::new(),
        }
    }

    fn head_and_parents(&mut self) -> Result<Vec<String>, ()> {
        if self.fail_transport {
            return Err(());
        }
        self.head_calls += 1;
        Ok(candidate_list(self.head.clone(), &self.parents))
    }

    fn check_success(&mut self, commit: &str) -> Result<bool, ()> {
        if self.fail_transport {
            return Err(());
        }
        self.check_calls.push(commit.to_string());
        Ok(self.green.iter().any(|c| c == commit))
    }

    fn upstream_calls(&self) -> usize {
        self.head_calls + self.check_calls.len()
    }
}

#[derive(Debug, PartialEq)]
enum DriveError {
    Transport,
    NotFound,
}

/// The loop the service runs around the library: consult the cache, and on
/// a miss fetch the candidates, probe them in order, and write the outcome
/// back. Transport failures abandon the attempt before any cache write.
fn drive_resolve(
    resolver: &mut CommitResolver,
    upstream: &mut FakeUpstream,
    branch: &str,
    now: u64,
) -> Result<String, DriveError> {
    match resolver.consult_cache(&branch.to_string(), now) {
        CacheDecision::UseCommit(c) => Ok(c),
        CacheDecision::ReportNotFound => Err(DriveError::NotFound),
        CacheDecision::NeedUpstream => {
            let candidates = upstream.head_and_parents().map_err(|_| DriveError::Transport)?;
            let mut session = ProbeSession::new(branch.to_string(), candidates);
            while let Some(candidate) = session.next_candidate() {
                let ok = upstream.check_success(&candidate).map_err(|_| DriveError::Transport)?;
                session.record_outcome(ok);
            }
            assert!(now.checked_add(3600).is_some());
            resolver.finish_probe(session, now).map_err(|_| DriveError::NotFound)
        }
    }
}

const TTL: u64 = 3600;

fn new_resolver() -> CommitResolver {
    CommitResolver::new(TTL, 100)
}

#[test]
fn fallback_order_probes_in_order_and_returns_first_green() {
    let mut resolver = new_resolver();
    let mut upstream = FakeUpstream::new("h", &["p1", "p2"], &["p2"]);
    let got = drive_resolve(&mut resolver, &mut upstream, "main", 1000);
    assert_eq!(got, Ok("p2".to_string()));
    assert_eq!(upstream.check_calls, vec!["h".to_string(), "p1".to_string(), "p2".to_string()]);
}

#[test]
fn probe_stops_at_first_success() {
    let mut resolver = new_resolver();
    let mut upstream = FakeUpstream::new("h", &["p1", "p2"], &["p1", "p2"]);
    let got = drive_resolve(&mut resolver, &mut upstream, "main", 1000);
    assert_eq!(got, Ok("p1".to_string()));
    assert_eq!(upstream.check_calls, vec!["h".to_string(), "p1".to_string()]);
}

#[test]
fn cache_hit_bypasses_upstream() {
    let mut resolver = new_resolver();
    let mut upstream = FakeUpstream::new("abc123", &["old1"], &["abc123"]);
    let first = drive_resolve(&mut resolver, &mut upstream, "main", 1000);
    assert_eq!(first, Ok("abc123".to_string()));
    let calls_after_first = upstream.upstream_calls();
    let second = drive_resolve(&mut resolver, &mut upstream, "main", 1000 + TTL - 1);
    assert_eq!(second, Ok("abc123".to_string()));
    assert_eq!(upstream.upstream_calls(), calls_after_first);
}

#[test]
fn negative_outcome_is_memoized() {
    let mut resolver = new_resolver();
    let mut upstream = FakeUpstream::new("h", &["p1"], &[]);
    let first = drive_resolve(&mut resolver, &mut upstream, "main", 1000);
    assert_eq!(first, Err(DriveError::NotFound));
    let calls_after_first = upstream.upstream_calls();
    let second = drive_resolve(&mut resolver, &mut upstream, "main", 1500);
    assert_eq!(second, Err(DriveError::NotFound));
    assert_eq!(upstream.upstream_calls(), calls_after_first);
}

#[test]
fn entry_expires_exactly_after_ttl() {
    let mut resolver = new_resolver();
    let mut upstream = FakeUpstream::new("abc123", &[], &["abc123"]);
    let written_at: u64 = 1000;
    let first = drive_resolve(&mut resolver, &mut upstream, "main", written_at);
    assert_eq!(first, Ok("abc123".to_string()));
    let calls_after_first = upstream.upstream_calls();

    // Still honored just before the TTL elapses: no new upstream traffic.
    let before = drive_resolve(&mut resolver, &mut upstream, "main", written_at + TTL - 1);
    assert_eq!(before, Ok("abc123".to_string()));
    assert_eq!(upstream.upstream_calls(), calls_after_first);

    // Treated as absent once the TTL has elapsed: a fresh resolution runs.
    let after = drive_resolve(&mut resolver, &mut upstream, "main", written_at + TTL + 1);
    assert_eq!(after, Ok("abc123".to_string()));
    assert!(upstream.upstream_calls() > calls_after_first);
}

#[test]
fn transient_errors_are_not_cached() {
    let mut resolver = new_resolver();
    let mut upstream = FakeUpstream::new("abc123", &[], &["abc123"]);
    upstream.fail_transport = true;
    let first = drive_resolve(&mut resolver, &mut upstream, "main", 1000);
    assert_eq!(first, Err(DriveError::Transport));

    // The failure was not written: the next request retries upstream and
    // succeeds as soon as the outage clears.
    upstream.fail_transport = false;
    let second = drive_resolve(&mut resolver, &mut upstream, "main", 1001);
    assert_eq!(second, Ok("abc123".to_string()));
    assert_eq!(upstream.head_calls, 1);
}

#[test]
fn scenario_master_head_fails_parent_succeeds() {
    let mut resolver = new_resolver();
    let mut upstream = FakeUpstream::new("aaaa111111", &["bbbb222222"], &["bbbb222222"]);
    let got = drive_resolve(&mut resolver, &mut upstream, "master", 1000);
    assert_eq!(got, Ok("bbbb222222".to_string()));
}

#[test]
fn scenario_feature_branch_without_green_commit() {
    let mut resolver = new_resolver();
    let mut upstream = FakeUpstream::new("cccc333333", &[], &[]);
    let first = drive_resolve(&mut resolver, &mut upstream, "feature-x", 1000);
    assert_eq!(first, Err(DriveError::NotFound));
    let calls_after_first = upstream.upstream_calls();
    let second = drive_resolve(&mut resolver, &mut upstream, "feature-x", 1200);
    assert_eq!(second, Err(DriveError::NotFound));
    assert_eq!(upstream.upstream_calls(), calls_after_first);
}

#[test]
fn branches_are_cached_independently() {
    let mut resolver = new_resolver();
    let mut up_main = FakeUpstream::new("abc123", &[], &["abc123"]);
    let mut up_dev = FakeUpstream::new("def456", &[], &["def456"]);
    let main = drive_resolve(&mut resolver, &mut up_main, "main", 1000);
    let dev = drive_resolve(&mut resolver, &mut up_dev, "dev", 1000);
    assert_eq!(main, Ok("abc123".to_string()));
    assert_eq!(dev, Ok("def456".to_string()));
    let main_again = drive_resolve(&mut resolver, &mut up_main, "main", 1001);
    assert_eq!(main_again, Ok("abc123".to_string()));
    assert_eq!(up_main.head_calls, 1);
    assert_eq!(up_dev.head_calls, 1);
}

#[test]
fn full_store_evicts_to_make_room() {
    let mut resolver = CommitResolver::new(TTL, 1);
    let mut up_main = FakeUpstream::new("abc123", &[], &["abc123"]);
    let mut up_dev = FakeUpstream::new("def456", &[], &["def456"]);
    drive_resolve(&mut resolver, &mut up_main, "main", 1000).unwrap();
    drive_resolve(&mut resolver, &mut up_dev, "dev", 1001).unwrap();
    // The store holds one entry: resolving "dev" evicted "main", so "main"
    // needs upstream again, while "dev" is answered from the cache.
    let dev_again = drive_resolve(&mut resolver, &mut up_dev, "dev", 1002);
    assert_eq!(dev_again, Ok("def456".to_string()));
    assert_eq!(up_dev.head_calls, 1);
    let main_again = drive_resolve(&mut resolver, &mut up_main, "main", 1003);
    assert_eq!(main_again, Ok("abc123".to_string()));
    assert_eq!(up_main.head_calls, 2);
}

#[test]
fn candidate_list_is_head_then_parents_in_order() {
    let parents = vec!["p1".to_string(), "p2".to_string(), "p1".to_string()];
    let got = candidate_list("h".to_string(), &parents);
    assert_eq!(got, vec!["h", "p1", "p2", "p1"]);
}
