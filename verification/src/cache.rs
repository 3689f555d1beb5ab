//! The time-bounded result cache: a bounded-capacity store from branch name
//! to a resolution outcome, each entry carrying an absolute expiry timestamp
//! set at insertion time (insertion time plus a fixed TTL). Expiry is checked
//! lazily on read; when the store is full, the oldest-inserted entry is
//! evicted to make room.

use vstd::prelude::*;

verus! {

/// A resolution outcome as stored in the cache: either the qualifying commit
/// id, or the marker recording that no candidate qualified.
pub enum Outcome {
    Commit(String),
    NotFound,
}

/// Spec-level picture of a stored outcome.
pub enum OutcomeSpec {
    Commit(Seq<char>),
    NotFound,
}

impl View for Outcome {
    type V = OutcomeSpec;

    open spec fn view(&self) -> OutcomeSpec {
        match self {
            Outcome::Commit(c) => OutcomeSpec::Commit(c@),
            Outcome::NotFound => OutcomeSpec::NotFound,
        }
    }
}

/// Spec-level picture of one cache entry: the stored outcome and the absolute
/// time at which the entry ceases to be honored.
pub struct EntrySpec {
    pub outcome: OutcomeSpec,
    pub expires_at: u64,
}

struct Slot {
    branch: String,
    outcome: Outcome,
    expires_at: u64,
}

spec fn slot_model(s: Slot) -> EntrySpec {
    EntrySpec { outcome: s.outcome@, expires_at: s.expires_at }
}

/// The entry stored for key `k` in a sequence of slots: the first slot whose
/// branch matches, if any.
spec fn entry_of(s: Seq<Slot>, k: Seq<char>) -> Option<EntrySpec>
    decreases s.len(),
{
    if s.len() == 0 {
        None
    } else if s[0].branch@ == k {
        Some(slot_model(s[0]))
    } else {
        entry_of(s.drop_first(), k)
    }
}

spec fn unique_keys(s: Seq<Slot>) -> bool {
    forall|i: int, j: int| 0 <= i < j < s.len() ==> s[i].branch@ != s[j].branch@
}

proof fn lemma_entry_of_found(s: Seq<Slot>, k: Seq<char>, i: int)
    requires
        0 <= i < s.len(),
        s[i].branch@ == k,
        forall|j: int| 0 <= j < i ==> s[j].branch@ != k,
    ensures
        entry_of(s, k) == Some(slot_model(s[i])),
    decreases i,
{
    if i > 0 {
        lemma_entry_of_found(s.drop_first(), k, i - 1);
    }
}

proof fn lemma_entry_of_absent(s: Seq<Slot>, k: Seq<char>)
    requires
        forall|j: int| 0 <= j < s.len() ==> s[j].branch@ != k,
    ensures
        entry_of(s, k) is None,
    decreases s.len(),
{
    if s.len() > 0 {
        lemma_entry_of_absent(s.drop_first(), k);
    }
}

proof fn lemma_entry_of_push(s: Seq<Slot>, x: Slot, k: Seq<char>)
    ensures
        entry_of(s, k) is Some ==> entry_of(s.push(x), k) == entry_of(s, k),
        entry_of(s, k) is None && x.branch@ == k ==> entry_of(s.push(x), k) == Some(slot_model(x)),
        entry_of(s, k) is None && x.branch@ != k ==> entry_of(s.push(x), k) is None,
    decreases s.len(),
{
    assert(s.push(x).len() == s.len() + 1);
    if s.len() == 0 {
        assert(s.push(x)[0] == x);
        if x.branch@ == k {
            assert(entry_of(s.push(x), k) == Some(slot_model(x)));
        } else {
            assert(s.push(x).drop_first() =~= Seq::<Slot>::empty());
            assert(entry_of(Seq::<Slot>::empty(), k) is None);
            assert(entry_of(s.push(x), k) is None);
        }
    } else {
        assert(s.push(x)[0] == s[0]);
        assert(s.push(x).drop_first() =~= s.drop_first().push(x));
        lemma_entry_of_push(s.drop_first(), x, k);
        if s[0].branch@ == k {
            assert(entry_of(s.push(x), k) == Some(slot_model(s[0])));
            assert(entry_of(s, k) == Some(slot_model(s[0])));
        } else {
            assert(entry_of(s.push(x), k) == entry_of(s.drop_first().push(x), k));
            assert(entry_of(s, k) == entry_of(s.drop_first(), k));
        }
    }
}

proof fn lemma_entry_of_remove(s: Seq<Slot>, i: int, k: Seq<char>)
    requires
        0 <= i < s.len(),
        unique_keys(s),
    ensures
        entry_of(s.remove(i), k) == if s[i].branch@ == k {
            None
        } else {
            entry_of(s, k)
        },
    decreases s.len(),
{
    s.remove_ensures(i);
    if i == 0 {
        assert(s.remove(0) =~= s.drop_first());
        if s[0].branch@ == k {
            assert forall|j: int| 0 <= j < s.drop_first().len() implies s.drop_first()[j].branch@
                != k by {
                assert(s.drop_first()[j] == s[j + 1]);
            }
            lemma_entry_of_absent(s.drop_first(), k);
        }
    } else {
        assert(s.remove(i)[0] == s[0]);
        assert(s.remove(i).drop_first() =~= s.drop_first().remove(i - 1));
        assert(unique_keys(s.drop_first())) by {
            assert forall|a: int, b: int|
                0 <= a < b < s.drop_first().len() implies s.drop_first()[a].branch@
                != s.drop_first()[b].branch@ by {
                assert(s.drop_first()[a] == s[a + 1]);
                assert(s.drop_first()[b] == s[b + 1]);
            }
        }
        assert(s.drop_first()[i - 1] == s[i]);
        lemma_entry_of_remove(s.drop_first(), i - 1, k);
    }
}

/// Removing slot `i` keeps every other key's entry intact: the remaining
/// slots have unique keys, none of them carries the removed slot's key, and
/// every entry still found afterwards is the entry found before.
proof fn lemma_remove_slot(s: Seq<Slot>, i: int)
    requires
        0 <= i < s.len(),
        unique_keys(s),
    ensures
        unique_keys(s.remove(i)),
        forall|j: int| 0 <= j < s.remove(i).len() ==> #[trigger] s.remove(i)[j].branch@
            != s[i].branch@,
        forall|k: Seq<char>| #[trigger] entry_of(s.remove(i), k) is Some ==> entry_of(
            s.remove(i),
            k,
        ) == entry_of(s, k),
{
    s.remove_ensures(i);
    assert forall|a: int, b: int|
        0 <= a < b < s.remove(i).len() implies s.remove(i)[a].branch@ != s.remove(
        i,
    )[b].branch@ by {
        if a < i {
            assert(s.remove(i)[a] == s[a]);
        } else {
            assert(s.remove(i)[a] == s[a + 1]);
        }
        if b < i {
            assert(s.remove(i)[b] == s[b]);
        } else {
            assert(s.remove(i)[b] == s[b + 1]);
        }
    }
    assert forall|j: int| 0 <= j < s.remove(i).len() implies #[trigger] s.remove(i)[j].branch@
        != s[i].branch@ by {
        if j < i {
            assert(s.remove(i)[j] == s[j]);
        } else {
            assert(s.remove(i)[j] == s[j + 1]);
        }
    }
    assert forall|k: Seq<char>| #[trigger] entry_of(s.remove(i), k) is Some implies entry_of(
        s.remove(i),
        k,
    ) == entry_of(s, k) by {
        lemma_entry_of_remove(s, i, k);
    }
}

/// The bounded-capacity, TTL-keyed store from branch name to resolution
/// outcome. Process-lifetime state, initialized empty; entries are honored
/// until their expiry timestamp and refreshed wholesale on overwrite.
pub struct BranchCache {
    slots: Vec<Slot>,
    ttl: u64,
    capacity: usize,
}

impl BranchCache {
    /// Internal consistency: at most one slot per branch, within capacity.
    pub closed spec fn wf(&self) -> bool {
        &&& 1 <= self.ttl
        &&& 1 <= self.capacity
        &&& self.slots@.len() <= self.capacity
        &&& unique_keys(self.slots@)
    }

    /// The fixed time-to-live attached to every entry this cache writes.
    pub closed spec fn spec_ttl(&self) -> u64 {
        self.ttl
    }

    /// What the cache currently stores for branch `k`, expired or not.
    pub closed spec fn entry(&self, k: Seq<char>) -> Option<EntrySpec> {
        entry_of(self.slots@, k)
    }

    /// An entry for `k` exists and is still honored at time `now`.
    pub open spec fn live(&self, k: Seq<char>, now: u64) -> bool {
        self.entry(k) matches Some(e) && now < e.expires_at
    }

    pub fn new(ttl: u64, capacity: usize) -> (c: BranchCache)
        requires
            1 <= ttl,
            1 <= capacity,
        ensures
            c.wf(),
            c.spec_ttl() == ttl,
            forall|k: Seq<char>| c.entry(k) is None,
    {
        BranchCache { slots: Vec::new(), ttl, capacity }
    }

    /// Read the entry for `branch` at time `now`: the stored outcome while
    /// the entry is live, and nothing once it has expired or was never
    /// written. A pure read; the store is not changed.
    pub fn lookup(&self, branch: &String, now: u64) -> (r: Option<Outcome>)
        requires
            self.wf(),
        ensures
            self.live(branch@, now) ==> (r matches Some(o) && o@ == self.entry(
                branch@,
            ).unwrap().outcome),
            !self.live(branch@, now) ==> r is None,
    {
        let n = self.slots.len();
        let mut i: usize = 0;
        while i < n
            invariant
                self.wf(),
                n == self.slots@.len(),
                0 <= i <= n,
                forall|j: int| 0 <= j < i ==> self.slots@[j].branch@ != branch@,
            decreases n - i,
        {
            if self.slots[i].branch == *branch {
                proof {
                    lemma_entry_of_found(self.slots@, branch@, i as int);
                }
                if now < self.slots[i].expires_at {
                    let o = match &self.slots[i].outcome {
                        Outcome::Commit(c) => Outcome::Commit(c.clone()),
                        Outcome::NotFound => Outcome::NotFound,
                    };
                    return Some(o);
                } else {
                    return None;
                }
            }
            i = i + 1;
        }
        proof {
            lemma_entry_of_absent(self.slots@, branch@);
        }
        None
    }

    /// Write a fresh entry for `branch` with expiry `now + ttl`, overwriting
    /// any previous entry for the same branch. When the store is full and the
    /// branch is new, the oldest-inserted entry is evicted: every other key
    /// either keeps its entry unchanged or loses it to eviction; no entry is
    /// ever altered in place.
    pub fn insert(&mut self, branch: String, outcome: Outcome, now: u64)
        requires
            old(self).wf(),
            now + old(self).spec_ttl() <= u64::MAX,
        ensures
            final(self).wf(),
            final(self).spec_ttl() == old(self).spec_ttl(),
            final(self).entry(branch@) == Some(
                EntrySpec {
                    outcome: outcome@,
                    expires_at: (now + old(self).spec_ttl()) as u64,
                },
            ),
            forall|k: Seq<char>|
                k != branch@ ==> final(self).entry(k) == old(self).entry(k) || final(self).entry(
                    k,
                ) is None,
    {
        let expires_at: u64 = now + self.ttl;
        let ghost bkey = branch@;
        let ghost pre = self.slots@;
        let n = self.slots.len();
        let mut i: usize = 0;
        let mut existing: Option<usize> = None;
        while i < n
            invariant
                bkey == branch@,
                n == self.slots@.len(),
                0 <= i <= n,
                self.slots@ == pre,
                match existing {
                    Some(e) => e < n && self.slots@[e as int].branch@ == bkey,
                    None => forall|j: int| 0 <= j < i ==> self.slots@[j].branch@ != bkey,
                },
            decreases n - i,
        {
            let is_match: bool = self.slots[i].branch == branch;
            if existing.is_none() && is_match {
                existing = Some(i);
            }
            i = i + 1;
        }
        match existing {
            Some(e) => {
                proof {
                    lemma_remove_slot(pre, e as int);
                }
                self.slots.remove(e);
            },
            None => {
                if self.slots.len() == self.capacity {
                    proof {
                        lemma_remove_slot(pre, 0);
                        pre.remove_ensures(0);
                        assert forall|j: int| 0 <= j < pre.remove(0).len() implies pre.remove(
                            0,
                        )[j].branch@ != bkey by {
                            assert(pre.remove(0)[j] == pre[j + 1]);
                        }
                    }
                    self.slots.remove(0);
                }
            },
        }
        let ghost mid = self.slots@;
        proof {
            assert(unique_keys(mid));
            assert(forall|j: int| 0 <= j < mid.len() ==> mid[j].branch@ != bkey);
            lemma_entry_of_absent(mid, bkey);
            assert(forall|k: Seq<char>| #[trigger] entry_of(mid, k) is Some ==> entry_of(mid, k)
                == entry_of(pre, k));
        }
        let slot = Slot { branch, outcome, expires_at };
        self.slots.push(slot);
        proof {
            lemma_entry_of_push(mid, slot, bkey);
            assert forall|k: Seq<char>|
                k != bkey implies #[trigger] entry_of(mid.push(slot), k) == entry_of(pre, k)
                || entry_of(mid.push(slot), k) is None by {
                lemma_entry_of_push(mid, slot, k);
            }
        }
    }
}

} // verus!
