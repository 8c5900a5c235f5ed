//! The persistent queue index: an ordered map `recipient -> grants_given`
//! backed by the append-only log of [`crate::log::LogEntry`].
//!
//! The in-memory index is an association list with distinct keys; the struct
//! also carries the full sequence of log entries it has appended, so that the
//! defining invariant — the index equals the left-fold of the log — is part
//! of every operation's contract. The surrounding process mirrors each
//! appended entry to durable storage before it lets the outcome of an
//! operation become visible to other tasks.

use vstd::prelude::*;

use crate::log::{fold_log, LogEntry};
use crate::types::{FaucetError, Recipient};

verus! {

/// Outcome of [`FaucetQueueIndex::insert`].
#[derive(Clone, Copy, Debug, PartialEq, Eq, Structural)]
pub enum InsertOutcome {
    /// The key was new and is now in the index with counter 0.
    Inserted,
    /// The key was already in the index; nothing was written.
    AlreadyPresent,
}

/// Outcome of [`FaucetQueueIndex::grant`].
#[derive(Clone, Copy, Debug, PartialEq, Eq, Structural)]
pub enum GrantOutcome {
    /// The key still owes grants and stays in the index.
    NeedsMore,
    /// The key is fully served and was removed from the index.
    Done,
}

/// Does some pair of `s` carry key `k`?
pub open spec fn assoc_contains(s: Seq<(Recipient, u64)>, k: Recipient) -> bool {
    exists|i: int| 0 <= i < s.len() && s[i].0 == k
}

/// The map an association list denotes; later pairs win.
pub open spec fn assoc_map(s: Seq<(Recipient, u64)>) -> Map<Recipient, u64>
    decreases s.len(),
{
    if s.len() == 0 {
        Map::empty()
    } else {
        assoc_map(s.drop_last()).insert(s.last().0, s.last().1)
    }
}

/// No key occurs in two pairs.
pub open spec fn distinct_assoc_keys(s: Seq<(Recipient, u64)>) -> bool {
    forall|i: int, j: int| 0 <= i < j < s.len() ==> s[i].0 != s[j].0
}

/// The domain of `assoc_map(s)` is exactly the keys of `s`.
pub proof fn lemma_assoc_map_dom(s: Seq<(Recipient, u64)>)
    ensures
        forall|k: Recipient| #[trigger] assoc_map(s).dom().contains(k) <==> assoc_contains(s, k),
    decreases s.len(),
{
    if s.len() > 0 {
        lemma_assoc_map_dom(s.drop_last());
        assert forall|k: Recipient| #[trigger] assoc_contains(s, k) implies assoc_map(
            s,
        ).dom().contains(k) by {
            let i = choose|i: int| 0 <= i < s.len() && s[i].0 == k;
            if i < s.len() - 1 {
                assert(s.drop_last()[i].0 == k);
                assert(assoc_contains(s.drop_last(), k));
                assert(assoc_map(s.drop_last()).dom().contains(k));
            } else {
                assert(s.last().0 == k);
            }
        }
        assert forall|k: Recipient| #[trigger] assoc_map(s).dom().contains(k) implies
            assoc_contains(s, k) by {
            if k != s.last().0 {
                assert(assoc_map(s.drop_last()).dom().contains(k));
                assert(assoc_contains(s.drop_last(), k));
                let i = choose|i: int| 0 <= i < s.drop_last().len() && s.drop_last()[i].0 == k;
                assert(s[i].0 == k);
            } else {
                assert(s[s.len() - 1].0 == k);
            }
        }
    }
}

/// With distinct keys, the pair at index `i` gives the map's value at its key.
pub proof fn lemma_assoc_map_index(s: Seq<(Recipient, u64)>, i: int)
    requires
        distinct_assoc_keys(s),
        0 <= i < s.len(),
    ensures
        assoc_map(s).dom().contains(s[i].0),
        assoc_map(s)[s[i].0] == s[i].1,
    decreases s.len(),
{
    if i < s.len() - 1 {
        assert(distinct_assoc_keys(s.drop_last()));
        lemma_assoc_map_index(s.drop_last(), i);
        assert(s.drop_last()[i] == s[i]);
        assert(s[i].0 != s.last().0);
    }
}

/// Overwriting the pair at index `i` updates the map at its key.
pub proof fn lemma_assoc_map_update(s: Seq<(Recipient, u64)>, i: int, v: u64)
    requires
        distinct_assoc_keys(s),
        0 <= i < s.len(),
    ensures
        distinct_assoc_keys(s.update(i, (s[i].0, v))),
        assoc_map(s.update(i, (s[i].0, v))) == assoc_map(s).insert(s[i].0, v),
    decreases s.len(),
{
    let k = s[i].0;
    let t = s.update(i, (k, v));
    assert(forall|j: int| 0 <= j < s.len() ==> t[j].0 == s[j].0);
    if i == s.len() - 1 {
        assert(t.drop_last() =~= s.drop_last());
        assert(t.last() == (k, v));
        assert(assoc_map(t) == assoc_map(s.drop_last()).insert(k, v));
        assert(assoc_map(s).insert(k, v) =~= assoc_map(s.drop_last()).insert(k, v));
    } else {
        assert(distinct_assoc_keys(s.drop_last()));
        lemma_assoc_map_update(s.drop_last(), i, v);
        assert(t.drop_last() =~= s.drop_last().update(i, (k, v)));
        assert(t.last() == s.last());
        assert(k != s.last().0);
        assert(assoc_map(t) == assoc_map(s.drop_last()).insert(k, v).insert(
            s.last().0,
            s.last().1,
        ));
        assert(assoc_map(s.drop_last()).insert(k, v).insert(s.last().0, s.last().1)
            =~= assoc_map(s.drop_last()).insert(s.last().0, s.last().1).insert(k, v));
    }
}

/// Removing the pair at index `i` removes its key from the map.
pub proof fn lemma_assoc_map_remove(s: Seq<(Recipient, u64)>, i: int)
    requires
        distinct_assoc_keys(s),
        0 <= i < s.len(),
    ensures
        distinct_assoc_keys(s.remove(i)),
        assoc_map(s.remove(i)) == assoc_map(s).remove(s[i].0),
    decreases s.len(),
{
    let k = s[i].0;
    s.remove_ensures(i);
    assert forall|p: int, q: int| 0 <= p < q < s.remove(i).len() implies s.remove(i)[p].0
        != s.remove(i)[q].0 by {
        let sp: int = if p < i {
            p
        } else {
            p + 1
        };
        let sq: int = if q < i {
            q
        } else {
            q + 1
        };
        assert(s.remove(i)[p] == s[sp] && s.remove(i)[q] == s[sq]);
    }
    if i == s.len() - 1 {
        assert(s.remove(i) =~= s.drop_last());
        lemma_assoc_map_dom(s.drop_last());
        assert(!assoc_contains(s.drop_last(), k)) by {
            if assoc_contains(s.drop_last(), k) {
                let j = choose|j: int| 0 <= j < s.drop_last().len() && s.drop_last()[j].0 == k;
                assert(s[j].0 == k && s[s.len() - 1].0 == k);
            }
        }
        assert(assoc_map(s.drop_last()) =~= assoc_map(s).remove(k));
    } else {
        assert(distinct_assoc_keys(s.drop_last()));
        lemma_assoc_map_remove(s.drop_last(), i);
        assert(s.remove(i).drop_last() =~= s.drop_last().remove(i));
        assert(s.remove(i).last() == s.last());
        assert(assoc_map(s.remove(i)) == assoc_map(s.drop_last()).remove(k).insert(
            s.last().0,
            s.last().1,
        ));
        assert(k != s.last().0);
        assert(assoc_map(s.drop_last()).remove(k).insert(s.last().0, s.last().1)
            =~= assoc_map(s.drop_last()).insert(s.last().0, s.last().1).remove(k));
    }
}

/// Appending a pair with a fresh key inserts it into the map.
pub proof fn lemma_assoc_map_push(s: Seq<(Recipient, u64)>, k: Recipient, v: u64)
    requires
        distinct_assoc_keys(s),
        !assoc_contains(s, k),
    ensures
        distinct_assoc_keys(s.push((k, v))),
        assoc_map(s.push((k, v))) == assoc_map(s).insert(k, v),
{
    assert(s.push((k, v)).drop_last() =~= s);
    assert(s.push((k, v)).last() == (k, v));
    assert forall|p: int, q: int| 0 <= p < q < s.push((k, v)).len() implies s.push((k, v))[p].0
        != s.push((k, v))[q].0 by {
        if q == s.len() {
            assert(s.push((k, v))[p] == s[p]);
        }
    }
}

/// Linear search for a key in an association list.
fn find_key(v: &Vec<(Recipient, u64)>, key: Recipient) -> (r: Option<usize>)
    ensures
        match r {
            Some(i) => i < v@.len() && v@[i as int].0 == key,
            None => !assoc_contains(v@, key),
        },
{
    let mut i: usize = 0;
    while i < v.len()
        invariant
            i <= v@.len(),
            forall|j: int| 0 <= j < i ==> v@[j].0 != key,
        decreases v@.len() - i,
    {
        if v[i].0 == key {
            return Some(i);
        }
        i = i + 1;
    }
    None
}

/// The persistent index: in-memory association list plus the log it folds
/// from.
pub struct FaucetQueueIndex {
    index: Vec<(Recipient, u64)>,
    log: Vec<LogEntry>,
}

impl View for FaucetQueueIndex {
    type V = Map<Recipient, u64>;

    closed spec fn view(&self) -> Map<Recipient, u64> {
        assoc_map(self.index@)
    }
}

impl FaucetQueueIndex {
    /// The full sequence of entries this index has appended to its log.
    pub closed spec fn log_seq(self) -> Seq<LogEntry> {
        self.log@
    }

    /// Number of keys in the in-memory index.
    pub closed spec fn spec_len(self) -> nat {
        self.index@.len()
    }

    /// Well-formed: keys are distinct and the in-memory index is the
    /// left-fold of the log.
    pub closed spec fn wf(self) -> bool {
        &&& distinct_assoc_keys(self.index@)
        &&& self@ == fold_log(self.log@)
    }

    /// Law: the in-memory index always equals the left-fold of the append
    /// log, so replaying the log into an empty index reproduces the state.
    pub proof fn lemma_index_is_fold_of_log(self)
        requires
            self.wf(),
        ensures
            self@ == fold_log(self.log_seq()),
    {
    }

    /// An empty index with an empty log.
    pub fn new() -> (r: Self)
        ensures
            r.wf(),
            r@ == Map::<Recipient, u64>::empty(),
            r.log_seq() == Seq::<LogEntry>::empty(),
            r.spec_len() == 0,
    {
        FaucetQueueIndex { index: Vec::new(), log: Vec::new() }
    }

    /// Rebuild the in-memory index from a persisted log by replaying every
    /// entry in order: the recovered index is the left-fold of the log.
    pub fn load(entries: Vec<LogEntry>) -> (r: Self)
        ensures
            r.wf(),
            r.log_seq() == entries@,
            r@ == fold_log(entries@),
    {
        let mut index: Vec<(Recipient, u64)> = Vec::new();
        let mut i: usize = 0;
        while i < entries.len()
            invariant
                i <= entries@.len(),
                distinct_assoc_keys(index@),
                assoc_map(index@) == fold_log(entries@.subrange(0, i as int)),
            decreases entries@.len() - i,
        {
            let ghost prefix = entries@.subrange(0, i as int);
            let e = entries[i];
            proof {
                assert(entries@.subrange(0, i + 1).drop_last() =~= prefix);
                assert(entries@.subrange(0, i + 1).last() == e);
            }
            match e.grants {
                Some(n) => {
                    match find_key(&index, e.key) {
                        Some(j) => {
                            proof {
                                lemma_assoc_map_update(index@, j as int, n);
                            }
                            index[j] = (e.key, n);
                        },
                        None => {
                            proof {
                                lemma_assoc_map_push(index@, e.key, n);
                            }
                            index.push((e.key, n));
                        },
                    }
                },
                None => {
                    match find_key(&index, e.key) {
                        Some(j) => {
                            proof {
                                lemma_assoc_map_remove(index@, j as int);
                            }
                            index.remove(j);
                        },
                        None => {
                            proof {
                                lemma_assoc_map_dom(index@);
                                assert(fold_log(entries@.subrange(0, i + 1)) =~= assoc_map(
                                    index@,
                                ));
                            }
                        },
                    }
                },
            }
            i = i + 1;
        }
        proof {
            assert(entries@.subrange(0, entries@.len() as int) =~= entries@);
        }
        FaucetQueueIndex { index, log: entries }
    }

    /// Number of keys currently in the index.
    pub fn len(&self) -> (r: usize)
        ensures
            r == self.spec_len(),
    {
        self.index.len()
    }

    /// Is `key` in the index?
    pub fn contains(&self, key: Recipient) -> (r: bool)
        ensures
            r == self@.dom().contains(key),
    {
        proof {
            lemma_assoc_map_dom(self.index@);
        }
        find_key(&self.index, key).is_some()
    }

    /// The number of grants already given to `key`.
    pub fn grants(&self, key: Recipient) -> (r: u64)
        requires
            self.wf(),
            self@.dom().contains(key),
        ensures
            r == self@[key],
    {
        proof {
            lemma_assoc_map_dom(self.index@);
        }
        match find_key(&self.index, key) {
            Some(i) => {
                proof {
                    lemma_assoc_map_index(self.index@, i as int);
                }
                self.index[i].1
            },
            None => {
                proof {
                    assert(false);
                }
                0
            },
        }
    }

    /// What [`Self::insert`] does: a fresh key is appended to the log as
    /// `(key, Some(0))` and enters the index at 0; a key already present
    /// leaves the state untouched.
    pub open spec fn insert_post(pre: Self, post: Self, key: Recipient, r: InsertOutcome) -> bool {
        if pre@.dom().contains(key) {
            &&& r == InsertOutcome::AlreadyPresent
            &&& post == pre
        } else {
            &&& r == InsertOutcome::Inserted
            &&& post.log_seq() == pre.log_seq().push(LogEntry { key, grants: Some(0) })
            &&& post@ == pre@.insert(key, 0)
            &&& post.spec_len() == pre.spec_len() + 1
        }
    }

    /// Add `key` to the persistent index.
    pub fn insert(&mut self, key: Recipient) -> (r: InsertOutcome)
        requires
            old(self).wf(),
        ensures
            final(self).wf(),
            Self::insert_post(*old(self), *final(self), key, r),
    {
        proof {
            lemma_assoc_map_dom(self.index@);
        }
        match find_key(&self.index, key) {
            Some(_) => InsertOutcome::AlreadyPresent,
            None => {
                self.log.push(LogEntry { key, grants: Some(0) });
                self.index.push((key, 0));
                proof {
                    lemma_assoc_map_push(old(self).index@, key, 0);
                    assert(self.log@.drop_last() =~= old(self).log@);
                }
                InsertOutcome::Inserted
            },
        }
    }

    /// What [`Self::remove`] does: append a delete entry and drop the key
    /// from the index.
    pub open spec fn remove_post(pre: Self, post: Self, key: Recipient) -> bool {
        &&& post.log_seq() == pre.log_seq().push(LogEntry { key, grants: None })
        &&& post@ == pre@.remove(key)
        &&& post.spec_len() == if pre@.dom().contains(key) {
            pre.spec_len() - 1
        } else {
            pre.spec_len() as int
        }
    }

    /// Remove `key` from the persistent index.
    pub fn remove(&mut self, key: Recipient)
        requires
            old(self).wf(),
        ensures
            final(self).wf(),
            Self::remove_post(*old(self), *final(self), key),
    {
        self.log.push(LogEntry { key, grants: None });
        proof {
            assert(self.log@.drop_last() =~= old(self).log@);
        }
        match find_key(&self.index, key) {
            Some(i) => {
                self.index.remove(i);
                proof {
                    lemma_assoc_map_dom(old(self).index@);
                    assert(assoc_contains(old(self).index@, key)) by {
                        assert(old(self).index@[i as int].0 == key);
                    }
                    lemma_assoc_map_remove(old(self).index@, i as int);
                }
            },
            None => {
                proof {
                    lemma_assoc_map_dom(self.index@);
                    assert(self@ =~= old(self)@.remove(key));
                }
            },
        }
    }

    /// What [`Self::grant`] does. With `n = pre@[key] + granted`: at or past
    /// `max_grants` the key is deleted and the call reports `Done`; short of
    /// it the log records `(key, Some(n))`, the index is updated, and the
    /// call reports `NeedsMore`.
    pub open spec fn grant_post(
        pre: Self,
        post: Self,
        key: Recipient,
        granted: u64,
        max_grants: u64,
        r: GrantOutcome,
    ) -> bool {
        let n = (pre@[key] + granted) as u64;
        if n >= max_grants {
            &&& r == GrantOutcome::Done
            &&& post.log_seq() == pre.log_seq().push(LogEntry { key, grants: None })
            &&& post@ == pre@.remove(key)
            &&& post.spec_len() == pre.spec_len() - 1
        } else {
            &&& r == GrantOutcome::NeedsMore
            &&& post.log_seq() == pre.log_seq().push(LogEntry { key, grants: Some(n) })
            &&& post@ == pre@.insert(key, n)
            &&& post.spec_len() == pre.spec_len()
        }
    }

    /// Record `granted` more grants for `key`; report whether it needs more.
    pub fn grant(&mut self, key: Recipient, granted: u64, max_grants: u64) -> (r: GrantOutcome)
        requires
            old(self).wf(),
            old(self)@.dom().contains(key),
            old(self)@[key] + granted <= u64::MAX,
        ensures
            final(self).wf(),
            Self::grant_post(*old(self), *final(self), key, granted, max_grants, r),
    {
        proof {
            lemma_assoc_map_dom(self.index@);
        }
        match find_key(&self.index, key) {
            Some(i) => {
                proof {
                    lemma_assoc_map_index(self.index@, i as int);
                }
                let n = self.index[i].1 + granted;
                if n >= max_grants {
                    self.remove(key);
                    GrantOutcome::Done
                } else {
                    self.log.push(LogEntry { key, grants: Some(n) });
                    self.index[i] = (key, n);
                    proof {
                        lemma_assoc_map_update(old(self).index@, i as int, n);
                        assert(self.log@.drop_last() =~= old(self).log@);
                        assert(self.index@ =~= old(self).index@.update(i as int, (key, n)));
                    }
                    GrantOutcome::NeedsMore
                }
            },
            None => {
                proof {
                    assert(false);
                }
                GrantOutcome::Done
            },
        }
    }

    /// What [`Self::accept`] does: refuse with `QueueFull` when the index is
    /// at the admission bound, with `AlreadyInQueue` when the key is already
    /// pending — in both cases nothing is written — and otherwise insert the
    /// key as [`Self::insert_post`] says.
    pub open spec fn accept_post(
        pre: Self,
        post: Self,
        key: Recipient,
        max_len: Option<usize>,
        r: Result<(), FaucetError>,
    ) -> bool {
        if max_len is Some && pre.spec_len() >= max_len->0 {
            &&& r == Result::<(), FaucetError>::Err(FaucetError::QueueFull { max_len: max_len->0 })
            &&& post == pre
        } else if pre@.dom().contains(key) {
            &&& r == Result::<(), FaucetError>::Err(FaucetError::AlreadyInQueue { key })
            &&& post == pre
        } else {
            &&& r == Result::<(), FaucetError>::Ok(())
            &&& post.log_seq() == pre.log_seq().push(LogEntry { key, grants: Some(0) })
            &&& post@ == pre@.insert(key, 0)
            &&& post.spec_len() == pre.spec_len() + 1
        }
    }

    /// Admission check and insert, as the request endpoint performs it.
    pub fn accept(&mut self, key: Recipient, max_len: Option<usize>) -> (r: Result<
        (),
        FaucetError,
    >)
        requires
            old(self).wf(),
        ensures
            final(self).wf(),
            Self::accept_post(*old(self), *final(self), key, max_len, r),
    {
        if let Some(m) = max_len {
            if self.index.len() >= m {
                return Err(FaucetError::QueueFull { max_len: m });
            }
        }
        match self.insert(key) {
            InsertOutcome::AlreadyPresent => Err(FaucetError::AlreadyInQueue { key }),
            InsertOutcome::Inserted => Ok(()),
        }
    }

    /// Number of entries ever appended to the log.
    pub fn log_len(&self) -> (r: usize)
        ensures
            r == self.log_seq().len(),
    {
        self.log.len()
    }

    /// The log entry at position `i`.
    pub fn log_entry(&self, i: usize) -> (r: LogEntry)
        requires
            i < self.log_seq().len(),
        ensures
            r == self.log_seq()[i as int],
    {
        self.log[i]
    }
}

/// Law: admitting the same key twice yields `Inserted` then `AlreadyPresent`,
/// and the second call appends no log entry.
pub proof fn lemma_insert_twice(
    s0: FaucetQueueIndex,
    s1: FaucetQueueIndex,
    s2: FaucetQueueIndex,
    key: Recipient,
    r1: InsertOutcome,
    r2: InsertOutcome,
)
    requires
        s0.wf(),
        !s0@.dom().contains(key),
        FaucetQueueIndex::insert_post(s0, s1, key, r1),
        FaucetQueueIndex::insert_post(s1, s2, key, r2),
    ensures
        r1 == InsertOutcome::Inserted,
        r2 == InsertOutcome::AlreadyPresent,
        s2.log_seq() == s1.log_seq(),
{
}

} // verus!
