//! The shared request queue: the persistent index together with the FIFO
//! request channel that workers drain.
//!
//! The channel here is the mathematical order of pending requests — a
//! sequence of `(key, grants_given)` pairs. The surrounding process mirrors
//! it onto a multi-producer/multi-consumer channel; every way that channel is
//! touched goes through one of the operations below, so the invariants proved
//! here (each pending key queued at most once, every queued pair consistent
//! with the index, every counter below `num_grants`) hold of the running
//! system's channel as well.

use vstd::prelude::*;

use crate::index::{FaucetQueueIndex, GrantOutcome};
use crate::log::{
    distinct_keys, fold_log, lemma_pending_keys_distinct, lemma_pending_keys_in_fold,
    lemma_remove_key_absent, lemma_remove_key_at, lemma_remove_key_distinct,
    lemma_remove_key_membership, pending_keys, remove_key, LogEntry,
};
use crate::types::{FaucetError, Recipient};

verus! {

/// Linear search for a key in the channel order.
fn find_recipient(v: &Vec<Recipient>, key: Recipient) -> (r: Option<usize>)
    ensures
        match r {
            Some(i) => i < v@.len() && v@[i as int] == key,
            None => !v@.contains(key),
        },
{
    let mut i: usize = 0;
    while i < v.len()
        invariant
            i <= v@.len(),
            forall|j: int| 0 <= j < i ==> v@[j] != key,
        decreases v@.len() - i,
    {
        if v[i] == key {
            return Some(i);
        }
        i = i + 1;
    }
    proof {
        if v@.contains(key) {
            let j = choose|j: int| 0 <= j < v@.len() && v@[j] == key;
        }
    }
    None
}

/// Replay a log to recover the order of still-pending keys, as
/// [`pending_keys`] defines it: a `Some(0)` entry moves its key to the back
/// of the queue, a `None` entry drops it, any other entry leaves the order
/// alone.
fn replay_pending(entries: &Vec<LogEntry>) -> (r: Vec<Recipient>)
    ensures
        r@ == pending_keys(entries@),
        distinct_keys(r@),
{
    let mut chan: Vec<Recipient> = Vec::new();
    let mut i: usize = 0;
    while i < entries.len()
        invariant
            i <= entries@.len(),
            chan@ == pending_keys(entries@.subrange(0, i as int)),
            distinct_keys(chan@),
        decreases entries@.len() - i,
    {
        let ghost prefix = entries@.subrange(0, i as int);
        let e = entries[i];
        proof {
            assert(entries@.subrange(0, i + 1).drop_last() =~= prefix);
            assert(entries@.subrange(0, i + 1).last() == e);
        }
        let is_enqueue = match e.grants {
            Some(n) => n == 0,
            None => false,
        };
        let is_delete = e.grants.is_none();
        if is_enqueue || is_delete {
            match find_recipient(&chan, e.key) {
                Some(j) => {
                    proof {
                        lemma_remove_key_at(chan@, j as int);
                        chan@.remove_ensures(j as int);
                    }
                    chan.remove(j);
                },
                None => {
                    proof {
                        lemma_remove_key_absent(chan@, e.key);
                    }
                },
            }
            proof {
                assert(chan@ == remove_key(pending_keys(prefix), e.key));
            }
            if is_enqueue {
                proof {
                    lemma_remove_key_membership(pending_keys(prefix), e.key);
                    lemma_remove_key_distinct(pending_keys(prefix), e.key);
                }
                chan.push(e.key);
                proof {
                    assert forall|p: int, q: int| 0 <= p < q < chan@.len() implies chan@[p]
                        != chan@[q] by {
                        if q == chan@.len() - 1 {
                            let rk = remove_key(pending_keys(prefix), e.key);
                            assert(chan@[p] == rk[p]);
                            assert(rk.contains(rk[p]));
                        }
                    }
                }
            } else {
                proof {
                    lemma_remove_key_distinct(pending_keys(prefix), e.key);
                }
            }
        }
        i = i + 1;
    }
    proof {
        assert(entries@.subrange(0, entries@.len() as int) =~= entries@);
    }
    chan
}

/// The request queue: persistent index plus the FIFO order of pending
/// requests.
pub struct FaucetQueue {
    index: FaucetQueueIndex,
    channel: Vec<(Recipient, u64)>,
    max_len: Option<usize>,
    num_grants: u64,
}

impl View for FaucetQueue {
    type V = Map<Recipient, u64>;

    closed spec fn view(&self) -> Map<Recipient, u64> {
        self.index@
    }
}

impl FaucetQueue {
    /// The full sequence of log entries appended so far.
    pub closed spec fn log_seq(self) -> Seq<LogEntry> {
        self.index.log_seq()
    }

    /// The pending requests, oldest first.
    pub closed spec fn channel_view(self) -> Seq<(Recipient, u64)> {
        self.channel@
    }

    /// The admission bound, if one was configured.
    pub closed spec fn spec_max_len(self) -> Option<usize> {
        self.max_len
    }

    /// The number of grants each request is owed in total.
    pub closed spec fn spec_num_grants(self) -> u64 {
        self.num_grants
    }

    /// Number of keys in the index.
    pub closed spec fn spec_len(self) -> nat {
        self.index.spec_len()
    }

    /// Well-formed: the index folds from the log; every counter is below
    /// `num_grants`; no key is queued twice; and every queued pair carries
    /// the counter the index holds for its key.
    pub closed spec fn wf(self) -> bool {
        &&& self.index.wf()
        &&& self.num_grants >= 1
        &&& forall|k: Recipient| #[trigger]
            self.index@.dom().contains(k) ==> self.index@[k] < self.num_grants
        &&& forall|i: int, j: int|
            0 <= i < j < self.channel@.len() ==> self.channel@[i].0 != self.channel@[j].0
        &&& forall|i: int|
            0 <= i < self.channel@.len() ==> #[trigger] self.index@.dom().contains(
                self.channel@[i].0,
            ) && self.index@[self.channel@[i].0] == self.channel@[i].1
    }

    /// Law: every counter in the in-memory index lies in `[0, num_grants)`.
    pub proof fn lemma_index_bounded(self)
        requires
            self.wf(),
        ensures
            forall|k: Recipient| #[trigger]
                self@.dom().contains(k) ==> 0 <= self@[k] < self.spec_num_grants(),
    {
    }

    /// Law: the in-memory index equals the left-fold of the append log, so
    /// replaying the queue's own log into an empty index reproduces it.
    pub proof fn lemma_index_is_fold_of_log(self)
        requires
            self.wf(),
        ensures
            self@ == fold_log(self.log_seq()),
    {
        self.index.lemma_index_is_fold_of_log();
    }

    /// Law: no key sits in the request channel twice, and every queued pair
    /// carries the counter the index holds for its key. Workers take keys
    /// only from the channel, so no two workers are handed the same key.
    pub proof fn lemma_channel_consistent(self)
        requires
            self.wf(),
        ensures
            forall|i: int, j: int|
                0 <= i < j < self.channel_view().len() ==> self.channel_view()[i].0
                    != self.channel_view()[j].0,
            forall|i: int|
                0 <= i < self.channel_view().len() ==> #[trigger] self@.dom().contains(
                    self.channel_view()[i].0,
                ) && self@[self.channel_view()[i].0] == self.channel_view()[i].1,
    {
    }

    /// Recover a queue from a persisted log, as after a restart.
    ///
    /// The index becomes the left-fold of the log. The channel is seeded
    /// with exactly the keys whose most recent `Some(0)` entry has no more
    /// recent `None` entry, in the order of those entries, each paired with
    /// its recovered counter.
    pub fn load(entries: Vec<LogEntry>, max_len: Option<usize>, num_grants: u64) -> (r: Self)
        requires
            num_grants >= 1,
            forall|k: Recipient| #[trigger]
                fold_log(entries@).dom().contains(k) ==> fold_log(entries@)[k] < num_grants,
        ensures
            r.wf(),
            r@ == fold_log(entries@),
            r.log_seq() == entries@,
            r.spec_max_len() == max_len,
            r.spec_num_grants() == num_grants,
            r.channel_view().len() == pending_keys(entries@).len(),
            forall|i: int|
                0 <= i < r.channel_view().len() ==> #[trigger] r.channel_view()[i]
                    == (pending_keys(entries@)[i], fold_log(entries@)[pending_keys(entries@)[i]]),
    {
        let ghost entries_seq = entries@;
        let pending = replay_pending(&entries);
        let index = FaucetQueueIndex::load(entries);
        proof {
            lemma_pending_keys_in_fold(entries_seq);
            lemma_pending_keys_distinct(entries_seq);
        }
        let mut channel: Vec<(Recipient, u64)> = Vec::new();
        let mut i: usize = 0;
        while i < pending.len()
            invariant
                i <= pending@.len(),
                index.wf(),
                index@ == fold_log(entries_seq),
                pending@ == pending_keys(entries_seq),
                distinct_keys(pending@),
                forall|k: Recipient| #[trigger]
                    pending_keys(entries_seq).contains(k) ==> fold_log(
                        entries_seq,
                    ).dom().contains(k),
                channel@.len() == i,
                forall|j: int|
                    0 <= j < i ==> #[trigger] channel@[j] == (
                        pending@[j],
                        fold_log(entries_seq)[pending@[j]],
                    ),
            decreases pending@.len() - i,
        {
            let k = pending[i];
            proof {
                assert(pending@.contains(k)) by {
                    assert(pending@[i as int] == k);
                }
            }
            let g = index.grants(k);
            channel.push((k, g));
            i = i + 1;
        }
        let r = FaucetQueue { index, channel, max_len, num_grants };
        proof {
            assert forall|a: int, b: int| 0 <= a < b < r.channel@.len() implies r.channel@[a].0
                != r.channel@[b].0 by {
                assert(r.channel@[a] == (pending@[a], fold_log(entries_seq)[pending@[a]]));
                assert(r.channel@[b] == (pending@[b], fold_log(entries_seq)[pending@[b]]));
            }
            assert forall|a: int| 0 <= a < r.channel@.len() implies #[trigger] r.index@.dom().contains(
                r.channel@[a].0,
            ) && r.index@[r.channel@[a].0] == r.channel@[a].1 by {
                assert(r.channel@[a] == (pending@[a], fold_log(entries_seq)[pending@[a]]));
                assert(pending_keys(entries_seq).contains(pending@[a])) by {
                    assert(pending_keys(entries_seq)[a] == pending@[a]);
                }
            }
        }
        r
    }

    /// What [`Self::push`] does: admission is refused with `QueueFull` at
    /// the bound and `AlreadyInQueue` on a duplicate, with nothing written;
    /// otherwise the key is persisted with counter 0 and queued at the back
    /// of the channel.
    pub open spec fn push_post(
        pre: Self,
        post: Self,
        key: Recipient,
        r: Result<(), FaucetError>,
    ) -> bool {
        &&& post.spec_max_len() == pre.spec_max_len()
        &&& post.spec_num_grants() == pre.spec_num_grants()
        &&& if pre.spec_max_len() is Some && pre.spec_len() >= pre.spec_max_len()->0 {
            &&& r == Result::<(), FaucetError>::Err(
                FaucetError::QueueFull { max_len: pre.spec_max_len()->0 },
            )
            &&& post == pre
        } else if pre@.dom().contains(key) {
            &&& r == Result::<(), FaucetError>::Err(FaucetError::AlreadyInQueue { key })
            &&& post == pre
        } else {
            &&& r == Result::<(), FaucetError>::Ok(())
            &&& post@ == pre@.insert(key, 0)
            &&& post.log_seq() == pre.log_seq().push(LogEntry { key, grants: Some(0) })
            &&& post.channel_view() == pre.channel_view().push((key, 0))
            &&& post.spec_len() == pre.spec_len() + 1
        }
    }

    /// Admit a new request: persist it in the index and queue it.
    pub fn push(&mut self, key: Recipient) -> (r: Result<(), FaucetError>)
        requires
            old(self).wf(),
        ensures
            final(self).wf(),
            Self::push_post(*old(self), *final(self), key, r),
    {
        let max_len = self.max_len;
        match self.index.accept(key, max_len) {
            Ok(()) => {
                self.channel.push((key, 0));
                proof {
                    assert forall|i: int, j: int|
                        0 <= i < j < self.channel@.len() implies self.channel@[i].0
                        != self.channel@[j].0 by {
                        if j == self.channel@.len() - 1 {
                            assert(old(self).index@.dom().contains(old(self).channel@[i].0));
                        }
                    }
                }
                Ok(())
            },
            Err(e) => Err(e),
        }
    }

    /// What [`Self::pop`] does: take the oldest pending request off the
    /// channel; report `None` only when the channel is empty. The popped key
    /// is no longer queued — the caller is its only holder.
    pub open spec fn pop_post(pre: Self, post: Self, r: Option<(Recipient, u64)>) -> bool {
        &&& post@ == pre@
        &&& post.log_seq() == pre.log_seq()
        &&& post.spec_max_len() == pre.spec_max_len()
        &&& post.spec_num_grants() == pre.spec_num_grants()
        &&& if pre.channel_view().len() == 0 {
            &&& r is None
            &&& post == pre
        } else {
            &&& r == Some(pre.channel_view()[0])
            &&& post.channel_view() == pre.channel_view().subrange(
                1,
                pre.channel_view().len() as int,
            )
            &&& forall|i: int|
                0 <= i < post.channel_view().len() ==> #[trigger] post.channel_view()[i].0
                    != pre.channel_view()[0].0
        }
    }

    /// Take the next pending request, if any.
    pub fn pop(&mut self) -> (r: Option<(Recipient, u64)>)
        requires
            old(self).wf(),
        ensures
            final(self).wf(),
            Self::pop_post(*old(self), *final(self), r),
    {
        if self.channel.len() == 0 {
            None
        } else {
            let p = self.channel.remove(0);
            proof {
                old(self).channel@.remove_ensures(0);
                assert(self.channel@ =~= old(self).channel@.subrange(
                    1,
                    old(self).channel@.len() as int,
                ));
            }
            Some(p)
        }
    }

    /// What [`Self::grant`] does: record the grants in the index as
    /// [`FaucetQueueIndex::grant_post`] with `max_grants = num_grants`; the
    /// channel is untouched.
    pub open spec fn grant_post(
        pre: Self,
        post: Self,
        key: Recipient,
        granted: u64,
        r: GrantOutcome,
    ) -> bool {
        let n = (pre@[key] + granted) as u64;
        &&& post.channel_view() == pre.channel_view()
        &&& post.spec_max_len() == pre.spec_max_len()
        &&& post.spec_num_grants() == pre.spec_num_grants()
        &&& if n >= pre.spec_num_grants() {
            &&& r == GrantOutcome::Done
            &&& post.log_seq() == pre.log_seq().push(LogEntry { key, grants: None })
            &&& post@ == pre@.remove(key)
            &&& post.spec_len() == pre.spec_len() - 1
        } else {
            &&& r == GrantOutcome::NeedsMore
            &&& post.log_seq() == pre.log_seq().push(LogEntry { key, grants: Some(n) })
            &&& post@ == pre@.insert(key, n)
            &&& post.spec_len() == pre.spec_len()
        }
    }

    /// Record `granted` more grants for `key` after a successful transfer.
    ///
    /// Only the worker serving `key` calls this, so `key` is not on the
    /// channel while it happens.
    pub fn grant(&mut self, key: Recipient, granted: u64) -> (r: GrantOutcome)
        requires
            old(self).wf(),
            old(self)@.dom().contains(key),
            old(self)@[key] + granted <= u64::MAX,
            forall|i: int|
                0 <= i < old(self).channel_view().len() ==> #[trigger] old(
                    self,
                ).channel_view()[i].0 != key,
        ensures
            final(self).wf(),
            Self::grant_post(*old(self), *final(self), key, granted, r),
    {
        let num_grants = self.num_grants;
        let r = self.index.grant(key, granted, num_grants);
        proof {
            assert forall|i: int|
                0 <= i < self.channel@.len() implies #[trigger] self.index@.dom().contains(
                self.channel@[i].0,
            ) && self.index@[self.channel@[i].0] == self.channel@[i].1 by {
                assert(old(self).channel_view()[i].0 != key);
                assert(old(self).index@.dom().contains(old(self).channel@[i].0));
            }
        }
        r
    }

    /// Re-queue a failed request with the counter the index holds for it.
    ///
    /// Called by the worker serving `key` after a transfer error, so `key`
    /// is not on the channel while it happens.
    pub fn fail(&mut self, key: Recipient)
        requires
            old(self).wf(),
            old(self)@.dom().contains(key),
            forall|i: int|
                0 <= i < old(self).channel_view().len() ==> #[trigger] old(
                    self,
                ).channel_view()[i].0 != key,
        ensures
            final(self).wf(),
            final(self)@ == old(self)@,
            final(self).log_seq() == old(self).log_seq(),
            final(self).spec_max_len() == old(self).spec_max_len(),
            final(self).spec_num_grants() == old(self).spec_num_grants(),
            final(self).channel_view() == old(self).channel_view().push((key, old(self)@[key])),
    {
        let g = self.index.grants(key);
        self.channel.push((key, g));
        proof {
            assert forall|i: int, j: int|
                0 <= i < j < self.channel@.len() implies self.channel@[i].0
                != self.channel@[j].0 by {
                if j == self.channel@.len() - 1 {
                    assert(old(self).channel_view()[i].0 != key);
                }
            }
        }
    }

    /// Number of keys currently in the index.
    pub fn len(&self) -> (r: usize)
        ensures
            r == self.spec_len(),
    {
        self.index.len()
    }

    /// Is `key` pending (admitted and not yet fully served)?
    pub fn contains(&self, key: Recipient) -> (r: bool)
        ensures
            r == self@.dom().contains(key),
    {
        self.index.contains(key)
    }

    /// The number of grants already given to `key`.
    pub fn grants(&self, key: Recipient) -> (r: u64)
        requires
            self.wf(),
            self@.dom().contains(key),
        ensures
            r == self@[key],
    {
        self.index.grants(key)
    }

    /// Number of requests waiting on the channel.
    pub fn channel_len(&self) -> (r: usize)
        ensures
            r == self.channel_view().len(),
    {
        self.channel.len()
    }

    /// Number of entries ever appended to the log.
    pub fn log_len(&self) -> (r: usize)
        ensures
            r == self.log_seq().len(),
    {
        self.index.log_len()
    }

    /// The pending request at channel position `i`, oldest first.
    pub fn channel_entry(&self, i: usize) -> (r: (Recipient, u64))
        requires
            i < self.channel_view().len(),
        ensures
            r == self.channel_view()[i as int],
    {
        self.channel[i]
    }

    /// The log entry at position `i`.
    pub fn log_entry(&self, i: usize) -> (r: LogEntry)
        requires
            i < self.log_seq().len(),
        ensures
            r == self.log_seq()[i as int],
    {
        self.index.log_entry(i)
    }
}

} // verus!
