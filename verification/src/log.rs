//! The append-only request log and its mathematical reading.
//!
//! The persistent queue is a log of entries `(key, Some(n))` (upsert) and
//! `(key, None)` (delete). Two spec functions give the log its meaning:
//! [`fold_log`], the map the log denotes, and [`pending_keys`], the order in
//! which still-pending keys must be fed back to the request channel after a
//! restart.

use vstd::prelude::*;

use crate::types::Recipient;

verus! {

/// One entry of the append-only request log.
///
/// `grants == Some(n)` sets the key's counter to `n`; `grants == None`
/// removes the key from the index.
#[derive(Clone, Copy, Debug, PartialEq, Eq)]
pub struct LogEntry {
    pub key: Recipient,
    pub grants: Option<u64>,
}

/// The map a log denotes: its left-fold, applying upserts and deletes in
/// order.
pub open spec fn fold_log(s: Seq<LogEntry>) -> Map<Recipient, u64>
    decreases s.len(),
{
    if s.len() == 0 {
        Map::empty()
    } else {
        let m = fold_log(s.drop_last());
        match s.last().grants {
            Some(n) => m.insert(s.last().key, n),
            None => m.remove(s.last().key),
        }
    }
}

/// `s` with every occurrence of `k` taken out, the order of the rest kept.
pub open spec fn remove_key(s: Seq<Recipient>, k: Recipient) -> Seq<Recipient>
    decreases s.len(),
{
    if s.len() == 0 {
        Seq::empty()
    } else if s.last() == k {
        remove_key(s.drop_last(), k)
    } else {
        remove_key(s.drop_last(), k).push(s.last())
    }
}

/// The keys a recovered request channel must hold, in order.
///
/// A key is pending when its most recent `Some(0)` entry — the mark of its
/// admission — has no more recent `None` entry; pending keys are ordered by
/// the position of that entry. Folding left, a `Some(0)` entry moves its key
/// to the back, a `None` entry drops it, and a `Some(n)` with `n > 0` leaves
/// the order alone.
pub open spec fn pending_keys(s: Seq<LogEntry>) -> Seq<Recipient>
    decreases s.len(),
{
    if s.len() == 0 {
        Seq::empty()
    } else {
        let p = pending_keys(s.drop_last());
        let e = s.last();
        match e.grants {
            Some(n) => if n == 0 {
                remove_key(p, e.key).push(e.key)
            } else {
                p
            },
            None => remove_key(p, e.key),
        }
    }
}

/// No key occurs twice.
pub open spec fn distinct_keys(s: Seq<Recipient>) -> bool {
    forall|i: int, j: int| 0 <= i < j < s.len() ==> s[i] != s[j]
}

/// Membership in `remove_key(s, k)`: everything of `s` but `k`.
pub proof fn lemma_remove_key_membership(s: Seq<Recipient>, k: Recipient)
    ensures
        forall|x: Recipient| #[trigger] remove_key(s, k).contains(x) <==> s.contains(x) && x != k,
    decreases s.len(),
{
    if s.len() > 0 {
        lemma_remove_key_membership(s.drop_last(), k);
        assert forall|x: Recipient| #[trigger] remove_key(s, k).contains(x) implies s.contains(
            x,
        ) && x != k by {
            if s.last() != k && remove_key(s, k).last() == x {
                assert(s.contains(x)) by {
                    assert(s[s.len() - 1] == x);
                }
            } else {
                let p = remove_key(s.drop_last(), k);
                if s.last() == k {
                    assert(p.contains(x));
                } else {
                    let i = choose|i: int| 0 <= i < remove_key(s, k).len() && remove_key(s, k)[i] == x;
                    if i < p.len() {
                        assert(p.contains(x)) by {
                            assert(p[i] == x);
                        }
                    }
                }
                if p.contains(x) {
                    assert(s.drop_last().contains(x));
                    let j = choose|j: int| 0 <= j < s.drop_last().len() && s.drop_last()[j] == x;
                    assert(s[j] == x);
                }
            }
        }
        assert forall|x: Recipient| s.contains(x) && x != k implies #[trigger] remove_key(
            s,
            k,
        ).contains(x) by {
            let i = choose|i: int| 0 <= i < s.len() && s[i] == x;
            if i < s.len() - 1 {
                assert(s.drop_last()[i] == x);
                assert(s.drop_last().contains(x));
                assert(remove_key(s.drop_last(), k).contains(x));
                if s.last() != k {
                    let p = remove_key(s.drop_last(), k);
                    let j = choose|j: int| 0 <= j < p.len() && p[j] == x;
                    assert(remove_key(s, k)[j] == x);
                }
            } else {
                assert(s.last() == x && x != k);
                assert(remove_key(s, k).last() == x);
            }
        }
    }
}

/// Removing an absent key changes nothing.
pub proof fn lemma_remove_key_absent(s: Seq<Recipient>, k: Recipient)
    requires
        !s.contains(k),
    ensures
        remove_key(s, k) == s,
    decreases s.len(),
{
    if s.len() > 0 {
        assert(s.last() != k) by {
            assert(s[s.len() - 1] == s.last());
        }
        assert(!s.drop_last().contains(k)) by {
            if s.drop_last().contains(k) {
                let i = choose|i: int| 0 <= i < s.drop_last().len() && s.drop_last()[i] == k;
                assert(s[i] == k);
            }
        }
        lemma_remove_key_absent(s.drop_last(), k);
        assert(remove_key(s, k) =~= s);
    }
}

/// With distinct keys, removing key `s[i]` is removal at index `i`.
pub proof fn lemma_remove_key_at(s: Seq<Recipient>, i: int)
    requires
        distinct_keys(s),
        0 <= i < s.len(),
    ensures
        remove_key(s, s[i]) == s.remove(i),
    decreases s.len(),
{
    let k = s[i];
    s.remove_ensures(i);
    if i == s.len() - 1 {
        assert(s.last() == k);
        assert(!s.drop_last().contains(k)) by {
            if s.drop_last().contains(k) {
                let j = choose|j: int| 0 <= j < s.drop_last().len() && s.drop_last()[j] == k;
                assert(s[j] == k && s[i] == k);
            }
        }
        lemma_remove_key_absent(s.drop_last(), k);
        assert(remove_key(s, k) =~= s.remove(i));
    } else {
        assert(distinct_keys(s.drop_last()));
        assert(s.drop_last()[i] == k);
        lemma_remove_key_at(s.drop_last(), i);
        s.drop_last().remove_ensures(i);
        assert(s.last() != k) by {
            assert(s[s.len() - 1] == s.last() && s[i] == k);
        }
        assert(remove_key(s, k) == s.drop_last().remove(i).push(s.last()));
        assert(s.drop_last().remove(i).push(s.last()) =~= s.remove(i));
    }
}

/// `remove_key` keeps keys distinct.
pub proof fn lemma_remove_key_distinct(s: Seq<Recipient>, k: Recipient)
    requires
        distinct_keys(s),
    ensures
        distinct_keys(remove_key(s, k)),
    decreases s.len(),
{
    if s.len() > 0 {
        assert(distinct_keys(s.drop_last())) by {
            assert(forall|i: int, j: int|
                0 <= i < j < s.drop_last().len() ==> s.drop_last()[i] == s[i] && s.drop_last()[j]
                    == s[j]);
        }
        lemma_remove_key_distinct(s.drop_last(), k);
        if s.last() != k {
            let p = remove_key(s.drop_last(), k);
            lemma_remove_key_membership(s.drop_last(), k);
            assert(!p.contains(s.last())) by {
                if s.drop_last().contains(s.last()) {
                    let i = choose|i: int|
                        0 <= i < s.drop_last().len() && s.drop_last()[i] == s.last();
                    assert(s[i] == s.last() && s[s.len() - 1] == s.last());
                }
            }
            assert forall|i: int, j: int|
                0 <= i < j < remove_key(s, k).len() implies remove_key(s, k)[i] != remove_key(
                s,
                k,
            )[j] by {
                if j == p.len() {
                    assert(remove_key(s, k)[j] == s.last());
                    assert(p[i] == remove_key(s, k)[i]);
                    assert(p.contains(p[i]));
                    assert(p[i] != s.last());
                }
            }
        }
    }
}

/// The pending keys are distinct.
pub proof fn lemma_pending_keys_distinct(s: Seq<LogEntry>)
    ensures
        distinct_keys(pending_keys(s)),
    decreases s.len(),
{
    if s.len() > 0 {
        lemma_pending_keys_distinct(s.drop_last());
        let p = pending_keys(s.drop_last());
        let e = s.last();
        match e.grants {
            Some(n) => {
                if n == 0 {
                    lemma_remove_key_distinct(p, e.key);
                    lemma_remove_key_membership(p, e.key);
                    let q = remove_key(p, e.key);
                    assert forall|i: int, j: int|
                        0 <= i < j < pending_keys(s).len() implies pending_keys(s)[i]
                        != pending_keys(s)[j] by {
                        if j == q.len() {
                            assert(pending_keys(s)[j] == e.key);
                            assert(q[i] == pending_keys(s)[i]);
                            assert(q.contains(q[i]));
                        }
                    }
                }
            },
            None => {
                lemma_remove_key_distinct(p, e.key);
            },
        }
    }
}

/// Every pending key is in the fold of the log.
pub proof fn lemma_pending_keys_in_fold(s: Seq<LogEntry>)
    ensures
        forall|k: Recipient| #[trigger]
            pending_keys(s).contains(k) ==> fold_log(s).dom().contains(k),
    decreases s.len(),
{
    if s.len() > 0 {
        lemma_pending_keys_in_fold(s.drop_last());
        let p = pending_keys(s.drop_last());
        let e = s.last();
        assert forall|k: Recipient| #[trigger]
            pending_keys(s).contains(k) implies fold_log(s).dom().contains(k) by {
            match e.grants {
                Some(n) => {
                    if n == 0 {
                        let q = remove_key(p, e.key);
                        if k != e.key {
                            lemma_remove_key_membership(p, e.key);
                            let i = choose|i: int|
                                0 <= i < pending_keys(s).len() && pending_keys(s)[i] == k;
                            assert(i < q.len());
                            assert(q[i] == k);
                            assert(q.contains(k));
                        }
                    }
                },
                None => {
                    lemma_remove_key_membership(p, e.key);
                },
            }
        }
    }
}

} // verus!
