use vstd::prelude::*;

use crate::token::{is_random_uuid, new_uuid};

verus! {

/// How many times tokens are drawn for the missing records before giving up.
pub const MAX_DRAWS: usize = 16;

/// One record of the ledger: the token of the entry at the same position.
#[derive(Clone, Copy, Debug, PartialEq, Eq, Structural)]
pub struct QuizLock {
    pub uuid: u128,
}

/// Why a set of entries could not be reconciled with its ledger.
#[derive(Clone, Copy, Debug, PartialEq, Eq, Structural)]
pub enum ConfigError {
    /// The configuration holds no entry: there is nothing to serve.
    NoQuiz,
    /// Two records that the new ledger would keep hold the same token.
    DuplicateUuid,
    /// Every draw for a new token hit a token already in the ledger.
    UuidExhausted,
}

/// The tokens of a ledger, in order.
pub open spec fn uuids_of(lock: Seq<QuizLock>) -> Seq<u128> {
    lock.map_values(|l: QuizLock| l.uuid)
}

/// No token occurs twice.
pub open spec fn distinct(s: Seq<u128>) -> bool {
    forall|a: int, b: int| 0 <= a < b < s.len() ==> s[a] != s[b]
}

/// How many records of a ledger of length `m` survive against `n` entries.
pub open spec fn kept_len(n: nat, m: nat) -> nat {
    if n <= m {
        n
    } else {
        m
    }
}

/// The error that reconciling `n` entries against `prior` must report, if any
/// (running out of fresh tokens aside).
pub open spec fn reconcile_error(n: nat, prior: Seq<QuizLock>) -> Option<ConfigError> {
    if n == 0 {
        Some(ConfigError::NoQuiz)
    } else if !distinct(uuids_of(prior).take(kept_len(n, prior.len()) as int)) {
        Some(ConfigError::DuplicateUuid)
    } else {
        None
    }
}

/// The tokens dropped when `n` entries meet the ledger `prior`, in the order
/// they are cut: the last record first.
pub open spec fn removed_uuids(n: nat, prior: Seq<QuizLock>) -> Seq<u128> {
    if n < prior.len() {
        Seq::new((prior.len() - n) as nat, |j: int| prior[prior.len() - 1 - j].uuid)
    } else {
        Seq::empty()
    }
}

/// `lock` is a reconciliation of `n` entries against `prior`: one record per
/// entry, the surviving prefix of `prior` unchanged, all tokens distinct, and
/// `removed` the tokens cut from the end of `prior`.
pub open spec fn reconciled(
    n: nat,
    prior: Seq<QuizLock>,
    lock: Seq<QuizLock>,
    removed: Seq<u128>,
) -> bool {
    let k = kept_len(n, prior.len()) as int;
    &&& lock.len() == n
    &&& lock.take(k) == prior.take(k)
    &&& distinct(uuids_of(lock))
    &&& removed == removed_uuids(n, prior)
}

/// Whether some record of `lock` holds `uuid`.
pub fn lock_contains(lock: &Vec<QuizLock>, uuid: u128) -> (r: bool)
    ensures
        r == uuids_of(lock@).contains(uuid),
{
    let mut i: usize = 0;
    while i < lock.len()
        invariant
            i <= lock.len(),
            forall|a: int| 0 <= a < i ==> lock@[a].uuid != uuid,
        decreases lock.len() - i,
    {
        if lock[i].uuid == uuid {
            assert(uuids_of(lock@)[i as int] == uuid);
            return true;
        }
        i += 1;
    }
    assert forall|a: int| 0 <= a < uuids_of(lock@).len() implies uuids_of(lock@)[a] != uuid by {
        assert(uuids_of(lock@)[a] == lock@[a].uuid);
    }
    false
}

/// Whether the first `k` records of `lock` hold pairwise distinct tokens.
pub fn distinct_prefix(lock: &Vec<QuizLock>, k: usize) -> (r: bool)
    requires
        k <= lock.len(),
    ensures
        r == distinct(uuids_of(lock@).take(k as int)),
{
    let ghost s = uuids_of(lock@).take(k as int);
    assert forall|a: int| 0 <= a < k implies s[a] == lock@[a].uuid by {}
    let mut i: usize = 0;
    while i < k
        invariant
            i <= k <= lock.len(),
            s == uuids_of(lock@).take(k as int),
            s.len() == k,
            forall|a: int| 0 <= a < k ==> s[a] == lock@[a].uuid,
            forall|a: int, b: int| 0 <= a < b < i ==> s[a] != s[b],
        decreases k - i,
    {
        let mut j: usize = 0;
        while j < i
            invariant
                j <= i < k <= lock.len(),
                s == uuids_of(lock@).take(k as int),
                s.len() == k,
                forall|a: int| 0 <= a < k ==> s[a] == lock@[a].uuid,
                forall|a: int, b: int| 0 <= a < b < i ==> s[a] != s[b],
                forall|a: int| 0 <= a < j ==> s[a] != s[i as int],
            decreases i - j,
        {
            if lock[j].uuid == lock[i].uuid {
                assert(s[j as int] == s[i as int]);
                return false;
            }
            j += 1;
        }
        i += 1;
    }
    true
}

/// Draws `count` random tokens.
pub fn draw_uuids(count: usize) -> (r: Vec<u128>)
    ensures
        r.len() == count,
        forall|i: int| 0 <= i < count ==> is_random_uuid(#[trigger] r@[i]),
{
    let mut r: Vec<u128> = Vec::new();
    while r.len() < count
        invariant
            r.len() <= count,
            forall|i: int| 0 <= i < r.len() ==> is_random_uuid(#[trigger] r@[i]),
        decreases count - r.len(),
    {
        r.push(new_uuid());
    }
    r
}

/// Adding a token that a ledger does not hold keeps its tokens distinct.
proof fn lemma_push_fresh(s: Seq<QuizLock>, u: u128)
    requires
        distinct(uuids_of(s)),
        !uuids_of(s).contains(u),
    ensures
        uuids_of(s.push(QuizLock { uuid: u })) == uuids_of(s).push(u),
        distinct(uuids_of(s.push(QuizLock { uuid: u }))),
{
    let t = s.push(QuizLock { uuid: u });
    assert(uuids_of(t) =~= uuids_of(s).push(u));
    assert forall|a: int, b: int| 0 <= a < b < t.len() implies uuids_of(t)[a] != uuids_of(t)[b] by {
        if b == s.len() {
            assert(uuids_of(s)[a] == uuids_of(t)[a]);
        }
    }
}

/// The candidates are fresh for `lock` and enough to fill it to `n`: no two
/// alike, none already in `lock`, at least as many as records are missing.
pub open spec fn fresh_for(candidates: Seq<u128>, lock: Seq<QuizLock>, n: nat) -> bool {
    &&& candidates.no_duplicates()
    &&& forall|j: int| 0 <= j < candidates.len() ==> !uuids_of(lock).contains(#[trigger] candidates[j])
    &&& candidates.len() + lock.len() >= n
}

/// Appends to `lock`, in order, each candidate token that it does not hold
/// yet, until it holds `n` records. Returns whether it got there before the
/// candidates ran out. With fresh candidates the new records are exactly the
/// first candidates.
pub fn extend_lock(lock: &mut Vec<QuizLock>, n: usize, candidates: &Vec<u128>) -> (r: bool)
    requires
        distinct(uuids_of(old(lock)@)),
        old(lock).len() <= n,
    ensures
        final(lock)@.take(old(lock).len() as int) == old(lock)@,
        old(lock).len() <= final(lock).len() <= n,
        distinct(uuids_of(final(lock)@)),
        r == (final(lock).len() == n),
        forall|i: int|
            old(lock).len() <= i < final(lock).len() ==> candidates@.contains(
                #[trigger] final(lock)@[i].uuid,
            ),
        fresh_for(candidates@, old(lock)@, n as nat) ==> r && uuids_of(final(lock)@) == uuids_of(
            old(lock)@,
        ) + candidates@.take(n - old(lock).len()),
{
    let ghost start = lock@;
    let ghost m = lock.len();
    let ghost fresh = fresh_for(candidates@, start, n as nat);
    let mut i: usize = 0;
    while i < candidates.len() && lock.len() < n
        invariant
            lock@.take(m as int) == start,
            m <= lock.len() <= n,
            distinct(uuids_of(lock@)),
            i <= candidates.len(),
            fresh == fresh_for(candidates@, start, n as nat),
            forall|x: int| m <= x < lock.len() ==> candidates@.contains(#[trigger] lock@[x].uuid),
            fresh ==> lock.len() == m + i && uuids_of(lock@) == uuids_of(start) + candidates@.take(
                i as int,
            ),
        decreases candidates.len() - i,
    {
        let u = candidates[i];
        proof {
            if fresh {
                assert(!uuids_of(lock@).contains(u)) by {
                    if uuids_of(lock@).contains(u) {
                        let x = choose|x: int| 0 <= x < uuids_of(lock@).len() && uuids_of(lock@)[x] == u;
                        if x < m {
                            assert(uuids_of(start)[x] == u);
                            assert(!uuids_of(start).contains(candidates@[i as int]));
                        } else {
                            assert(candidates@.take(i as int)[x - m] == candidates@[x - m]);
                        }
                    }
                }
            }
        }
        if !lock_contains(lock, u) {
            let ghost before = lock@;
            proof {
                lemma_push_fresh(before, u);
            }
            lock.push(QuizLock { uuid: u });
            assert(lock@.take(m as int) =~= before.take(m as int));
            assert(candidates@.contains(lock@[lock.len() - 1].uuid)) by {
                assert(candidates@[i as int] == u);
            }
            assert forall|x: int| m <= x < lock.len() implies candidates@.contains(
                #[trigger] lock@[x].uuid,
            ) by {
                if x < before.len() {
                    assert(before[x] == lock@[x]);
                }
            }
            proof {
                if fresh {
                    assert(candidates@.take(i + 1) =~= candidates@.take(i as int).push(u));
                }
            }
        }
        i += 1;
    }
    proof {
        if fresh {
            assert(candidates@.take(i as int) =~= candidates@.take(n - m));
        }
    }
    lock.len() == n
}

/// With no prior ledger, a reconciliation of `n > 0` entries gives one token
/// per entry, no two alike, and removes nothing.
pub proof fn lemma_fresh_ledger(n: nat, lock: Seq<QuizLock>, removed: Seq<u128>)
    requires
        n > 0,
        reconciled(n, Seq::empty(), lock, removed),
    ensures
        reconcile_error(n, Seq::empty()) is None,
        lock.len() == n,
        distinct(uuids_of(lock)),
        removed.len() == 0,
{
    assert(uuids_of(Seq::<QuizLock>::empty()).take(0) =~= Seq::<u128>::empty());
}

/// Reconciling the same entries again against the ledger just produced is
/// owed no error, keeps every token and removes none.
pub proof fn lemma_reconcile_idempotent(
    n: nat,
    prior: Seq<QuizLock>,
    lock: Seq<QuizLock>,
    removed: Seq<u128>,
    again: Seq<QuizLock>,
    removed_again: Seq<u128>,
)
    requires
        reconcile_error(n, prior) is None,
        reconciled(n, prior, lock, removed),
        reconciled(n, lock, again, removed_again),
    ensures
        reconcile_error(n, lock) is None,
        again == lock,
        removed_again.len() == 0,
{
    assert(uuids_of(lock).take(n as int) =~= uuids_of(lock));
    assert(lock.take(n as int) =~= lock);
    assert(again.take(n as int) =~= again);
}

/// When `k` entries are appended, the prior tokens stay in place and the `k`
/// new ones are distinct from each other and from every prior token.
pub proof fn lemma_grow(prior: Seq<QuizLock>, k: nat, lock: Seq<QuizLock>, removed: Seq<u128>)
    requires
        reconciled(prior.len() + k, prior, lock, removed),
    ensures
        lock.len() == prior.len() + k,
        lock.take(prior.len() as int) == prior,
        distinct(uuids_of(lock.skip(prior.len() as int))),
        forall|i: int|
            prior.len() <= i < lock.len() ==> !uuids_of(prior).contains(#[trigger] lock[i].uuid),
        removed.len() == 0,
{
    let m = prior.len() as int;
    assert(prior.take(m) =~= prior);
    let fresh = uuids_of(lock.skip(m));
    assert forall|a: int, b: int| 0 <= a < b < fresh.len() implies fresh[a] != fresh[b] by {
        assert(fresh[a] == uuids_of(lock)[a + m]);
        assert(fresh[b] == uuids_of(lock)[b + m]);
    }
    assert forall|i: int| prior.len() <= i < lock.len() implies !uuids_of(prior).contains(
        #[trigger] lock[i].uuid,
    ) by {
        if uuids_of(prior).contains(lock[i].uuid) {
            let j = choose|j: int| 0 <= j < m && uuids_of(prior)[j] == lock[i].uuid;
            assert(lock.take(m)[j] == lock[j]);
            assert(uuids_of(lock)[j] == uuids_of(lock)[i]);
        }
    }
}

/// When the last `k` entries go, the first tokens stay as they were and
/// exactly the last `k` tokens are reported removed, the last one first.
pub proof fn lemma_shrink(prior: Seq<QuizLock>, k: nat, lock: Seq<QuizLock>, removed: Seq<u128>)
    requires
        k <= prior.len(),
        reconciled((prior.len() - k) as nat, prior, lock, removed),
    ensures
        lock == prior.take(prior.len() - k),
        removed.len() == k,
        forall|j: int| 0 <= j < k ==> #[trigger] removed[j] == uuids_of(prior)[prior.len() - 1 - j],
{
    let n = prior.len() - k;
    assert(lock.take(n) =~= lock);
}

} // verus!
