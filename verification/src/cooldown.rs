//! A per-account cooldown queue: the account's individual withdrawal
//! requests, ordered by release time (ties keep insertion order), together
//! with their running total.
//!
//! An entry is claimable only once its own release time has passed *and*
//! the day bucket it was requested under reports itself funded; a matured
//! but unfunded entry stays queued until liquidity arrives.

use vstd::prelude::*;

use crate::errors::StakeError;
use crate::funding::{bucket_funded_at, DailyFundingQueue, DailyUnbondingBucket};

verus! {

/// One withdrawal request cooling down.
#[derive(Clone, Copy, PartialEq, Eq, Structural, Debug)]
pub struct CooldownEntry {
    /// Principal being withdrawn.
    pub amount: u128,
    /// When the cooldown ends: request time plus the configured unbond time.
    pub release_time: u64,
    /// The day bucket (the request day, rounded down) that must be funded
    /// before this entry can be paid.
    pub bucket_day: u64,
}

/// The total principal held in a sequence of cooldown entries.
pub open spec fn sum_amounts(s: Seq<CooldownEntry>) -> int
    decreases s.len(),
{
    if s.len() == 0 {
        0
    } else {
        s[0].amount + sum_amounts(s.drop_first())
    }
}

pub(crate) proof fn lemma_sum_nonneg(s: Seq<CooldownEntry>)
    ensures
        sum_amounts(s) >= 0,
    decreases s.len(),
{
    if s.len() > 0 {
        lemma_sum_nonneg(s.drop_first());
    }
}

pub(crate) proof fn lemma_sum_concat(a: Seq<CooldownEntry>, b: Seq<CooldownEntry>)
    ensures
        sum_amounts(a + b) == sum_amounts(a) + sum_amounts(b),
    decreases a.len(),
{
    if a.len() == 0 {
        assert(a + b =~= b);
    } else {
        lemma_sum_concat(a.drop_first(), b);
        assert((a + b).drop_first() =~= a.drop_first() + b);
    }
}

/// The queued principal whose release time has passed by `t`.
pub open spec fn sum_matured(s: Seq<CooldownEntry>, t: u64) -> int
    decreases s.len(),
{
    if s.len() == 0 {
        0
    } else {
        (if s[0].release_time <= t {
            s[0].amount as int
        } else {
            0
        }) + sum_matured(s.drop_first(), t)
    }
}

pub(crate) proof fn lemma_sum_matured_concat(a: Seq<CooldownEntry>, b: Seq<CooldownEntry>, t: u64)
    ensures
        sum_matured(a + b, t) == sum_matured(a, t) + sum_matured(b, t),
    decreases a.len(),
{
    if a.len() == 0 {
        assert(a + b =~= b);
    } else {
        lemma_sum_matured_concat(a.drop_first(), b, t);
        assert((a + b).drop_first() =~= a.drop_first() + b);
    }
}

/// Whether `e` may be paid out at time `now` against the day buckets `dq`.
pub open spec fn entry_claimable(
    e: CooldownEntry,
    dq: Seq<DailyUnbondingBucket>,
    now: u64,
) -> bool {
    e.release_time <= now && bucket_funded_at(dq, e.bucket_day)
}

/// How many entries from the front of the queue are claimable in a row:
/// the claim operation stops at the first entry that fails either condition.
pub open spec fn claimable_len(s: Seq<CooldownEntry>, dq: Seq<DailyUnbondingBucket>, now: u64) -> nat
    decreases s.len(),
{
    if s.len() > 0 && entry_claimable(s[0], dq, now) {
        1 + claimable_len(s.drop_first(), dq, now)
    } else {
        0
    }
}

/// The claimable prefix never reaches past the end of the queue.
proof fn lemma_claimable_len_le(s: Seq<CooldownEntry>, dq: Seq<DailyUnbondingBucket>, now: u64)
    ensures
        claimable_len(s, dq, now) <= s.len(),
    decreases s.len(),
{
    if s.len() > 0 && entry_claimable(s[0], dq, now) {
        lemma_claimable_len_le(s.drop_first(), dq, now);
    }
}

/// Every entry inside the claimable prefix is itself claimable.
proof fn lemma_claimable_prefix(
    s: Seq<CooldownEntry>,
    dq: Seq<DailyUnbondingBucket>,
    now: u64,
    j: int,
)
    requires
        0 <= j < claimable_len(s, dq, now),
    ensures
        entry_claimable(s[j], dq, now),
    decreases j,
{
    lemma_claimable_len_le(s, dq, now);
    if j > 0 {
        lemma_claimable_prefix(s.drop_first(), dq, now, j - 1);
        assert(s.drop_first()[j - 1] == s[j]);
    }
}

/// `claimable_len` is exactly the first index that fails the conditions.
proof fn lemma_claimable_len_is(
    s: Seq<CooldownEntry>,
    dq: Seq<DailyUnbondingBucket>,
    now: u64,
    k: int,
)
    requires
        0 <= k <= s.len(),
        forall|j: int| 0 <= j < k ==> entry_claimable(s[j], dq, now),
        k == s.len() || !entry_claimable(s[k], dq, now),
    ensures
        claimable_len(s, dq, now) == k,
    decreases k,
{
    if k == 0 {
    } else {
        lemma_claimable_len_is(s.drop_first(), dq, now, k - 1);
    }
}

/// Claim gating: an entry whose day bucket is not funded is never part of
/// the claimable prefix — however far its release time lies in the past,
/// and however many times the claim runs, it stays in the queue until a
/// later funding call satisfies its bucket.
pub proof fn lemma_claim_gating(
    s: Seq<CooldownEntry>,
    dq: Seq<DailyUnbondingBucket>,
    now: u64,
    i: int,
)
    requires
        0 <= i < s.len(),
        !bucket_funded_at(dq, s[i].bucket_day),
    ensures
        claimable_len(s, dq, now) <= i,
        s.skip(claimable_len(s, dq, now) as int)[i - claimable_len(s, dq, now)] == s[i],
{
    if claimable_len(s, dq, now) > i {
        lemma_claimable_prefix(s, dq, now, i);
    }
}

/// Where a new entry with release time `t` goes: after every queued entry
/// whose release time is not later, so equal release times keep their
/// insertion order.
pub open spec fn cooldown_insert_pos(s: Seq<CooldownEntry>, t: u64) -> int
    decreases s.len(),
{
    if s.len() == 0 || s[0].release_time > t {
        0
    } else {
        1 + cooldown_insert_pos(s.drop_first(), t)
    }
}

proof fn lemma_insert_pos_split(s: Seq<CooldownEntry>, t: u64, i: int)
    requires
        0 <= i <= s.len(),
        forall|j: int| 0 <= j < i ==> s[j].release_time <= t,
        i == s.len() || s[i].release_time > t,
    ensures
        cooldown_insert_pos(s, t) == i,
    decreases i,
{
    if i == 0 {
    } else {
        lemma_insert_pos_split(s.drop_first(), t, i - 1);
    }
}

/// One account's cooldown queue.
pub struct CooldownQueue {
    /// The queued principal in total: always the sum of the entry amounts.
    pub total: u128,
    /// The entries, ascending by release time.
    pub entries: Vec<CooldownEntry>,
}

impl CooldownQueue {
    /// Entries are ordered by release time and `total` carries their sum
    /// (so the sum always fits in a `u128`).
    pub open spec fn wf(&self) -> bool {
        (forall|i: int, j: int|
            0 <= i < j < self.entries@.len() ==> self.entries@[i].release_time
                <= self.entries@[j].release_time) && self.total == sum_amounts(self.entries@)
    }

    /// An empty queue.
    pub fn new() -> (r: CooldownQueue)
        ensures
            r.wf(),
            r.entries@.len() == 0,
            r.total == 0,
    {
        CooldownQueue { total: 0, entries: Vec::new() }
    }

    /// Queues a withdrawal of `amount` releasing at `release_time`, gated on
    /// the bucket for `bucket_day`. Rejected only when the queue total would
    /// exceed the `u128` range, in which case nothing changes.
    pub fn push_entry(&mut self, amount: u128, release_time: u64, bucket_day: u64) -> (r: Result<
        (),
        StakeError,
    >)
        requires
            old(self).wf(),
        ensures
            final(self).wf(),
            old(self).total + amount > u128::MAX ==> r == Err::<(), StakeError>(
                StakeError::Overflow,
            ) && *final(self) == *old(self),
            old(self).total + amount <= u128::MAX ==> r is Ok && final(self).total == old(
                self,
            ).total + amount && final(self).entries@ == old(self).entries@.insert(
                cooldown_insert_pos(old(self).entries@, release_time),
                CooldownEntry { amount, release_time, bucket_day },
            ),
    {
        let ghost s0 = self.entries@;
        let new_total = match self.total.checked_add(amount) {
            Some(v) => v,
            None => {
                return Err(StakeError::Overflow);
            },
        };
        let n = self.entries.len();
        let mut i: usize = 0;
        while i < n && self.entries[i].release_time <= release_time
            invariant
                0 <= i <= n,
                n == self.entries@.len(),
                self.entries@ == s0,
                forall|j: int| 0 <= j < i ==> self.entries@[j].release_time <= release_time,
            decreases n - i,
        {
            i = i + 1;
        }
        let entry = CooldownEntry { amount, release_time, bucket_day };
        proof {
            assert forall|j: int|
                i as int <= j < s0.len() implies s0[j].release_time > release_time by {
                assert(s0[i as int].release_time <= s0[j].release_time);
            }
        }
        self.entries.insert(i, entry);
        self.total = new_total;
        proof {
            lemma_insert_pos_split(s0, release_time, i as int);
            let v = s0.insert(i as int, entry);
            assert(v =~= s0.take(i as int) + (seq![entry] + s0.skip(i as int)));
            lemma_sum_concat(s0.take(i as int), seq![entry] + s0.skip(i as int));
            lemma_sum_concat(seq![entry], s0.skip(i as int));
            assert(seq![entry].drop_first() =~= Seq::<CooldownEntry>::empty());
            assert(sum_amounts(Seq::<CooldownEntry>::empty()) == 0);
            assert(s0 =~= s0.take(i as int) + s0.skip(i as int));
            lemma_sum_concat(s0.take(i as int), s0.skip(i as int));
            assert forall|x: int, y: int|
                0 <= x < y < v.len() implies v[x].release_time <= v[y].release_time by {
                if x < i as int {
                    assert(v[x] == s0[x]);
                } else if x == i as int {
                    assert(v[x] == entry);
                } else {
                    assert(v[x] == s0[x - 1]);
                }
                if y < i as int {
                    assert(v[y] == s0[y]);
                } else if y == i as int {
                    assert(v[y] == entry);
                } else {
                    assert(v[y] == s0[y - 1]);
                }
            }
        }
        Ok(())
    }

    /// Pays out the longest claimable prefix of the queue: entries are
    /// taken from the front while their release time has passed and their
    /// day bucket is funded, and the first entry failing either condition
    /// stops the scan (later entries release no earlier, so nothing behind
    /// a blocked entry could be paid out of order). Returns the total paid.
    pub fn claim_matured(&mut self, daily: &DailyFundingQueue, now: u64) -> (r: u128)
        requires
            old(self).wf(),
        ensures
            final(self).wf(),
            r == sum_amounts(
                old(self).entries@.take(
                    claimable_len(old(self).entries@, daily.buckets@, now) as int,
                ),
            ),
            final(self).entries@ == old(self).entries@.skip(
                claimable_len(old(self).entries@, daily.buckets@, now) as int,
            ),
            final(self).total == old(self).total - r,
    {
        let ghost s0 = self.entries@;
        let ghost total0 = self.total;
        let ghost dq = daily.buckets@;
        let mut acc: u128 = 0;
        let ghost mut k: int = 0;
        proof {
            assert(s0.skip(0) =~= s0);
            assert(s0.take(0) =~= Seq::<CooldownEntry>::empty());
        }
        loop
            invariant
                0 <= k <= s0.len(),
                self.entries@ == s0.skip(k),
                dq == daily.buckets@,
                forall|j: int| 0 <= j < k ==> entry_claimable(s0[j], dq, now),
                acc == sum_amounts(s0.take(k)),
                self.total == sum_amounts(self.entries@),
                total0 == acc + self.total,
            ensures
                k == s0.len() || !entry_claimable(s0[k], dq, now),
            decreases s0.len() - k,
        {
            if self.entries.is_empty() {
                break;
            }
            let e = self.entries[0];
            proof {
                assert(e == s0[k]);
            }
            if now < e.release_time {
                break;
            }
            if !daily.is_funded(e.bucket_day) {
                break;
            }
            proof {
                assert(entry_claimable(s0[k], dq, now));
                lemma_sum_nonneg(self.entries@.drop_first());
                assert(s0.take(k + 1) =~= s0.take(k) + seq![e]);
                lemma_sum_concat(s0.take(k), seq![e]);
                assert(seq![e].drop_first() =~= Seq::<CooldownEntry>::empty());
                assert(sum_amounts(Seq::<CooldownEntry>::empty()) == 0);
                assert(sum_amounts(s0.take(k + 1)) == acc + e.amount);
                assert(s0.skip(k).drop_first() =~= s0.skip(k + 1));
            }
            self.entries.remove(0);
            self.total = self.total - e.amount;
            acc = acc + e.amount;
            proof {
                assert(self.entries@ =~= s0.skip(k).drop_first());
                k = k + 1;
            }
        }
        proof {
            lemma_claimable_len_is(s0, dq, now, k);
        }
        acc
    }
}

} // verus!
