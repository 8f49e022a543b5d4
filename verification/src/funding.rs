//! The global daily funding ledger: one bucket per calendar day, each
//! accumulating the withdrawal amounts requested that day and the liquidity
//! allocated to pay them. Buckets are kept in ascending day order, are
//! created lazily, and are never deleted; incoming liquidity always fills
//! the earliest under-funded bucket first.
//!
//! When new requests land on a day whose bucket was already fully funded,
//! `funded` stays where it was (it never exceeds `requested`), and the
//! bucket simply reopens until more liquidity arrives.

use vstd::prelude::*;

use crate::errors::StakeError;

verus! {

/// Seconds in one calendar day.
pub const SECONDS_PER_DAY: u64 = 86400;

/// A timestamp rounded down to the nearest day boundary.
pub open spec fn spec_round_date(date: u64) -> u64 {
    (date - date % SECONDS_PER_DAY) as u64
}

/// Rounds a timestamp down to the nearest day boundary.
pub fn round_date(date: &u64) -> (r: u64)
    ensures
        r == spec_round_date(*date),
        r == date - date % SECONDS_PER_DAY,
        r % SECONDS_PER_DAY == 0,
        r <= *date,
        date - r < SECONDS_PER_DAY,
{
    let day: u64 = SECONDS_PER_DAY;
    proof {
        vstd::arithmetic::div_mod::lemma_mod_bound(*date as int, day as int);
        vstd::arithmetic::div_mod::lemma_mod_decreases(*date as nat, day as nat);
        vstd::arithmetic::div_mod::lemma_fundamental_div_mod(*date as int, day as int);
        vstd::arithmetic::div_mod::lemma_mod_multiples_vanish(
            *date as int / day as int,
            0,
            day as int,
        );
        vstd::arithmetic::div_mod::lemma_small_mod(0, day as nat);
    }
    date - (date % day)
}

/// One day's aggregated unbonding obligations.
#[derive(Clone, Copy, PartialEq, Eq, Structural, Debug)]
pub struct DailyUnbondingBucket {
    /// The day (rounded-down timestamp) this bucket stands for.
    pub release_day: u64,
    /// Sum of all withdrawal amounts requested for this day.
    pub requested: u128,
    /// How much of `requested` has been backed by incoming liquidity.
    pub funded: u128,
}

impl DailyUnbondingBucket {
    /// A bucket never holds more funding than was requested of it.
    pub open spec fn wf(&self) -> bool {
        self.funded <= self.requested
    }

    /// Whether this bucket's obligations are fully backed.
    pub open spec fn spec_is_funded(&self) -> bool {
        self.funded >= self.requested
    }

    /// Whether this bucket's obligations are fully backed.
    pub fn is_funded(&self) -> (r: bool)
        ensures
            r == self.spec_is_funded(),
    {
        self.funded >= self.requested
    }
}

/// Whether the queue holds a fully funded bucket for `day`.
pub open spec fn bucket_funded_at(s: Seq<DailyUnbondingBucket>, day: u64) -> bool {
    exists|i: int|
        0 <= i < s.len() && s[i].release_day == day && s[i].spec_is_funded()
}

/// Pours `amount` into the buckets front to back: each bucket takes what it
/// still lacks (or whatever is left), and the remainder flows on. Returns
/// the new buckets and the liquidity left over.
pub open spec fn fund_seq(s: Seq<DailyUnbondingBucket>, amount: int) -> (Seq<
    DailyUnbondingBucket,
>, int)
    decreases s.len(),
{
    if s.len() == 0 {
        (s, amount)
    } else {
        let deficit = s[0].requested - s[0].funded;
        let pay = if amount <= deficit {
            amount
        } else {
            deficit
        };
        let first = DailyUnbondingBucket {
            release_day: s[0].release_day,
            requested: s[0].requested,
            funded: (s[0].funded + pay) as u128,
        };
        let rest = fund_seq(s.drop_first(), amount - pay);
        (seq![first] + rest.0, rest.1)
    }
}

/// Pouring nothing changes nothing.
proof fn lemma_fund_seq_zero(s: Seq<DailyUnbondingBucket>)
    requires
        forall|i: int| 0 <= i < s.len() ==> s[i].wf(),
    ensures
        fund_seq(s, 0).0 == s,
        fund_seq(s, 0).1 == 0,
    decreases s.len(),
{
    if s.len() > 0 {
        assert(forall|i: int| 0 <= i < s.drop_first().len() ==> s.drop_first()[i].wf());
        lemma_fund_seq_zero(s.drop_first());
        assert(fund_seq(s, 0).0 =~= s);
    }
}

/// Funding changes no bucket count.
proof fn lemma_fund_seq_len(s: Seq<DailyUnbondingBucket>, amount: int)
    ensures
        fund_seq(s, amount).0.len() == s.len(),
    decreases s.len(),
{
    if s.len() > 0 {
        let deficit = s[0].requested - s[0].funded;
        let pay = if amount <= deficit {
            amount
        } else {
            deficit
        };
        lemma_fund_seq_len(s.drop_first(), amount - pay);
    }
}

/// A bucket can only gain funding from a positive amount.
proof fn lemma_fund_needs_amount(s: Seq<DailyUnbondingBucket>, amount: int, idx: int)
    requires
        forall|i: int| 0 <= i < s.len() ==> s[i].wf(),
        amount >= 0,
        0 <= idx < s.len(),
        fund_seq(s, amount).0[idx].funded > s[idx].funded,
    ensures
        amount > 0,
    decreases idx,
{
    let deficit = s[0].requested - s[0].funded;
    let pay = if amount <= deficit {
        amount
    } else {
        deficit
    };
    if idx == 0 {
        assert(fund_seq(s, amount).0[0].funded == s[0].funded + pay);
    } else {
        assert(forall|i: int| 0 <= i < s.drop_first().len() ==> s.drop_first()[i].wf());
        lemma_fund_seq_len(s.drop_first(), amount - pay);
        assert(fund_seq(s, amount).0[idx] == fund_seq(s.drop_first(), amount - pay).0[idx - 1]);
        assert(s.drop_first()[idx - 1] == s[idx]);
        lemma_fund_needs_amount(s.drop_first(), amount - pay, idx - 1);
    }
}

/// Funding order: liquidity reaches a later bucket only once every earlier
/// bucket is fully funded — whenever `fund` raises the funding of bucket
/// `j`, every bucket before `j` comes out of the same call fully funded.
pub proof fn lemma_fund_earliest_first(
    s: Seq<DailyUnbondingBucket>,
    amount: int,
    i: int,
    j: int,
)
    requires
        forall|k: int| 0 <= k < s.len() ==> s[k].wf(),
        amount >= 0,
        0 <= i < j < s.len(),
        fund_seq(s, amount).0[j].funded > s[j].funded,
    ensures
        fund_seq(s, amount).0[i].spec_is_funded(),
    decreases i,
{
    let deficit = s[0].requested - s[0].funded;
    let pay = if amount <= deficit {
        amount
    } else {
        deficit
    };
    let rest = s.drop_first();
    assert(forall|k: int| 0 <= k < rest.len() ==> rest[k].wf());
    lemma_fund_seq_len(rest, amount - pay);
    assert(fund_seq(s, amount).0[j] == fund_seq(rest, amount - pay).0[j - 1]);
    assert(rest[j - 1] == s[j]);
    if i == 0 {
        // Something past the first bucket gained funding, so money flowed
        // beyond it: the first bucket must have been filled to the brim.
        lemma_fund_needs_amount(rest, amount - pay, j - 1);
        assert(pay == deficit);
        assert(fund_seq(s, amount).0[0].funded == s[0].requested);
    } else {
        lemma_fund_earliest_first(rest, amount - pay, i - 1, j - 1);
        assert(fund_seq(s, amount).0[i] == fund_seq(rest, amount - pay).0[i - 1]);
    }
}

/// Whether some bucket for `day` exists whose `requested` counter cannot
/// take another `amount`.
pub open spec fn request_overflows(s: Seq<DailyUnbondingBucket>, day: u64, amount: u128) -> bool {
    exists|i: int|
        0 <= i < s.len() && s[i].release_day == day && s[i].requested + amount > u128::MAX
}

/// Adds `amount` to the bucket for `day`, creating it (in day order) if it
/// does not exist yet.
pub open spec fn request_spec(s: Seq<DailyUnbondingBucket>, day: u64, amount: u128) -> Seq<
    DailyUnbondingBucket,
>
    decreases s.len(),
{
    let fresh = DailyUnbondingBucket { release_day: day, requested: amount, funded: 0 };
    if s.len() == 0 {
        seq![fresh]
    } else if s[0].release_day == day {
        s.update(
            0,
            DailyUnbondingBucket {
                requested: (s[0].requested + amount) as u128,
                ..s[0]
            },
        )
    } else if s[0].release_day > day {
        seq![fresh] + s
    } else {
        seq![s[0]] + request_spec(s.drop_first(), day, amount)
    }
}

/// The still-unfunded amounts (`requested - funded`) of up to `limit`
/// buckets with `release_day >= from_day`, front to back.
pub open spec fn unfunded_sum(s: Seq<DailyUnbondingBucket>, from_day: u64, limit: int) -> int
    decreases s.len(),
{
    if s.len() == 0 || limit <= 0 {
        0
    } else if s[0].release_day >= from_day {
        s[0].requested - s[0].funded + unfunded_sum(s.drop_first(), from_day, limit - 1)
    } else {
        unfunded_sum(s.drop_first(), from_day, limit)
    }
}

proof fn lemma_unfunded_sum_nonneg(s: Seq<DailyUnbondingBucket>, from_day: u64, limit: int)
    requires
        forall|i: int| 0 <= i < s.len() ==> s[i].wf(),
    ensures
        unfunded_sum(s, from_day, limit) >= 0,
    decreases s.len(),
{
    if s.len() > 0 && limit > 0 {
        assert(forall|i: int| 0 <= i < s.drop_first().len() ==> s.drop_first()[i].wf());
        lemma_unfunded_sum_nonneg(s.drop_first(), from_day, limit - 1);
        lemma_unfunded_sum_nonneg(s.drop_first(), from_day, limit);
    }
}

/// The global, day-ordered funding queue.
pub struct DailyFundingQueue {
    /// The buckets, ascending by `release_day`, at most one per day.
    pub buckets: Vec<DailyUnbondingBucket>,
}

impl DailyFundingQueue {
    /// Buckets are strictly ordered by day and individually well-formed.
    pub open spec fn wf(&self) -> bool {
        (forall|i: int| 0 <= i < self.buckets@.len() ==> self.buckets@[i].wf()) && (forall|
            i: int,
            j: int,
        |
            0 <= i < j < self.buckets@.len() ==> self.buckets@[i].release_day
                < self.buckets@[j].release_day)
    }

    /// An empty queue.
    pub fn new() -> (r: DailyFundingQueue)
        ensures
            r.wf(),
            r.buckets@.len() == 0,
    {
        DailyFundingQueue { buckets: Vec::new() }
    }

    /// Whether a fully funded bucket for `day` exists.
    pub fn is_funded(&self, day: u64) -> (r: bool)
        ensures
            r == bucket_funded_at(self.buckets@, day),
    {
        let mut i: usize = 0;
        while i < self.buckets.len()
            invariant
                0 <= i <= self.buckets@.len(),
                forall|j: int|
                    0 <= j < i ==> !(self.buckets@[j].release_day == day
                        && self.buckets@[j].spec_is_funded()),
            decreases self.buckets@.len() - i,
        {
            let b = self.buckets[i];
            if b.release_day == day && b.funded >= b.requested {
                return true;
            }
            i = i + 1;
        }
        false
    }

    /// Whether `request_unbonding(day, amount)` would be accepted: the
    /// day's `requested` counter (if the day already has a bucket) can
    /// still take `amount`.
    pub fn can_request(&self, day: u64, amount: u128) -> (r: bool)
        ensures
            r == !request_overflows(self.buckets@, day, amount),
    {
        let mut i: usize = 0;
        while i < self.buckets.len()
            invariant
                0 <= i <= self.buckets@.len(),
                forall|j: int|
                    0 <= j < i ==> !(self.buckets@[j].release_day == day && self.buckets@[
                        j
                    ].requested + amount > u128::MAX),
            decreases self.buckets@.len() - i,
        {
            let b = self.buckets[i];
            if b.release_day == day && b.requested.checked_add(amount).is_none() {
                return false;
            }
            i = i + 1;
        }
        true
    }

    /// Records `amount` more requested withdrawals for `day`: the bucket for
    /// that day grows by `amount` (reopening it if it was fully funded), or
    /// is created with `requested == amount` and nothing funded. Rejected
    /// only when the day's `requested` counter would exceed the `u128`
    /// range, in which case nothing changes.
    pub fn request_unbonding(&mut self, day: u64, amount: u128) -> (r: Result<(), StakeError>)
        requires
            old(self).wf(),
        ensures
            final(self).wf(),
            request_overflows(old(self).buckets@, day, amount) ==> r == Err::<(), StakeError>(
                StakeError::Overflow,
            ) && final(self).buckets@ == old(self).buckets@,
            !request_overflows(old(self).buckets@, day, amount) ==> r is Ok
                && final(self).buckets@ == request_spec(old(self).buckets@, day, amount),
    {
        let ghost s0 = self.buckets@;
        let n = self.buckets.len();
        let mut i: usize = 0;
        while i < n && self.buckets[i].release_day < day
            invariant
                0 <= i <= n,
                n == self.buckets@.len(),
                self.buckets@ == s0,
                forall|j: int| 0 <= j < i ==> self.buckets@[j].release_day < day,
            decreases n - i,
        {
            i = i + 1;
        }
        proof {
            lemma_request_spec_split(s0, day, amount, i as int);
        }
        if i < n && self.buckets[i].release_day == day {
            let b = self.buckets[i];
            match b.requested.checked_add(amount) {
                Some(grown) => {
                    self.buckets.set(
                        i,
                        DailyUnbondingBucket { requested: grown, ..b },
                    );
                    proof {
                        assert(!request_overflows(s0, day, amount)) by {
                            assert(forall|k: int|
                                0 <= k < s0.len() && s0[k].release_day == day ==> k == i as int);
                        }
                        assert(self.buckets@ =~= s0.take(i as int) + request_spec(
                            s0.skip(i as int),
                            day,
                            amount,
                        ));
                    }
                    Ok(())
                },
                None => {
                    proof {
                        assert(request_overflows(s0, day, amount));
                    }
                    Err(StakeError::Overflow)
                },
            }
        } else {
            let fresh = DailyUnbondingBucket { release_day: day, requested: amount, funded: 0 };
            self.buckets.insert(i, fresh);
            proof {
                assert(forall|k: int|
                    i as int <= k < s0.len() ==> s0[k].release_day > day);
                assert(!request_overflows(s0, day, amount));
                assert(self.buckets@ =~= s0.take(i as int) + request_spec(
                    s0.skip(i as int),
                    day,
                    amount,
                ));
            }
            Ok(())
        }
    }

    /// Sums `requested - funded` over up to `limit` buckets with
    /// `release_day >= from_day`, in ascending day order. Rejected only
    /// when the sum exceeds the `u128` range.
    pub fn total_unfunded(&self, from_day: u64, limit: u64) -> (r: Result<u128, StakeError>)
        requires
            self.wf(),
        ensures
            r matches Ok(v) ==> v == unfunded_sum(self.buckets@, from_day, limit as int),
            r is Err ==> r == Err::<u128, StakeError>(StakeError::Overflow) && unfunded_sum(
                self.buckets@,
                from_day,
                limit as int,
            ) > u128::MAX,
    {
        let ghost s0 = self.buckets@;
        let n = self.buckets.len();
        let mut acc: u128 = 0;
        let mut counted: u64 = 0;
        let mut i: usize = 0;
        proof {
            assert(s0.skip(0) =~= s0);
        }
        while i < n
            invariant
                0 <= i <= n,
                n == s0.len(),
                self.buckets@ == s0,
                self.wf(),
                counted <= limit,
                unfunded_sum(s0, from_day, limit as int) == acc + unfunded_sum(
                    s0.skip(i as int),
                    from_day,
                    limit as int - counted as int,
                ),
            ensures
                unfunded_sum(s0, from_day, limit as int) == acc,
            decreases n - i,
        {
            let b = self.buckets[i];
            proof {
                assert(b == s0.skip(i as int)[0]);
                assert(s0.skip(i as int).drop_first() =~= s0.skip(i as int + 1));
                assert(forall|j: int|
                    0 <= j < s0.skip(i as int).len() ==> s0.skip(i as int)[j].wf());
            }
            if b.release_day >= from_day {
                if counted >= limit {
                    proof {
                        lemma_unfunded_sum_nonneg(
                            s0.skip(i as int),
                            from_day,
                            limit as int - counted as int,
                        );
                    }
                    break;
                }
                proof {
                    lemma_unfunded_sum_nonneg(
                        s0.skip(i as int + 1),
                        from_day,
                        limit as int - counted as int - 1,
                    );
                }
                acc = match acc.checked_add(b.requested - b.funded) {
                    Some(v) => v,
                    None => {
                        return Err(StakeError::Overflow);
                    },
                };
                counted = counted + 1;
            }
            i = i + 1;
        }
        Ok(acc)
    }

    /// Applies `amount` of fresh liquidity to the queue, earliest obligation
    /// first, and returns whatever is left after every bucket is full.
    pub fn fund(&mut self, amount: u128) -> (r: u128)
        requires
            old(self).wf(),
        ensures
            final(self).wf(),
            final(self).buckets@ == fund_seq(old(self).buckets@, amount as int).0,
            r == fund_seq(old(self).buckets@, amount as int).1,
            r <= amount,
    {
        let ghost s0 = self.buckets@;
        let n = self.buckets.len();
        let mut remaining = amount;
        let mut i: usize = 0;
        proof {
            assert(s0.skip(0) =~= s0);
            assert(self.buckets@.take(0) + fund_seq(s0, amount as int).0 =~= fund_seq(
                s0,
                amount as int,
            ).0);
        }
        while i < n && remaining > 0
            invariant
                0 <= i <= n,
                n == self.buckets@.len(),
                s0.len() == n,
                remaining <= amount,
                forall|j: int| i <= j < n ==> self.buckets@[j] == s0[j],
                forall|j: int| 0 <= j < n ==> self.buckets@[j].wf(),
                forall|j: int| 0 <= j < n ==> self.buckets@[j].release_day == s0[j].release_day,
                fund_seq(s0, amount as int).0 == self.buckets@.take(i as int) + fund_seq(
                    s0.skip(i as int),
                    remaining as int,
                ).0,
                fund_seq(s0, amount as int).1 == fund_seq(s0.skip(i as int), remaining as int).1,
            decreases n - i,
        {
            let b = self.buckets[i];
            let deficit = b.requested - b.funded;
            let pay = if remaining <= deficit {
                remaining
            } else {
                deficit
            };
            let ghost before = self.buckets@;
            self.buckets.set(
                i,
                DailyUnbondingBucket { funded: b.funded + pay, ..b },
            );
            proof {
                assert(s0.skip(i as int).drop_first() =~= s0.skip(i as int + 1));
                assert(self.buckets@.take(i as int + 1) =~= before.take(i as int) + seq![
                    DailyUnbondingBucket {
                        release_day: b.release_day,
                        requested: b.requested,
                        funded: (b.funded + pay) as u128,
                    },
                ]);
                assert(fund_seq(s0, amount as int).0 == self.buckets@.take(i as int + 1)
                    + fund_seq(s0.skip(i as int + 1), (remaining - pay) as int).0) by {
                    assert((before.take(i as int) + seq![
                        DailyUnbondingBucket {
                            release_day: b.release_day,
                            requested: b.requested,
                            funded: (b.funded + pay) as u128,
                        },
                    ]) + fund_seq(s0.skip(i as int + 1), (remaining - pay) as int).0
                        =~= before.take(i as int) + (seq![
                        DailyUnbondingBucket {
                            release_day: b.release_day,
                            requested: b.requested,
                            funded: (b.funded + pay) as u128,
                        },
                    ] + fund_seq(s0.skip(i as int + 1), (remaining - pay) as int).0));
                }
            }
            remaining = remaining - pay;
            i = i + 1;
        }
        proof {
            assert forall|x: int, y: int|
                0 <= x < y < self.buckets@.len() implies self.buckets@[x].release_day
                < self.buckets@[y].release_day by {
                assert(self.buckets@[x].release_day == s0[x].release_day);
                assert(self.buckets@[y].release_day == s0[y].release_day);
            }
            if remaining == 0 {
                assert(forall|j: int|
                    0 <= j < s0.skip(i as int).len() ==> s0.skip(i as int)[j] == s0[
                        j + i as int
                    ]);
                lemma_fund_seq_zero(s0.skip(i as int));
                assert(self.buckets@.take(i as int) + s0.skip(i as int) =~= self.buckets@);
            } else {
                assert(s0.skip(i as int) =~= Seq::<DailyUnbondingBucket>::empty());
                assert(self.buckets@.take(i as int) =~= self.buckets@);
                assert(self.buckets@.take(i as int) + fund_seq(
                    s0.skip(i as int),
                    remaining as int,
                ).0 =~= self.buckets@);
            }
        }
        remaining
    }
}

/// Unfolds `request_spec` across a prefix of buckets whose days all lie
/// before the requested day.
proof fn lemma_request_spec_split(s: Seq<DailyUnbondingBucket>, day: u64, amount: u128, i: int)
    requires
        0 <= i <= s.len(),
        forall|j: int| 0 <= j < i ==> s[j].release_day < day,
    ensures
        request_spec(s, day, amount) == s.take(i) + request_spec(s.skip(i), day, amount),
    decreases i,
{
    if i == 0 {
        assert(s.skip(0) =~= s);
        assert(s.take(0) + request_spec(s, day, amount) =~= request_spec(s, day, amount));
    } else {
        let rest = s.drop_first();
        lemma_request_spec_split(rest, day, amount, i - 1);
        assert(rest.take(i - 1) =~= s.take(i).drop_first());
        assert(rest.skip(i - 1) =~= s.skip(i));
        assert(request_spec(s, day, amount) == seq![s[0]] + request_spec(rest, day, amount));
        assert(seq![s[0]] + (rest.take(i - 1) + request_spec(rest.skip(i - 1), day, amount))
            =~= s.take(i) + request_spec(s.skip(i), day, amount));
    }
}

} // verus!
