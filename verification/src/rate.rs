//! The exchange-rate model: pure conversions between tokens and shares given
//! the current pool totals and the decimal normalization factor.
//!
//! On an empty pool one token is worth `10^decimal_difference` shares
//! (the bootstrap rate); otherwise conversions go through the live ratio
//! `total_shares : total_tokens`, with integer division truncating toward
//! zero so that rounding always favors the pool.

use vstd::prelude::*;

use vstd::arithmetic::div_mod::{
    lemma_div_is_ordered, lemma_div_multiples_vanish, lemma_div_multiples_vanish_quotient,
    lemma_div_of0, lemma_fundamental_div_mod, lemma_mod_bound,
};
use vstd::arithmetic::mul::{
    lemma_mul_inequality, lemma_mul_is_associative, lemma_mul_is_commutative,
    lemma_mul_is_distributive_add,
};

use crate::config::StakeConfig;
use crate::wide::mul_div;

verus! {

/// `10^e` as a mathematical integer.
pub open spec fn ten_pow(e: nat) -> nat
    decreases e,
{
    if e == 0 {
        1
    } else {
        10 * ten_pow((e - 1) as nat)
    }
}

pub proof fn lemma_ten_pow_pos(e: nat)
    ensures
        ten_pow(e) >= 1,
    decreases e,
{
    if e > 0 {
        lemma_ten_pow_pos((e - 1) as nat);
    }
}

pub proof fn lemma_ten_pow_increases(a: nat, b: nat)
    requires
        a <= b,
    ensures
        ten_pow(a) <= ten_pow(b),
    decreases b,
{
    if a < b {
        lemma_ten_pow_increases(a, (b - 1) as nat);
        lemma_ten_pow_pos((b - 1) as nat);
    }
}

/// How many shares `tokens` buys at pool state `(total_tokens, total_shares)`
/// with decimal normalization `dd`.
pub open spec fn shares_of(tokens: int, total_tokens: int, total_shares: int, dd: nat) -> int {
    if total_tokens == 0 && total_shares == 0 {
        tokens * ten_pow(dd)
    } else {
        tokens * total_shares / total_tokens
    }
}

/// How many tokens `shares` is worth at pool state
/// `(total_tokens, total_shares)` with decimal normalization `dd`.
pub open spec fn tokens_of(shares: int, total_tokens: int, total_shares: int, dd: nat) -> int {
    if total_tokens == 0 && total_shares == 0 {
        shares / ten_pow(dd) as int
    } else {
        shares * total_tokens / total_shares
    }
}

/// Computes `10^e`, or `None` when that exceeds the `u128` range.
pub fn pow10(e: u8) -> (r: Option<u128>)
    ensures
        r matches Some(v) ==> v == ten_pow(e as nat),
        r is None ==> ten_pow(e as nat) > u128::MAX,
{
    let mut acc: u128 = 1;
    let mut i: u8 = 0;
    while i < e
        invariant
            i <= e,
            acc == ten_pow(i as nat),
        decreases e - i,
    {
        acc = match acc.checked_mul(10) {
            Some(v) => v,
            None => {
                proof {
                    lemma_ten_pow_increases((i + 1) as nat, e as nat);
                }
                return None;
            },
        };
        i = i + 1;
    }
    Some(acc)
}

/// `shares_of`, or `None` when the result exceeds the `u128` range.
pub fn try_shares_per_token(
    config: &StakeConfig,
    tokens: u128,
    total_tokens: u128,
    total_shares: u128,
) -> (r: Option<u128>)
    requires
        config.wf(),
        total_tokens == 0 ==> total_shares == 0,
    ensures
        r matches Some(v) ==> v == shares_of(
            tokens as int,
            total_tokens as int,
            total_shares as int,
            config.decimal_difference as nat,
        ),
        r is None ==> shares_of(
            tokens as int,
            total_tokens as int,
            total_shares as int,
            config.decimal_difference as nat,
        ) > u128::MAX,
{
    if total_tokens == 0 && total_shares == 0 {
        let mult = match pow10(config.decimal_difference) {
            Some(m) => m,
            None => {
                return None;
            },
        };
        tokens.checked_mul(mult)
    } else {
        mul_div(tokens, total_shares, total_tokens)
    }
}

/// How many shares `tokens` buys: `tokens * 10^decimal_difference` on an
/// empty pool, `tokens * total_shares / total_tokens` otherwise
/// (truncating, so the pool keeps the dust).
pub fn shares_per_token(
    config: &StakeConfig,
    tokens: &u128,
    total_tokens: &u128,
    total_shares: &u128,
) -> (r: u128)
    requires
        config.wf(),
        *total_tokens == 0 ==> *total_shares == 0,
        shares_of(
            *tokens as int,
            *total_tokens as int,
            *total_shares as int,
            config.decimal_difference as nat,
        ) <= u128::MAX,
    ensures
        r == shares_of(
            *tokens as int,
            *total_tokens as int,
            *total_shares as int,
            config.decimal_difference as nat,
        ),
{
    match try_shares_per_token(config, *tokens, *total_tokens, *total_shares) {
        Some(v) => v,
        None => 0,
    }
}

/// `tokens_of`, or `None` when the result exceeds the `u128` range.
pub fn try_tokens_per_share(
    config: &StakeConfig,
    shares: u128,
    total_tokens: u128,
    total_shares: u128,
) -> (r: Option<u128>)
    requires
        config.wf(),
        total_shares == 0 ==> total_tokens == 0,
    ensures
        r matches Some(v) ==> v == tokens_of(
            shares as int,
            total_tokens as int,
            total_shares as int,
            config.decimal_difference as nat,
        ),
        r is None ==> tokens_of(
            shares as int,
            total_tokens as int,
            total_shares as int,
            config.decimal_difference as nat,
        ) > u128::MAX,
{
    if total_tokens == 0 && total_shares == 0 {
        let mult = match pow10(config.decimal_difference) {
            Some(m) => m,
            None => {
                return None;
            },
        };
        proof {
            lemma_ten_pow_pos(config.decimal_difference as nat);
        }
        Some(shares / mult)
    } else {
        mul_div(shares, total_tokens, total_shares)
    }
}

/// How many tokens `shares` is worth: `shares / 10^decimal_difference` on an
/// empty pool, `shares * total_tokens / total_shares` otherwise, with the
/// multiplication carried out in 256 bits before the division.
pub fn tokens_per_share(
    config: &StakeConfig,
    shares: &u128,
    total_tokens: &u128,
    total_shares: &u128,
) -> (r: u128)
    requires
        config.wf(),
        *total_shares == 0 ==> *total_tokens == 0,
        tokens_of(
            *shares as int,
            *total_tokens as int,
            *total_shares as int,
            config.decimal_difference as nat,
        ) <= u128::MAX,
    ensures
        r == tokens_of(
            *shares as int,
            *total_tokens as int,
            *total_shares as int,
            config.decimal_difference as nat,
        ),
{
    match try_tokens_per_share(config, *shares, *total_tokens, *total_shares) {
        Some(v) => v,
        None => 0,
    }
}

/// Truncating division loses less than one divisor: `(x / d) * d <= x`.
proof fn lemma_div_mul_le(x: int, d: int)
    requires
        x >= 0,
        d > 0,
    ensures
        x / d * d <= x,
        x - x / d * d < d,
{
    lemma_fundamental_div_mod(x, d);
    lemma_mod_bound(x, d);
    lemma_mul_is_commutative(d, x / d);
}

/// `x * a / b` is monotone in `x`.
proof fn lemma_muldiv_monotone(x: int, y: int, a: int, b: int)
    requires
        x <= y,
        a >= 0,
        b > 0,
    ensures
        x * a / b <= y * a / b,
{
    lemma_mul_inequality(x, y, a);
    lemma_div_is_ordered(x * a, y * a, b);
}

/// Scaling by `a / b` and back by `b / a` never gains value:
/// `((x * a / b) * b) / a <= x`.
proof fn lemma_muldiv_round_trip_le(x: int, a: int, b: int)
    requires
        x >= 0,
        a > 0,
        b > 0,
    ensures
        (x * a / b) * b / a <= x,
{
    let s = x * a / b;
    lemma_mul_is_commutative(x, a);
    vstd::arithmetic::mul::lemma_mul_nonnegative(x, a);
    lemma_div_mul_le(x * a, b);
    lemma_div_is_ordered(s * b, x * a, a);
    lemma_div_multiples_vanish(x, a);
    lemma_mul_is_commutative(a, x);
}

/// Bootstrap invariant: on an empty pool, `t` tokens convert to exactly
/// `t * 10^dd` shares, and converting those shares back yields exactly `t`
/// tokens — the bootstrap rate loses nothing in either direction.
pub proof fn lemma_bootstrap_rate(t: int, dd: nat)
    requires
        t >= 0,
    ensures
        shares_of(t, 0, 0, dd) == t * ten_pow(dd),
        tokens_of(shares_of(t, 0, 0, dd), 0, 0, dd) == t,
{
    lemma_ten_pow_pos(dd);
    lemma_mul_is_commutative(t, ten_pow(dd) as int);
    lemma_div_multiples_vanish(t, ten_pow(dd) as int);
}

/// Rate stability: the shares-per-token and tokens-per-share rates depend
/// only on the ratio of the pool totals — scaling `total_tokens` and
/// `total_shares` by any common positive factor changes neither conversion.
pub proof fn lemma_rate_scale_invariance(
    t: int,
    total_tokens: int,
    total_shares: int,
    k: int,
    dd: nat,
)
    requires
        t >= 0,
        total_tokens > 0,
        total_shares > 0,
        k > 0,
    ensures
        shares_of(t, k * total_tokens, k * total_shares, dd) == shares_of(
            t,
            total_tokens,
            total_shares,
            dd,
        ),
        tokens_of(t, k * total_tokens, k * total_shares, dd) == tokens_of(
            t,
            total_tokens,
            total_shares,
            dd,
        ),
{
    vstd::arithmetic::mul::lemma_mul_nonnegative(t, total_shares);
    lemma_div_multiples_vanish_quotient(k, t * total_shares, total_tokens);
    assert(t * (k * total_shares) == k * (t * total_shares)) by {
        lemma_mul_is_associative(k, t, total_shares);
        lemma_mul_is_commutative(k, t);
        lemma_mul_is_associative(t, k, total_shares);
    }
    vstd::arithmetic::mul::lemma_mul_nonnegative(t, total_tokens);
    lemma_div_multiples_vanish_quotient(k, t * total_tokens, total_shares);
    assert(t * (k * total_tokens) == k * (t * total_tokens)) by {
        lemma_mul_is_associative(k, t, total_tokens);
        lemma_mul_is_commutative(k, t);
        lemma_mul_is_associative(t, k, total_tokens);
    }
}

/// Round-trip rate: converting `t` tokens to shares and back never yields
/// more than `t`, and loses at most the truncation error of the two
/// conversions — one token unit plus one share unit's worth of tokens
/// (`total_tokens / total_shares`). The loss never compounds: a second
/// round trip starts from a value already within the same bound.
pub proof fn lemma_round_trip_rate(t: int, total_tokens: int, total_shares: int, dd: nat)
    requires
        t >= 0,
        total_tokens > 0,
        total_shares > 0,
    ensures
        tokens_of(shares_of(t, total_tokens, total_shares, dd), total_tokens, total_shares, dd)
            <= t,
        t - tokens_of(
            shares_of(t, total_tokens, total_shares, dd),
            total_tokens,
            total_shares,
            dd,
        ) <= total_tokens / total_shares + 1,
{
    let tt = total_tokens;
    let ts = total_shares;
    let s = t * ts / tt;
    let q = s * tt / ts;
    lemma_muldiv_round_trip_le(t, ts, tt);
    // Lower bound: S*(t - q) == r1 + r2 < tt + ts for the two remainders.
    vstd::arithmetic::mul::lemma_mul_nonnegative(t, ts);
    lemma_fundamental_div_mod(t * ts, tt);
    lemma_mod_bound(t * ts, tt);
    let r1 = t * ts % tt;
    assert(tt * s == t * ts - r1);
    vstd::arithmetic::mul::lemma_mul_nonnegative(s, tt);
    lemma_fundamental_div_mod(s * tt, ts);
    lemma_mod_bound(s * tt, ts);
    let r2 = s * tt % ts;
    assert(ts * q == s * tt - r2);
    lemma_mul_is_commutative(tt, s);
    assert(ts * q == t * ts - r1 - r2);
    let g = t - q;
    assert(ts * g == r1 + r2) by {
        vstd::arithmetic::mul::lemma_mul_is_distributive_sub(ts, t, q);
        lemma_mul_is_commutative(ts, t);
    }
    if g > tt / ts + 1 {
        lemma_mul_inequality(tt / ts + 2, g, ts);
        assert((tt / ts + 2) * ts == tt / ts * ts + 2 * ts) by {
            lemma_mul_is_distributive_add(ts, tt / ts, 2);
            lemma_mul_is_commutative(ts, tt / ts + 2);
            lemma_mul_is_commutative(ts, tt / ts);
            lemma_mul_is_commutative(ts, 2);
        }
        lemma_fundamental_div_mod(tt, ts);
        lemma_mod_bound(tt, ts);
        lemma_mul_is_commutative(ts, tt / ts);
        assert(tt / ts * ts > tt - ts);
        assert(ts * g >= (tt / ts + 2) * ts) by {
            lemma_mul_is_commutative(ts, g);
        }
        assert(ts * g > tt + ts);
        assert(false);
    }
}

/// The tokens an account has earned beyond its recorded basis: the current
/// worth of its shares minus the basis, clamped at zero (a basis already
/// above the worth yields no reward rather than a negative one).
pub open spec fn reward_tokens_of(
    tokens: int,
    shares: int,
    total_tokens: int,
    total_shares: int,
    dd: nat,
) -> int {
    let worth = tokens_of(shares, total_tokens, total_shares, dd);
    if worth >= tokens {
        worth - tokens
    } else {
        0
    }
}

/// The share count that the reward tokens correspond to at the current rate.
pub open spec fn reward_shares_of(
    tokens: int,
    shares: int,
    total_tokens: int,
    total_shares: int,
    dd: nat,
) -> int {
    shares_of(
        reward_tokens_of(tokens, shares, total_tokens, total_shares, dd),
        total_tokens,
        total_shares,
        dd,
    )
}

/// In a pool that holds at most `total_shares` shares for this account, the
/// reward computation stays in range: the account's worth is at most
/// `total_tokens`, and the reward shares are at most the account's own
/// shares (so extracting them can never underflow any total).
pub proof fn lemma_rewards_fit(
    tokens: int,
    shares: int,
    total_tokens: int,
    total_shares: int,
    dd: nat,
)
    requires
        total_tokens == 0 <==> total_shares == 0,
        0 <= total_tokens,
        0 <= tokens,
        0 <= shares <= total_shares,
    ensures
        0 <= tokens_of(shares, total_tokens, total_shares, dd) <= total_tokens,
        0 <= reward_tokens_of(tokens, shares, total_tokens, total_shares, dd) <= total_tokens,
        0 <= reward_shares_of(tokens, shares, total_tokens, total_shares, dd) <= shares,
{
    let tt = total_tokens;
    let ts = total_shares;
    let worth = tokens_of(shares, tt, ts, dd);
    let rt = reward_tokens_of(tokens, shares, tt, ts, dd);
    if tt == 0 {
        lemma_ten_pow_pos(dd);
        lemma_div_of0(ten_pow(dd) as int);
    } else {
        vstd::arithmetic::mul::lemma_mul_nonnegative(shares, tt);
        vstd::arithmetic::div_mod::lemma_div_pos_is_pos(shares * tt, ts);
        lemma_muldiv_monotone(shares, ts, tt, ts);
        lemma_div_multiples_vanish(tt, ts);
        assert(worth <= tt);
        vstd::arithmetic::mul::lemma_mul_nonnegative(rt, ts);
        vstd::arithmetic::div_mod::lemma_div_pos_is_pos(rt * ts, tt);
        lemma_muldiv_monotone(rt, worth, ts, tt);
        lemma_muldiv_round_trip_le(shares, tt, ts);
    }
}

/// Returns `(reward_tokens, reward_shares)`: the gap between what the
/// account's shares are worth and its token basis, and that gap converted
/// back to shares at the current rate.
pub fn calculate_rewards(
    config: &StakeConfig,
    tokens: u128,
    shares: u128,
    total_tokens: u128,
    total_shares: u128,
) -> (r: (u128, u128))
    requires
        config.wf(),
        total_tokens == 0 <==> total_shares == 0,
        tokens_of(
            shares as int,
            total_tokens as int,
            total_shares as int,
            config.decimal_difference as nat,
        ) <= u128::MAX,
        reward_shares_of(
            tokens as int,
            shares as int,
            total_tokens as int,
            total_shares as int,
            config.decimal_difference as nat,
        ) <= u128::MAX,
    ensures
        r.0 == reward_tokens_of(
            tokens as int,
            shares as int,
            total_tokens as int,
            total_shares as int,
            config.decimal_difference as nat,
        ),
        r.1 == reward_shares_of(
            tokens as int,
            shares as int,
            total_tokens as int,
            total_shares as int,
            config.decimal_difference as nat,
        ),
{
    let worth = tokens_per_share(config, &shares, &total_tokens, &total_shares);
    if worth < tokens {
        proof {
            if total_tokens != 0 {
                lemma_div_of0(total_tokens as int);
            } else {
                lemma_ten_pow_pos(config.decimal_difference as nat);
            }
        }
        (0, 0)
    } else {
        let reward = worth - tokens;
        let reward_shares = shares_per_token(config, &reward, &total_tokens, &total_shares);
        (reward, reward_shares)
    }
}

} // verus!
