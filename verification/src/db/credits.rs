//! Owner credits: how much of a shared account's value each owner is owed,
//! kept in proportion to the account's balance, and handed on when an owner
//! leaves.
use vstd::prelude::*;

use super::portfolio::OwnerCredit;
use super::ValidationFailure;
use crate::random::{sample_weighted_index, weight_sum};

verus! {

/// Bound on the numbers the proportional split is proved for.
pub const SPLIT_LIMIT: i128 = 10_000_000_000_000_000_000_000_000_000_000_000_000;

/// `n / d` rounded toward negative infinity.
pub open spec fn floor_div_spec(n: int, d: int) -> int {
    if d > 0 {
        n / d
    } else {
        (-n) / (-d)
    }
}

proof fn lemma_floor_div_pos(n: int, d: int, q: int)
    requires
        d > 0,
        q * d <= n < q * d + d,
    ensures
        q == n / d,
{
    vstd::arithmetic::div_mod::lemma_fundamental_div_mod_converse(n, d, q, n - q * d);
}

fn floor_div_pos(n: i128, d: i128) -> (q: i128)
    requires
        d > 0,
        -SPLIT_LIMIT <= n <= SPLIT_LIMIT,
        d <= SPLIT_LIMIT,
    ensures
        q == n / d,
{
    if n >= 0 {
        let q = n / d;
        assert(q == n / d);
        q
    } else {
        let m = -n + d - 1;
        let k = m / d;
        assert(k * d <= m < k * d + d) by {
            vstd::arithmetic::div_mod::lemma_fundamental_div_mod(m as int, d as int);
            assert(m as int == d * (m as int / d as int) + m as int % d as int);
        }
        assert(k >= 0) by (nonlinear_arith)
            requires
                k * d <= m < k * d + d,
                m >= 0,
                d > 0,
        ;
        assert(k <= m) by (nonlinear_arith)
            requires
                k * d <= m,
                k >= 0,
                d >= 1,
        ;
        let q = -k;
        proof {
            assert(q * d == -(k * d)) by (nonlinear_arith)
                requires
                    q == -k,
            ;
            lemma_floor_div_pos(n as int, d as int, q as int);
        }
        q
    }
}

/// `n / d` rounded toward negative infinity, for a nonzero divisor.
pub fn floor_div(n: i128, d: i128) -> (q: i128)
    requires
        d != 0,
        -SPLIT_LIMIT <= n <= SPLIT_LIMIT,
        -SPLIT_LIMIT <= d <= SPLIT_LIMIT,
    ensures
        q == floor_div_spec(n as int, d as int),
{
    if d > 0 {
        floor_div_pos(n, d)
    } else {
        floor_div_pos(-n, -d)
    }
}

/// The sum of a sequence of amounts.
pub open spec fn seq_sum(s: Seq<i128>) -> int
    decreases s.len(),
{
    if s.len() == 0 {
        0
    } else {
        seq_sum(s.drop_last()) + s.last()
    }
}

/// A share of `amount` in proportion `w / total`, rounded down.
pub open spec fn share_floor(w: int, amount: int, total: int) -> int {
    floor_div_spec(w * amount, total)
}

/// What rounding `w * amount / total` down cut off, scaled by `|total|`
/// (so in `[0, |total|)`): the share's sampling weight for the remainder.
pub open spec fn share_cut(w: int, amount: int, total: int) -> int {
    if total > 0 {
        w * amount - share_floor(w, amount, total) * total
    } else {
        share_floor(w, amount, total) * total - w * amount
    }
}

/// Inputs the proportional split is proved for.
pub open spec fn split_inputs_ok(amount: int, ws: Seq<i128>) -> bool {
    &&& 0 < ws.len() <= 1000
    &&& seq_sum(ws) != 0
    &&& -10_000_000_000_000_000_000_000_000_000_000_000 <= seq_sum(ws)
        <= 10_000_000_000_000_000_000_000_000_000_000_000
    &&& -10_000_000_000_000_000_000_000_000_000_000_000 <= amount
        <= 10_000_000_000_000_000_000_000_000_000_000_000
    &&& forall|i: int|
        0 <= i < ws.len() ==> -10_000_000_000_000_000_000_000_000_000_000_000 <= (
        #[trigger] ws[i]) * amount <= 10_000_000_000_000_000_000_000_000_000_000_000
            && -10_000_000_000_000_000_000_000_000_000_000_000 <= ws[i]
            <= 10_000_000_000_000_000_000_000_000_000_000_000
}

proof fn lemma_share_cut_range(w: int, amount: int, total: int)
    requires
        total != 0,
    ensures
        0 <= share_cut(w, amount, total),
        total > 0 ==> share_cut(w, amount, total) < total,
        total < 0 ==> share_cut(w, amount, total) < -total,
{
    let n = w * amount;
    lemma_share_cut_range_n(n, total);
}

/// Round each share of `amount` in proportion to `ws` down, and give the
/// cut-off parts as sampling weights.
pub fn proportional_shares(amount: i128, ws: &Vec<i128>) -> (r: (Vec<i128>, Vec<u128>))
    requires
        split_inputs_ok(amount as int, ws@),
    ensures
        r.0@.len() == ws@.len(),
        r.1@.len() == ws@.len(),
        forall|i: int|
            0 <= i < ws@.len() ==> #[trigger] r.0@[i] == share_floor(
                ws@[i] as int,
                amount as int,
                seq_sum(ws@),
            ),
        forall|i: int|
            0 <= i < ws@.len() ==> #[trigger] r.1@[i] == share_cut(
                ws@[i] as int,
                amount as int,
                seq_sum(ws@),
            ),
{
    let mut total: i128 = 0;
    let mut i: usize = 0;
    while i < ws.len()
        invariant
            i <= ws.len(),
            split_inputs_ok(amount as int, ws@),
            total == seq_sum(ws@.take(i as int)),
            -10_000_000_000_000_000_000_000_000_000_000_000 * i <= total
                <= 10_000_000_000_000_000_000_000_000_000_000_000 * i,
        decreases ws.len() - i,
    {
        proof {
            assert(ws@.take(i + 1).drop_last() =~= ws@.take(i as int));
            assert(ws@.take(i + 1).last() == ws@[i as int]);
        }
        total = total + ws[i];
        i = i + 1;
    }
    proof {
        assert(ws@.take(ws@.len() as int) =~= ws@);
    }
    let mut floors: Vec<i128> = Vec::new();
    let mut cuts: Vec<u128> = Vec::new();
    let mut j: usize = 0;
    while j < ws.len()
        invariant
            j <= ws.len(),
            split_inputs_ok(amount as int, ws@),
            total == seq_sum(ws@),
            floors@.len() == j,
            cuts@.len() == j,
            forall|k: int|
                0 <= k < j ==> #[trigger] floors@[k] == share_floor(
                    ws@[k] as int,
                    amount as int,
                    total as int,
                ),
            forall|k: int|
                0 <= k < j ==> #[trigger] cuts@[k] == share_cut(
                    ws@[k] as int,
                    amount as int,
                    total as int,
                ),
        decreases ws.len() - j,
    {
        let w = ws[j];
        assert(-1_000_000_000_000_000_000_000_000_000_000_000_000 <= w * amount
            <= 1_000_000_000_000_000_000_000_000_000_000_000_000);
        let n = w * amount;
        let q = floor_div(n, total);
        proof {
            lemma_share_cut_range(w as int, amount as int, total as int);
            lemma_share_cut_range_n(n as int, total as int);
        }
        let qt = q_times_total(n, total, q);
        let cut: i128 = if total > 0 {
            n - qt
        } else {
            qt - n
        };
        assert(cut == share_cut(w as int, amount as int, total as int));
        assert(0 <= cut);
        let ghost old_f = floors@;
        let ghost old_c = cuts@;
        floors.push(q);
        cuts.push(cut as u128);
        j = j + 1;
        proof {
            assert forall|k: int| 0 <= k < j implies #[trigger] floors@[k] == share_floor(
                ws@[k] as int,
                amount as int,
                total as int,
            ) by {
                if k == j - 1 {
                    assert(floors@[k] == q);
                    assert(ws@[k] == w);
                } else {
                    assert(floors@[k] == old_f[k]);
                }
            }
            assert forall|k: int| 0 <= k < j implies #[trigger] cuts@[k] == share_cut(
                ws@[k] as int,
                amount as int,
                total as int,
            ) by {
                if k == j - 1 {
                    assert(cuts@[k] == cut);
                    assert(ws@[k] == w);
                } else {
                    assert(cuts@[k] == old_c[k]);
                }
            }
        }

    }
    (floors, cuts)
}

/// `q * total` for the floor `q` of `n / total`, which lies within one
/// `total` of `n`.
fn q_times_total(n: i128, total: i128, q: i128) -> (r: i128)
    requires
        total != 0,
        -10_000_000_000_000_000_000_000_000_000_000_000 <= total
            <= 10_000_000_000_000_000_000_000_000_000_000_000,
        -1_000_000_000_000_000_000_000_000_000_000_000_000 <= n
            <= 1_000_000_000_000_000_000_000_000_000_000_000_000,
        q == floor_div_spec(n as int, total as int),
    ensures
        r == q * total,
{
    proof {
        lemma_share_cut_range_n(n as int, total as int);
    }
    q * total
}

proof fn lemma_share_cut_range_n(n: int, total: int)
    requires
        total != 0,
    ensures
        total > 0 ==> n - total < floor_div_spec(n, total) * total <= n,
        total < 0 ==> n <= floor_div_spec(n, total) * total < n - total,
{
    if total > 0 {
        vstd::arithmetic::div_mod::lemma_fundamental_div_mod(n, total);
        vstd::arithmetic::div_mod::lemma_mod_bound(n, total);
        assert(total * (n / total) == (n / total) * total) by (nonlinear_arith);
    } else {
        vstd::arithmetic::div_mod::lemma_fundamental_div_mod(-n, -total);
        vstd::arithmetic::div_mod::lemma_mod_bound(-n, -total);
        let q = (-n) / (-total);
        assert((-total) * q == -(q * total)) by (nonlinear_arith);
    }
}


/// Sum of the rounded-down shares of the first `k` weights.
pub open spec fn sum_floors(ws: Seq<i128>, amount: int, total: int, k: int) -> int
    decreases k,
{
    if k <= 0 {
        0
    } else {
        sum_floors(ws, amount, total, k - 1) + share_floor(ws[k - 1] as int, amount, total)
    }
}

/// Sum of the cut-off parts of the first `k` weights.
pub open spec fn sum_cuts(ws: Seq<i128>, amount: int, total: int, k: int) -> int
    decreases k,
{
    if k <= 0 {
        0
    } else {
        sum_cuts(ws, amount, total, k - 1) + share_cut(ws[k - 1] as int, amount, total)
    }
}

proof fn lemma_cuts_identity(ws: Seq<i128>, amount: int, total: int, k: int)
    requires
        0 <= k <= ws.len(),
        total != 0,
    ensures
        total > 0 ==> sum_cuts(ws, amount, total, k) == amount * seq_sum(ws.take(k)) - total
            * sum_floors(ws, amount, total, k),
        total < 0 ==> sum_cuts(ws, amount, total, k) == total * sum_floors(ws, amount, total, k)
            - amount * seq_sum(ws.take(k)),
        sum_cuts(ws, amount, total, k) >= 0,
    decreases k,
{
    if k == 0 {
        assert(ws.take(0) =~= Seq::<i128>::empty());
    } else {
        lemma_cuts_identity(ws, amount, total, k - 1);
        assert(ws.take(k).drop_last() =~= ws.take(k - 1));
        assert(ws.take(k).last() == ws[k - 1]);
        let w = ws[k - 1] as int;
        let q = share_floor(w, amount, total);
        lemma_share_cut_range(w, amount, total);
        let sf = sum_floors(ws, amount, total, k - 1);
        let sw = seq_sum(ws.take(k - 1));
        assert(amount * (sw + w) == amount * sw + w * amount) by (nonlinear_arith);
        assert(total * (sf + q) == total * sf + q * total) by (nonlinear_arith);
    }
}

/// Splitting in proportion, every share rounded down, leaves a remainder of
/// the amount that is never negative and less than one money unit per share:
/// the cut-off parts add up to exactly `|total|` times it.
pub proof fn lemma_split_remainder(ws: Seq<i128>, amount: int)
    requires
        split_inputs_ok(amount, ws),
    ensures
        ({
            let total = seq_sum(ws);
            let rem = amount - sum_floors(ws, amount, total, ws.len() as int);
            &&& total > 0 ==> sum_cuts(ws, amount, total, ws.len() as int) == total * rem
            &&& total < 0 ==> sum_cuts(ws, amount, total, ws.len() as int) == -total * rem
            &&& 0 <= rem
        }),
{
    let total = seq_sum(ws);
    let n = ws.len() as int;
    lemma_cuts_identity(ws, amount, total, n);
    assert(ws.take(n) =~= ws);
    let sf = sum_floors(ws, amount, total, n);
    assert(amount * total - total * sf == total * (amount - sf)) by (nonlinear_arith);
    assert(total * sf - amount * total == -total * (amount - sf)) by (nonlinear_arith);
    if total > 0 {
        assert(amount - sf >= 0) by (nonlinear_arith)
            requires
                total * (amount - sf) >= 0,
                total > 0,
        ;
    } else {
        assert(amount - sf >= 0) by (nonlinear_arith)
            requires
                -total * (amount - sf) >= 0,
                total < 0,
        ;
    }
}

proof fn lemma_sum_floors_matches(floors: Seq<i128>, ws: Seq<i128>, amount: int, total: int, k: int)
    requires
        0 <= k <= ws.len(),
        floors.len() == ws.len(),
        forall|i: int| 0 <= i < ws.len() ==> #[trigger] floors[i] == share_floor(ws[i] as int, amount, total),
    ensures
        seq_sum(floors.take(k)) == sum_floors(ws, amount, total, k),
    decreases k,
{
    if k == 0 {
        assert(floors.take(0) =~= Seq::<i128>::empty());
    } else {
        lemma_sum_floors_matches(floors, ws, amount, total, k - 1);
        assert(floors.take(k).drop_last() =~= floors.take(k - 1));
        assert(floors.take(k).last() == floors[k - 1]);
    }
}

proof fn lemma_weight_sum_matches(cuts: Seq<u128>, ws: Seq<i128>, amount: int, total: int, k: int)
    requires
        0 <= k <= ws.len(),
        cuts.len() == ws.len(),
        forall|i: int| 0 <= i < ws.len() ==> #[trigger] cuts[i] == share_cut(ws[i] as int, amount, total),
    ensures
        weight_sum(cuts.take(k)) == sum_cuts(ws, amount, total, k),
    decreases k,
{
    if k == 0 {
        assert(cuts.take(0) =~= Seq::<u128>::empty());
    } else {
        lemma_weight_sum_matches(cuts, ws, amount, total, k - 1);
        assert(cuts.take(k).drop_last() =~= cuts.take(k - 1));
        assert(cuts.take(k).last() == cuts[k - 1]);
    }
}

proof fn lemma_seq_sum_update(s: Seq<i128>, j: int, v: i128)
    requires
        0 <= j < s.len(),
    ensures
        seq_sum(s.update(j, v)) == seq_sum(s) - s[j] + v,
    decreases s.len(),
{
    if j == s.len() - 1 {
        assert(s.update(j, v).drop_last() =~= s.drop_last());
    } else {
        lemma_seq_sum_update(s.drop_last(), j, v);
        assert(s.update(j, v).drop_last() =~= s.drop_last().update(j, v));
    }
}

/// Split `amount` in proportion to `ws` (whose sum is nonzero): every share
/// is rounded down to a money unit, and the whole remainder goes to one share
/// drawn at random with probability proportional to what rounding cut off it.
/// The shares always add up to the amount.
pub fn split_proportionally(amount: i128, ws: &Vec<i128>) -> (r: Vec<i128>)
    requires
        split_inputs_ok(amount as int, ws@),
    ensures
        r@.len() == ws@.len(),
        seq_sum(r@) == amount,
        exists|j: int| 0 <= j < ws@.len() && #[trigger] remainder_goes_to(r@, ws@, amount as int, j),
{
    let ghost total = seq_sum(ws@);
    let ghost n = ws@.len() as int;
    let (floors, cuts) = proportional_shares(amount, ws);
    proof {
        lemma_split_remainder(ws@, amount as int);
        lemma_sum_floors_matches(floors@, ws@, amount as int, total, n);
        lemma_weight_sum_matches(cuts@, ws@, amount as int, total, n);
        assert(floors@.take(n) =~= floors@);
        assert(cuts@.take(n) =~= cuts@);
    }
    let mut sum: i128 = 0;
    let mut i: usize = 0;
    while i < floors.len()
        invariant
            i <= floors.len(),
            floors@.len() == n,
            n == ws@.len(),
            split_inputs_ok(amount as int, ws@),
            total == seq_sum(ws@),
            forall|k: int|
                0 <= k < n ==> #[trigger] floors@[k] == share_floor(ws@[k] as int, amount as int, total),
            sum == seq_sum(floors@.take(i as int)),
            sum == sum_floors(ws@, amount as int, total, i as int),
            -20_000_000_000_000_000_000_000_000_000_000_000 * i <= sum
                <= 20_000_000_000_000_000_000_000_000_000_000_000 * i,
        decreases floors.len() - i,
    {
        proof {
            assert(floors@.take(i + 1).drop_last() =~= floors@.take(i as int));
            assert(floors@.take(i + 1).last() == floors@[i as int]);
            lemma_share_floor_bound(ws@[i as int] as int, amount as int, total);
        }
        sum = sum + floors[i];
        i = i + 1;
    }
    proof {
        assert(floors@.take(n) =~= floors@);
        lemma_sum_cuts_bound(ws@, amount as int, total, n);
        lemma_remainder_below_count(ws@, amount as int);
    }
    let remainder = amount - sum;
    let mut shares = floors;
    match sample_weighted_index(&cuts) {
        Some(j) => {
            let ghost before = shares@;
            proof {
                lemma_share_floor_bound(ws@[j as int] as int, amount as int, total);
            }
            let v = shares[j] + remainder;
            shares.set(j, v);
            proof {
                lemma_seq_sum_update(before, j as int, v);
                assert(remainder_goes_to(shares@, ws@, amount as int, j as int));
            }
        },
        None => {
            proof {
                lemma_zero_weights_zero_sum(cuts@);
                assert(remainder == 0) by (nonlinear_arith)
                    requires
                        total > 0 ==> 0 == total * remainder,
                        total < 0 ==> 0 == -total * remainder,
                        total != 0,
                ;
                assert(remainder_goes_to(shares@, ws@, amount as int, 0));
            }
        },
    }
    shares
}

proof fn lemma_sum_cuts_bound(ws: Seq<i128>, amount: int, total: int, k: int)
    requires
        0 <= k <= ws.len(),
        total != 0,
        -10_000_000_000_000_000_000_000_000_000_000_000 <= total
            <= 10_000_000_000_000_000_000_000_000_000_000_000,
    ensures
        0 <= sum_cuts(ws, amount, total, k) <= 10_000_000_000_000_000_000_000_000_000_000_000 * k,
    decreases k,
{
    if k > 0 {
        lemma_sum_cuts_bound(ws, amount, total, k - 1);
        lemma_share_cut_range(ws[k - 1] as int, amount, total);
    }
}

/// What is left after rounding every share down is less than one money unit
/// per share.
proof fn lemma_remainder_below_count(ws: Seq<i128>, amount: int)
    requires
        split_inputs_ok(amount, ws),
    ensures
        amount - sum_floors(ws, amount, seq_sum(ws), ws.len() as int) < ws.len(),
{
    let total = seq_sum(ws);
    let n = ws.len() as int;
    lemma_split_remainder(ws, amount);
    lemma_sum_cuts_below(ws, amount, total, n);
    let rem = amount - sum_floors(ws, amount, total, n);
    if total > 0 {
        assert(rem < n) by (nonlinear_arith)
            requires
                total * rem < total * n,
                total > 0,
        ;
    } else {
        assert(rem < n) by (nonlinear_arith)
            requires
                -total * rem < -total * n,
                total < 0,
        ;
    }
}

proof fn lemma_sum_cuts_below(ws: Seq<i128>, amount: int, total: int, k: int)
    requires
        0 < k <= ws.len(),
        total != 0,
    ensures
        total > 0 ==> sum_cuts(ws, amount, total, k) < total * k,
        total < 0 ==> sum_cuts(ws, amount, total, k) < -total * k,
    decreases k,
{
    lemma_share_cut_range(ws[k - 1] as int, amount, total);
    if k > 1 {
        lemma_sum_cuts_below(ws, amount, total, k - 1);
    } else {
        assert(sum_cuts(ws, amount, total, 0) == 0);
    }
    assert(total * k == total * (k - 1) + total) by (nonlinear_arith);
    assert(-total * k == -total * (k - 1) - total) by (nonlinear_arith);
}

proof fn lemma_zero_weights_zero_sum(ws: Seq<u128>)
    requires
        forall|i: int| 0 <= i < ws.len() ==> ws[i] == 0,
    ensures
        weight_sum(ws) == 0,
    decreases ws.len(),
{
    if ws.len() > 0 {
        lemma_zero_weights_zero_sum(ws.drop_last());
    }
}

proof fn lemma_share_floor_bound(w: int, amount: int, total: int)
    requires
        total != 0,
        -10_000_000_000_000_000_000_000_000_000_000_000 <= w * amount
            <= 10_000_000_000_000_000_000_000_000_000_000_000,
    ensures
        -20_000_000_000_000_000_000_000_000_000_000_000 <= share_floor(w, amount, total)
            <= 20_000_000_000_000_000_000_000_000_000_000_000,
{
    let n = w * amount;
    let q = share_floor(w, amount, total);
    lemma_share_cut_range_n(n, total);
    let b = 10_000_000_000_000_000_000_000_000_000_000_000int;
    if total > 0 {
        assert(-2 * b <= q <= 2 * b) by (nonlinear_arith)
            requires
                n - total < q * total <= n,
                total >= 1,
                -b <= n <= b,
                b > 0,
        ;
    } else {
        assert(-2 * b <= q <= 2 * b) by (nonlinear_arith)
            requires
                n <= q * total < n - total,
                total <= -1,
                -b <= n <= b,
                b > 0,
        ;
    }
}

/// The shares `r` are the rounded-down shares of `amount` in proportion to
/// `ws`, with the whole remainder added to share `j`.
pub open spec fn remainder_goes_to(r: Seq<i128>, ws: Seq<i128>, amount: int, j: int) -> bool {
    forall|i: int|
        0 <= i < ws.len() ==> #[trigger] r[i] == share_floor(ws[i] as int, amount, seq_sum(ws)) + (
        if i == j {
            amount - sum_floors(ws, amount, seq_sum(ws), ws.len() as int)
        } else {
            0
        })
}


/// Bound on the credits and balances the credit bookkeeping is proved for
/// (money units: one hundred billion in currency).
pub const CREDIT_LIMIT: i128 = 1_000_000_000_000_000;

/// Bound on the number of owners of one account.
pub const MAX_OWNERS: usize = 1000;

/// The credit amounts of a list of owner credits, in order.
pub open spec fn credits_of(cs: Seq<OwnerCredit>) -> Seq<i128> {
    cs.map_values(|c: OwnerCredit| c.credit)
}

/// The sum of a list of owner credits.
pub open spec fn credit_total(cs: Seq<OwnerCredit>) -> int {
    seq_sum(credits_of(cs))
}

/// At most `MAX_OWNERS` amounts, each within `CREDIT_LIMIT`.
pub open spec fn amounts_bounded(s: Seq<i128>) -> bool {
    &&& s.len() <= MAX_OWNERS
    &&& forall|i: int| 0 <= i < s.len() ==> -CREDIT_LIMIT <= #[trigger] s[i] <= CREDIT_LIMIT
}

proof fn lemma_seq_sum_bounded(s: Seq<i128>, b: int)
    requires
        b >= 0,
        forall|i: int| 0 <= i < s.len() ==> -b <= #[trigger] s[i] <= b,
    ensures
        -b * s.len() <= seq_sum(s) <= b * s.len(),
    decreases s.len(),
{
    if s.len() > 0 {
        let t = s.drop_last();
        assert forall|i: int| 0 <= i < t.len() implies -b <= #[trigger] t[i] <= b by {
            assert(t[i] == s[i]);
        }
        lemma_seq_sum_bounded(t, b);
        assert(s.last() == s[s.len() - 1]);
        assert(b * s.len() == b * (s.len() - 1) + b) by (nonlinear_arith);
        assert(-b * s.len() == -b * (s.len() - 1) - b) by (nonlinear_arith);
    }
}

/// A sum of up to `MAX_OWNERS` bounded amounts, computed exactly.
fn sum_amounts(s: &Vec<i128>) -> (t: i128)
    requires
        amounts_bounded(s@),
    ensures
        t == seq_sum(s@),
        -1_000_000_000_000_000_000 <= t <= 1_000_000_000_000_000_000,
{
    let mut t: i128 = 0;
    let mut i: usize = 0;
    while i < s.len()
        invariant
            i <= s.len(),
            amounts_bounded(s@),
            t == seq_sum(s@.take(i as int)),
            -1_000_000_000_000_000 * i <= t <= 1_000_000_000_000_000 * i,
        decreases s.len() - i,
    {
        proof {
            assert(s@.take(i + 1).drop_last() =~= s@.take(i as int));
            assert(s@.take(i + 1).last() == s@[i as int]);
        }
        assert(-CREDIT_LIMIT <= s@[i as int] <= CREDIT_LIMIT);
        t = t + s[i];
        i = i + 1;
    }
    proof {
        assert(s@.take(s@.len() as int) =~= s@);
    }
    t
}

/// The credit amounts of `cs`.
fn credit_amounts(cs: &Vec<OwnerCredit>) -> (r: Vec<i128>)
    ensures
        r@ == credits_of(cs@),
{
    let mut r: Vec<i128> = Vec::new();
    let mut i: usize = 0;
    while i < cs.len()
        invariant
            i <= cs.len(),
            r@ =~= credits_of(cs@.take(i as int)),
        decreases cs.len() - i,
    {
        r.push(cs[i].credit);
        i = i + 1;
        proof {
            assert(credits_of(cs@.take(i as int)) =~= credits_of(cs@.take(i - 1)).push(cs@[i - 1].credit));
        }
    }
    proof {
        assert(cs@.take(cs@.len() as int) =~= cs@);
    }
    r
}

proof fn lemma_split_inputs(amount: int, ws: Seq<i128>)
    requires
        amounts_bounded(ws),
        ws.len() > 0,
        seq_sum(ws) != 0,
        -1_001_000_000_000_000_000 <= amount <= 1_001_000_000_000_000_000,
    ensures
        split_inputs_ok(amount, ws),
{
    lemma_seq_sum_bounded(ws, CREDIT_LIMIT as int);
    assert forall|i: int| 0 <= i < ws.len() implies -10_000_000_000_000_000_000_000_000_000_000_000
        <= (#[trigger] ws[i]) * amount <= 10_000_000_000_000_000_000_000_000_000_000_000 by {
        let w = ws[i] as int;
        assert(-CREDIT_LIMIT <= ws[i] <= CREDIT_LIMIT);
        assert(-1_001_000_000_000_000_000_000_000_000_000_000 <= w * amount
            <= 1_001_000_000_000_000_000_000_000_000_000_000) by (nonlinear_arith)
            requires
                -1_000_000_000_000_000 <= w <= 1_000_000_000_000_000,
                -1_001_000_000_000_000_000 <= amount <= 1_001_000_000_000_000_000,
        ;
    }
}

/// What the owners' credits of an account should add up to: the account's
/// balance plus the credits it holds in the accounts it owns.
pub open spec fn credit_target(total_balance: int, owned_credits: Seq<i128>) -> int {
    total_balance + seq_sum(owned_credits)
}

/// Whether the owners' credits are left as they are: no owners, open
/// positions (here or one level down), credits that add up to zero, or
/// credits that already add up to the target.
pub open spec fn rebalance_skipped(
    credits: Seq<OwnerCredit>,
    open_positions: bool,
    total_balance: int,
    owned_credits: Seq<i128>,
) -> bool {
    ||| credits.len() == 0
    ||| open_positions
    ||| credit_total(credits) == 0
    ||| credit_total(credits) == credit_target(total_balance, owned_credits)
}

/// Scale the owners' credits of an account so that they add up to the
/// account's balance plus the credits it holds in the accounts it owns:
/// each new credit is the old one times the target over the old sum, rounded
/// down to a money unit, with the whole rounding remainder given to one
/// owner drawn with probability proportional to what rounding cut off their
/// share.  Returns `None` when the credits are left as they are.
pub fn rebalance_owner_credits(
    credits: &Vec<OwnerCredit>,
    open_positions: bool,
    total_balance: i128,
    owned_credits: &Vec<i128>,
) -> (r: Option<Vec<OwnerCredit>>)
    requires
        amounts_bounded(credits_of(credits@)),
        amounts_bounded(owned_credits@),
        -CREDIT_LIMIT <= total_balance <= CREDIT_LIMIT,
    ensures
        r is None <==> rebalance_skipped(credits@, open_positions, total_balance as int, owned_credits@),
        r matches Some(new) ==> {
            &&& new@.len() == credits@.len()
            &&& forall|i: int| 0 <= i < credits@.len() ==> (#[trigger] new@[i]).owner_id == credits@[i].owner_id
            &&& credit_total(new@) == credit_target(total_balance as int, owned_credits@)
            &&& exists|j: int|
                0 <= j < credits@.len() && #[trigger] remainder_goes_to(
                    credits_of(new@),
                    credits_of(credits@),
                    credit_target(total_balance as int, owned_credits@),
                    j,
                )
        },
{
    if credits.len() == 0 || open_positions {
        return None;
    }
    let weights = credit_amounts(credits);
    let current = sum_amounts(&weights);
    if current == 0 {
        return None;
    }
    let owned = sum_amounts(owned_credits);
    let target = total_balance + owned;
    if current == target {
        return None;
    }
    proof {
        lemma_split_inputs(target as int, weights@);
    }
    let shares = split_proportionally(target, &weights);
    let mut new: Vec<OwnerCredit> = Vec::new();
    let mut i: usize = 0;
    while i < credits.len()
        invariant
            i <= credits.len(),
            shares@.len() == credits@.len(),
            new@.len() == i,
            forall|k: int| 0 <= k < i ==> (#[trigger] new@[k]).owner_id == credits@[k].owner_id,
            forall|k: int| 0 <= k < i ==> (#[trigger] new@[k]).credit == shares@[k],
        decreases credits.len() - i,
    {
        new.push(OwnerCredit { owner_id: credits[i].owner_id, credit: shares[i] });
        i = i + 1;
    }
    proof {
        assert(credits_of(new@) =~= shares@);
        let j = choose|j: int|
            0 <= j < weights@.len() && #[trigger] remainder_goes_to(shares@, weights@, target as int, j);
        assert(remainder_goes_to(credits_of(new@), credits_of(credits@), target as int, j));
        assert(credit_total(new@) == seq_sum(shares@));
    }
    Some(new)
}


/// The credits of the owners other than `from`, in order.
pub open spec fn other_credits(cs: Seq<OwnerCredit>, from: i64) -> Seq<i128>
    decreases cs.len(),
{
    if cs.len() == 0 {
        Seq::empty()
    } else {
        let rest = other_credits(cs.drop_last(), from);
        if cs.last().owner_id != from {
            rest.push(cs.last().credit)
        } else {
            rest
        }
    }
}

/// The weights a leaving owner's credit is split by: the other owners'
/// credits, or equal weights when those add up to zero.
pub open spec fn redistribution_weights(cs: Seq<OwnerCredit>, from: i64) -> Seq<i128> {
    let o = other_credits(cs, from);
    if seq_sum(o) == 0 {
        Seq::new(o.len(), |i: int| 1i128)
    } else {
        o
    }
}

/// `new` is `cs` after owner `from` handed its credit `amount` to the other
/// owners, who received `adds` (in their order): a proportional split by
/// `redistribution_weights`, rounded down, with the remainder given to one of
/// them.  `from` is left with nothing.
pub open spec fn is_redistribution(
    cs: Seq<OwnerCredit>,
    from: i64,
    amount: int,
    new: Seq<OwnerCredit>,
    adds: Seq<i128>,
) -> bool {
    &&& adds.len() == other_credits(cs, from).len()
    &&& exists|j: int|
        0 <= j < adds.len() && #[trigger] remainder_goes_to(
            adds,
            redistribution_weights(cs, from),
            amount,
            j,
        )
    &&& new.len() == cs.len()
    &&& forall|i: int|
        0 <= i < cs.len() ==> (#[trigger] new[i]).owner_id == cs[i].owner_id && new[i].credit == (
        if cs[i].owner_id == from {
            0
        } else {
            cs[i].credit + adds[other_credits(cs.take(i), from).len() as int]
        })
}

/// `new` is some redistribution of `from`'s credit `amount` in `cs`.
pub open spec fn redistributes(cs: Seq<OwnerCredit>, from: i64, amount: int, new: Seq<OwnerCredit>) -> bool {
    exists|adds: Seq<i128>| #[trigger] is_redistribution(cs, from, amount, new, adds)
}

/// What handing on `from`'s credit in an account with owner credits `cs`
/// gives: `AccountNotFound` when the account has no owners, `NotOwner` when
/// `from` is not one of them; the credits unchanged when `from`'s credit is
/// zero or there is no other owner; else a redistribution (which one depends
/// on a random draw).
pub open spec fn redistribute_outcome(
    cs: Seq<OwnerCredit>,
    from: i64,
    r: Result<Vec<OwnerCredit>, ValidationFailure>,
) -> bool {
    if cs.len() == 0 {
        r == Err::<Vec<OwnerCredit>, ValidationFailure>(ValidationFailure::AccountNotFound)
    } else {
        match crate::db::transfers::find_credit(cs, from) {
            None => r == Err::<Vec<OwnerCredit>, ValidationFailure>(ValidationFailure::NotOwner),
            Some(k) => match r {
                Err(_) => false,
                Ok(new) => if cs[k].credit == 0 || other_credits(cs, from).len() == 0 {
                    new@ == cs
                } else {
                    redistributes(cs, from, cs[k].credit as int, new@)
                },
            },
        }
    }
}

proof fn lemma_other_credits_bounded(cs: Seq<OwnerCredit>, from: i64)
    requires
        amounts_bounded(credits_of(cs)),
    ensures
        amounts_bounded(other_credits(cs, from)),
        other_credits(cs, from).len() <= cs.len(),
    decreases cs.len(),
{
    if cs.len() > 0 {
        let t = cs.drop_last();
        assert(credits_of(t) =~= credits_of(cs).drop_last());
        lemma_other_credits_bounded(t, from);
        assert(credits_of(cs)[cs.len() - 1] == cs.last().credit);
        let o = other_credits(cs, from);
        let ot = other_credits(t, from);
        assert forall|i: int| 0 <= i < o.len() implies -CREDIT_LIMIT <= #[trigger] o[i] <= CREDIT_LIMIT by {
            if i < ot.len() {
                assert(o[i] == ot[i]);
            }
        }
    }
}

proof fn lemma_ones_sum(n: nat)
    ensures
        seq_sum(Seq::new(n, |i: int| 1i128)) == n,
    decreases n,
{
    if n > 0 {
        lemma_ones_sum((n - 1) as nat);
        assert(Seq::new(n, |i: int| 1i128).drop_last() =~= Seq::new((n - 1) as nat, |i: int| 1i128));
    }
}

/// The credits of the owners other than `from`, in order.
fn collect_other_credits(cs: &Vec<OwnerCredit>, from: i64) -> (r: Vec<i128>)
    ensures
        r@ == other_credits(cs@, from),
{
    let mut r: Vec<i128> = Vec::new();
    let mut i: usize = 0;
    while i < cs.len()
        invariant
            i <= cs.len(),
            r@ == other_credits(cs@.take(i as int), from),
        decreases cs.len() - i,
    {
        proof {
            assert(cs@.take(i + 1).drop_last() =~= cs@.take(i as int));
            assert(cs@.take(i + 1).last() == cs@[i as int]);
        }
        if cs[i].owner_id != from {
            r.push(cs[i].credit);
        }
        i = i + 1;
    }
    proof {
        assert(cs@.take(cs@.len() as int) =~= cs@);
    }
    r
}

/// An owner leaves the account's credit bookkeeping: its credit is split
/// among the other owners in proportion to their credits (equally when
/// those add up to zero), rounded down to a money unit with the remainder
/// given to one of them at random, and its own credit becomes zero.
pub fn redistribute_owner_credit(credits: &Vec<OwnerCredit>, from_owner_id: i64) -> (r: Result<
    Vec<OwnerCredit>,
    ValidationFailure,
>)
    requires
        amounts_bounded(credits_of(credits@)),
    ensures
        redistribute_outcome(credits@, from_owner_id, r),
{
    if credits.len() == 0 {
        return Err(ValidationFailure::AccountNotFound);
    }
    let from_index = match crate::db::transfers::find_owner_credit(credits, from_owner_id) {
        Some(k) => k,
        None => return Err(ValidationFailure::NotOwner),
    };
    let from_credit = credits[from_index].credit;
    let others = collect_other_credits(credits, from_owner_id);
    if from_credit == 0 || others.len() == 0 {
        let same = credits.clone();
        proof {
            assert(same@ =~= credits@);
        }
        return Ok(same);
    }
    proof {
        lemma_other_credits_bounded(credits@, from_owner_id);
        assert(credits_of(credits@)[from_index as int] == from_credit);
    }
    let others_total = sum_amounts(&others);
    let weights: Vec<i128> = if others_total == 0 {
        let mut ones: Vec<i128> = Vec::new();
        let mut k: usize = 0;
        while k < others.len()
            invariant
                k <= others.len(),
                ones@ =~= Seq::new(k as nat, |i: int| 1i128),
            decreases others.len() - k,
        {
            ones.push(1);
            k = k + 1;
        }
        proof {
            lemma_ones_sum(others@.len());
        }
        ones
    } else {
        others.clone()
    };
    proof {
        assert(weights@ =~= redistribution_weights(credits@, from_owner_id));
        assert(amounts_bounded(weights@));
        lemma_split_inputs(from_credit as int, weights@);
    }
    let adds = split_proportionally(from_credit, &weights);
    proof {
        let j = choose|j: int| 0 <= j < weights@.len() && #[trigger] remainder_goes_to(adds@, weights@, from_credit as int, j);
        lemma_remainder_below_count(weights@, from_credit as int);
        assert forall|i: int| 0 <= i < adds@.len() implies -30_000_000_000_000_000_000_000_000_000_000_000
            <= #[trigger] adds@[i] <= 30_000_000_000_000_000_000_000_000_000_000_000 by {
            lemma_share_floor_bound(weights@[i] as int, from_credit as int, seq_sum(weights@));
            lemma_split_remainder(weights@, from_credit as int);
        }
    }
    let mut new: Vec<OwnerCredit> = Vec::new();
    let mut i: usize = 0;
    let mut k: usize = 0;
    let n_adds = adds.len();
    while i < credits.len()
        invariant
            i <= credits.len(),
            n_adds == adds@.len(),
            amounts_bounded(credits_of(credits@)),
            adds@.len() == other_credits(credits@, from_owner_id).len(),
            forall|m: int| 0 <= m < adds@.len() ==> -30_000_000_000_000_000_000_000_000_000_000_000
                <= #[trigger] adds@[m] <= 30_000_000_000_000_000_000_000_000_000_000_000,
            k == other_credits(credits@.take(i as int), from_owner_id).len(),
            new@.len() == i,
            forall|m: int|
                0 <= m < i ==> (#[trigger] new@[m]).owner_id == credits@[m].owner_id && new@[m].credit == (
                if credits@[m].owner_id == from_owner_id {
                    0
                } else {
                    credits@[m].credit + adds@[other_credits(credits@.take(m), from_owner_id).len() as int]
                }),
        decreases credits.len() - i,
    {
        proof {
            assert(credits@.take(i + 1).drop_last() =~= credits@.take(i as int));
            assert(credits@.take(i + 1).last() == credits@[i as int]);
            lemma_other_credits_prefix(credits@, from_owner_id, i as int);
            assert(credits_of(credits@)[i as int] == credits@[i as int].credit);
        }
        let c = credits[i];
        if c.owner_id == from_owner_id {
            new.push(OwnerCredit { owner_id: c.owner_id, credit: 0 });
        } else {
            new.push(OwnerCredit { owner_id: c.owner_id, credit: c.credit + adds[k] });
            assert(k < n_adds);
            k = k + 1;
        }
        i = i + 1;
    }
    proof {
        assert(credits@.take(credits@.len() as int) =~= credits@);
        let j = choose|j: int| 0 <= j < weights@.len() && #[trigger] remainder_goes_to(adds@, weights@, from_credit as int, j);
        assert(is_redistribution(credits@, from_owner_id, from_credit as int, new@, adds@));
    }
    Ok(new)
}

/// The others' credits of a prefix are a prefix of the others' credits.
proof fn lemma_other_credits_prefix(cs: Seq<OwnerCredit>, from: i64, m: int)
    requires
        0 <= m <= cs.len(),
    ensures
        other_credits(cs.take(m), from).len() <= other_credits(cs, from).len(),
        m < cs.len() && cs[m].owner_id != from ==> other_credits(cs.take(m), from).len()
            < other_credits(cs, from).len(),
    decreases cs.len() - m,
{
    if m < cs.len() {
        lemma_other_credits_prefix(cs, from, m + 1);
        assert(cs.take(m + 1).drop_last() =~= cs.take(m));
        assert(cs.take(m + 1).last() == cs[m]);
    } else {
        assert(cs.take(m) =~= cs);
    }
}


/// The sum of the credits `owner` holds in `cs`.
pub open spec fn owner_part(cs: Seq<OwnerCredit>, owner: i64) -> int
    decreases cs.len(),
{
    if cs.len() == 0 {
        0
    } else {
        owner_part(cs.drop_last(), owner) + if cs.last().owner_id == owner {
            cs.last().credit as int
        } else {
            0
        }
    }
}

/// No owner appears twice.
pub open spec fn owners_distinct(cs: Seq<OwnerCredit>) -> bool {
    forall|i: int, j: int|
        0 <= i < j < cs.len() ==> (#[trigger] cs[i]).owner_id != (#[trigger] cs[j]).owner_id
}

proof fn lemma_seq_sum_push(s: Seq<i128>, v: i128)
    ensures
        seq_sum(s.push(v)) == seq_sum(s) + v,
{
    assert(s.push(v).drop_last() =~= s);
}

proof fn lemma_credit_total_step(cs: Seq<OwnerCredit>, m: int)
    requires
        0 <= m < cs.len(),
    ensures
        credit_total(cs.take(m + 1)) == credit_total(cs.take(m)) + cs[m].credit,
{
    assert(credits_of(cs.take(m + 1)) =~= credits_of(cs.take(m)).push(cs[m].credit));
    lemma_seq_sum_push(credits_of(cs.take(m)), cs[m].credit);
}

/// The shares of a proportional split with the remainder added to one of
/// them add up to the amount split.
pub proof fn lemma_remainder_split_sum(r: Seq<i128>, ws: Seq<i128>, amount: int, j: int)
    requires
        r.len() == ws.len(),
        0 <= j < ws.len(),
        remainder_goes_to(r, ws, amount, j),
    ensures
        seq_sum(r) == amount,
{
    let total = seq_sum(ws);
    let n = ws.len() as int;
    let rem = amount - sum_floors(ws, amount, total, n);
    lemma_remainder_split_prefix(r, ws, amount, j, n);
    assert(r.take(n) =~= r);
}

proof fn lemma_remainder_split_prefix(r: Seq<i128>, ws: Seq<i128>, amount: int, j: int, m: int)
    requires
        r.len() == ws.len(),
        0 <= j < ws.len(),
        0 <= m <= ws.len(),
        remainder_goes_to(r, ws, amount, j),
    ensures
        seq_sum(r.take(m)) == sum_floors(ws, amount, seq_sum(ws), m) + if j < m {
            amount - sum_floors(ws, amount, seq_sum(ws), ws.len() as int)
        } else {
            0
        },
    decreases m,
{
    if m == 0 {
        assert(r.take(0) =~= Seq::<i128>::empty());
    } else {
        lemma_remainder_split_prefix(r, ws, amount, j, m - 1);
        assert(r.take(m) =~= r.take(m - 1).push(r[m - 1]));
        lemma_seq_sum_push(r.take(m - 1), r[m - 1]);
        assert(r[m - 1] == share_floor(ws[m - 1] as int, amount, seq_sum(ws)) + if m - 1 == j {
            amount - sum_floors(ws, amount, seq_sum(ws), ws.len() as int)
        } else {
            0
        });
    }
}

proof fn lemma_redistribution_prefix(
    cs: Seq<OwnerCredit>,
    from: i64,
    amount: int,
    new: Seq<OwnerCredit>,
    adds: Seq<i128>,
    m: int,
)
    requires
        is_redistribution(cs, from, amount, new, adds),
        0 <= m <= cs.len(),
    ensures
        credit_total(new.take(m)) == credit_total(cs.take(m)) - owner_part(cs.take(m), from)
            + seq_sum(adds.take(other_credits(cs.take(m), from).len() as int)),
    decreases m,
{
    if m == 0 {
        assert(new.take(0) =~= Seq::<OwnerCredit>::empty());
        assert(cs.take(0) =~= Seq::<OwnerCredit>::empty());
        assert(credits_of(Seq::<OwnerCredit>::empty()) =~= Seq::<i128>::empty());
        assert(adds.take(0) =~= Seq::<i128>::empty());
    } else {
        lemma_redistribution_prefix(cs, from, amount, new, adds, m - 1);
        lemma_credit_total_step(new, m - 1);
        lemma_credit_total_step(cs, m - 1);
        assert(cs.take(m).drop_last() =~= cs.take(m - 1));
        assert(cs.take(m).last() == cs[m - 1]);
        lemma_other_credits_prefix(cs, from, m - 1);
        let k = other_credits(cs.take(m - 1), from).len() as int;
        if cs[m - 1].owner_id != from {
            assert(adds.take(k + 1) =~= adds.take(k).push(adds[k]));
            lemma_seq_sum_push(adds.take(k), adds[k]);
        }
    }
}

proof fn lemma_owner_part_absent(cs: Seq<OwnerCredit>, owner: i64)
    requires
        forall|i: int| 0 <= i < cs.len() ==> (#[trigger] cs[i]).owner_id != owner,
    ensures
        owner_part(cs, owner) == 0,
    decreases cs.len(),
{
    if cs.len() > 0 {
        let t = cs.drop_last();
        assert forall|i: int| 0 <= i < t.len() implies (#[trigger] t[i]).owner_id != owner by {
            assert(t[i] == cs[i]);
        }
        lemma_owner_part_absent(t, owner);
        assert(cs.last() == cs[cs.len() - 1]);
    }
}

proof fn lemma_owner_part_single(cs: Seq<OwnerCredit>, owner: i64, k: int)
    requires
        owners_distinct(cs),
        0 <= k < cs.len(),
        cs[k].owner_id == owner,
    ensures
        owner_part(cs, owner) == cs[k].credit,
    decreases cs.len(),
{
    let t = cs.drop_last();
    assert(cs.last() == cs[cs.len() - 1]);
    if k == cs.len() - 1 {
        assert forall|i: int| 0 <= i < t.len() implies (#[trigger] t[i]).owner_id != owner by {
            assert(t[i] == cs[i]);
            assert(cs[i].owner_id != cs[k].owner_id);
        }
        lemma_owner_part_absent(t, owner);
    } else {
        assert forall|i: int, j: int| 0 <= i < j < t.len() implies (#[trigger] t[i]).owner_id
            != (#[trigger] t[j]).owner_id by {
            assert(t[i] == cs[i] && t[j] == cs[j]);
        }
        assert(t[k] == cs[k]);
        lemma_owner_part_single(t, owner, k);
        assert(cs[k].owner_id != cs[cs.len() - 1].owner_id);
    }
}

/// Handing on an owner's credit neither creates nor destroys credit: when
/// no owner appears twice, the credits after a redistribution add up to the
/// credits before it, and the leaving owner is left with none.
pub proof fn lemma_redistribute_conserves_credit(cs: Seq<OwnerCredit>, from: i64, new: Seq<OwnerCredit>)
    requires
        owners_distinct(cs),
        crate::db::transfers::find_credit(cs, from) is Some,
        redistributes(
            cs,
            from,
            cs[crate::db::transfers::find_credit(cs, from)->Some_0].credit as int,
            new,
        ),
    ensures
        credit_total(new) == credit_total(cs),
        forall|i: int| 0 <= i < new.len() && (#[trigger] new[i]).owner_id == from ==> new[i].credit == 0,
{
    let k = crate::db::transfers::find_credit(cs, from)->Some_0;
    crate::db::transfers::lemma_find_credit(cs, from);
    let amount = cs[k].credit as int;
    let adds = choose|adds: Seq<i128>| #[trigger] is_redistribution(cs, from, amount, new, adds);
    let ws = redistribution_weights(cs, from);
    let j = choose|j: int| 0 <= j < adds.len() && #[trigger] remainder_goes_to(adds, ws, amount, j);
    lemma_remainder_split_sum(adds, ws, amount, j);
    lemma_redistribution_prefix(cs, from, amount, new, adds, cs.len() as int);
    assert(cs.take(cs.len() as int) =~= cs);
    assert(new.take(new.len() as int) =~= new);
    assert(adds.take(adds.len() as int) =~= adds);
    lemma_owner_part_single(cs, from, k);
}

} // verus!
