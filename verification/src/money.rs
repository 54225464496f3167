//! Exact integer arithmetic on quantities and amounts.
//!
//! Quantities count whole stock units and amounts count whole minor currency
//! units; both are stored as signed 64-bit integers. Intermediate products
//! are formed in 128 bits, so that a result is either exact or reported as
//! not fitting its column. Division rounds toward zero.

use vstd::prelude::*;

verus! {

/// Parts per million: the scale in which a profit margin is stored.
pub const MARGIN_SCALE: i64 = 1_000_000;

/// Whether `v` can be stored in a signed 64-bit column.
pub open spec fn fits(v: int) -> bool {
    i64::MIN <= v <= i64::MAX
}

/// The sum of a sequence of integers.
pub open spec fn total(s: Seq<int>) -> int
    decreases s.len(),
{
    if s.len() == 0 {
        0
    } else {
        total(s.drop_last()) + s.last()
    }
}

/// Appending a term adds it to the sum.
pub proof fn lemma_total_push(s: Seq<int>, x: int)
    ensures
        total(s.push(x)) == total(s) + x,
{
    assert(s.push(x).drop_last() =~= s);
}

/// The sum of the first `k + 1` terms is the sum of the first `k` plus the
/// term at `k`.
pub proof fn lemma_total_take_next(s: Seq<int>, k: int)
    requires
        0 <= k < s.len(),
    ensures
        total(s.take(k + 1)) == total(s.take(k)) + s[k],
{
    assert(s.take(k + 1).drop_last() =~= s.take(k));
}

/// Taking all terms gives the whole sum, and taking none gives zero.
pub proof fn lemma_total_take_ends(s: Seq<int>)
    ensures
        total(s.take(0)) == 0,
        total(s.take(s.len() as int)) == total(s),
{
    assert(s.take(s.len() as int) =~= s);
}

/// Among terms that are never negative, every partial sum lies between zero
/// and the whole sum.
pub proof fn lemma_total_prefix_bound(s: Seq<int>, k: int)
    requires
        forall|i: int| 0 <= i < s.len() ==> s[i] >= 0,
        0 <= k <= s.len(),
    ensures
        0 <= total(s.take(k)) <= total(s),
    decreases s.len() - k,
{
    if k == s.len() {
        assert(s.take(k) =~= s);
        lemma_total_nonnegative(s);
    } else {
        lemma_total_prefix_bound(s, k + 1);
        lemma_total_take_next(s, k);
        lemma_total_nonnegative(s.take(k));
    }
}

/// A sum of terms that are never negative is not negative.
pub proof fn lemma_total_nonnegative(s: Seq<int>)
    requires
        forall|i: int| 0 <= i < s.len() ==> s[i] >= 0,
    ensures
        total(s) >= 0,
    decreases s.len(),
{
    if s.len() > 0 {
        lemma_total_nonnegative(s.drop_last());
    }
}

/// A sum of zeros is zero.
pub proof fn lemma_total_zeros(s: Seq<int>)
    requires
        forall|i: int| 0 <= i < s.len() ==> s[i] == 0,
    ensures
        total(s) == 0,
    decreases s.len(),
{
    if s.len() > 0 {
        lemma_total_zeros(s.drop_last());
    }
}

/// Removing a term takes it off the sum.
pub proof fn lemma_total_remove(s: Seq<int>, k: int)
    requires
        0 <= k < s.len(),
    ensures
        total(s.remove(k)) == total(s) - s[k],
    decreases s.len(),
{
    if k == s.len() - 1 {
        assert(s.remove(k) =~= s.drop_last());
    } else {
        assert(s.remove(k).drop_last() =~= s.drop_last().remove(k));
        lemma_total_remove(s.drop_last(), k);
    }
}

/// The sum of a concatenation is the sum of the parts' sums.
pub proof fn lemma_total_concat(s: Seq<int>, t: Seq<int>)
    ensures
        total(s + t) == total(s) + total(t),
    decreases t.len(),
{
    if t.len() == 0 {
        assert(s + t =~= s);
    } else {
        assert((s + t).drop_last() =~= s + t.drop_last());
        lemma_total_concat(s, t.drop_last());
    }
}

/// The product of two stored values, computed without loss.
pub fn product(a: i64, b: i64) -> (p: i128)
    ensures
        p == a * b,
        -0x4000_0000_0000_0000_0000_0000_0000_0000 <= p <= 0x4000_0000_0000_0000_0000_0000_0000_0000,
{
    assert(-0x4000_0000_0000_0000_0000_0000_0000_0000 <= a * b
        <= 0x4000_0000_0000_0000_0000_0000_0000_0000) by (nonlinear_arith)
        requires
            -0x8000_0000_0000_0000 <= a <= 0x7fff_ffff_ffff_ffff,
            -0x8000_0000_0000_0000 <= b <= 0x7fff_ffff_ffff_ffff,
    ;
    let wide_a: i128 = a as i128;
    let wide_b: i128 = b as i128;
    wide_a * wide_b
}

/// Narrows a wide value to a stored one, or reports that it does not fit.
pub fn narrow(v: i128) -> (r: Option<i64>)
    ensures
        fits(v as int) ==> r == Some(v as i64),
        !fits(v as int) ==> r is None,
{
    if v < -0x8000_0000_0000_0000 || v > 0x7fff_ffff_ffff_ffff {
        None
    } else {
        Some(v as i64)
    }
}

/// Adds a wide term to a stored running sum, or reports that the sum no
/// longer fits.
pub fn accumulate(sum: i64, term: i128) -> (r: Option<i64>)
    requires
        -0x4000_0000_0000_0000_0000_0000_0000_0000 <= term <= 0x4000_0000_0000_0000_0000_0000_0000_0000,
    ensures
        fits(sum + term) ==> r == Some((sum + term) as i64),
        !fits(sum + term) ==> r is None,
{
    let wide: i128 = sum as i128 + term;
    narrow(wide)
}

/// Cost of one unit when `cost` was paid for `quantity` units; zero when
/// there are no units to spread the cost over.
pub open spec fn unit_cost(cost: int, quantity: int) -> int {
    if quantity > 0 {
        cost / quantity
    } else {
        0
    }
}

/// Computes [`unit_cost`].
pub fn unit_cost_of(cost: i64, quantity: i64) -> (r: i64)
    requires
        cost >= 0,
        quantity >= 0,
    ensures
        r == unit_cost(cost as int, quantity as int),
        0 <= r <= cost,
{
    if quantity > 0 {
        assert(0 <= (cost as int) / (quantity as int) <= cost) by (nonlinear_arith)
            requires
                cost >= 0,
                quantity > 0,
        ;
        cost / quantity
    } else {
        0
    }
}

/// Value of the stock on hand right after a restock: what was there, at its
/// unit cost, plus what the restock cost.
pub open spec fn restocked_cost(quantity: int, cost_per_unit: int, restock_cost: int) -> int {
    quantity * cost_per_unit + restock_cost
}

/// Weighted-average unit cost after `added` units costing `restock_cost` in
/// all join `quantity` units valued at `cost_per_unit` each. Where no unit is
/// on hand afterwards the unit cost stays as it was.
pub open spec fn restocked_unit_cost(
    quantity: int,
    cost_per_unit: int,
    added: int,
    restock_cost: int,
) -> int {
    if quantity + added > 0 {
        restocked_cost(quantity, cost_per_unit, restock_cost) / (quantity + added)
    } else {
        cost_per_unit
    }
}

/// What is left of the selling price once the cost is paid.
pub open spec fn profit(selling_price: int, recipe_cost: int) -> int {
    selling_price - recipe_cost
}

/// Profit as a share of the selling price, in parts per million, rounded
/// toward zero; zero where the selling price is not positive.
pub open spec fn margin(profit: int, selling_price: int) -> int {
    if selling_price <= 0 {
        0
    } else if profit >= 0 {
        profit * 1_000_000 / selling_price
    } else {
        -((-profit) * 1_000_000 / selling_price)
    }
}

/// Computes [`margin`], or reports that it does not fit.
pub fn margin_of(profit: i64, selling_price: i64) -> (r: Option<i64>)
    ensures
        fits(margin(profit as int, selling_price as int)) ==> r == Some(
            margin(profit as int, selling_price as int) as i64,
        ),
        !fits(margin(profit as int, selling_price as int)) ==> r is None,
{
    if selling_price <= 0 {
        return Some(0);
    }
    let price: i128 = selling_price as i128;
    if profit >= 0 {
        let scaled: i128 = product(profit, MARGIN_SCALE);
        narrow(scaled / price)
    } else {
        let gain: i128 = -(profit as i128);
        let scaled: i128 = gain * 1_000_000;
        let share: i128 = scaled / price;
        assert(0 <= (scaled as int) / (price as int) <= scaled) by (nonlinear_arith)
            requires
                scaled >= 0,
                price > 0,
        ;
        narrow(-share)
    }
}

} // verus!
