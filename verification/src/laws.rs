//! Laws of the ledger, stated over its spec functions and proved.

use vstd::prelude::*;
use crate::ledger::{costing, is_current, item_ok, recipe_ok, stock_level, LedgerView};
use crate::model::{Item, OrderLine, RecordType};
use crate::orders::{
    lemma_depleted, lemma_need_terms_nonnegative, lines_found, lines_valid, need, order_amount,
    order_fits, shortfalls, shortfalls_among,
};

verus! {

/// In every valid ledger, the quantity of every item is the signed sum of
/// the quantities of its stock transactions.
pub proof fn law_quantity_is_signed_sum(s: LedgerView, item_id: u64)
    requires
        s.wf(),
        s.has_item(item_id),
    ensures
        s.item(item_id).quantity == stock_level(s.transactions, item_id),
        s.item(item_id).quantity >= 0,
{
    let at = item_id - 1;
    assert(item_ok(s.items[at], at));
    assert(s.items[at].quantity == stock_level(s.transactions, (at + 1) as u64));
}

/// Costing a recipe again changes nothing that its cost is computed from:
/// a second evaluation gives the same cost, profit and margin as the first
/// and leaves the ledger as the first left it.
pub proof fn law_recompute_is_idempotent(s: LedgerView, recipe_id: u64)
    requires
        s.has_recipe(recipe_id),
    ensures
        costing(
            s.recomputed(recipe_id).items,
            s.recomputed(recipe_id).ingredients,
            recipe_id,
            s.recomputed(recipe_id).recipe(recipe_id).selling_price,
        ) == costing(s.items, s.ingredients, recipe_id, s.recipe(recipe_id).selling_price),
        s.recomputed(recipe_id).recomputed(recipe_id) == s.recomputed(recipe_id),
{
    let once = s.recomputed(recipe_id);
    assert(once.recomputed(recipe_id).recipes =~= once.recipes);
}

/// In a valid ledger the stored cost, profit and margin of every recipe are
/// already what an evaluation gives: costing a recipe again leaves the
/// ledger as it is.
pub proof fn law_recompute_keeps_valid_ledger(s: LedgerView, recipe_id: u64)
    requires
        s.wf(),
        s.has_recipe(recipe_id),
    ensures
        s.recomputed(recipe_id) == s,
{
    let at = recipe_id - 1;
    assert(recipe_ok(s.recipes[at], at));
    assert(is_current(s.items, s.ingredients, s.recipes[at]));
    assert(s.recomputed(recipe_id).recipes =~= s.recipes);
}

/// Among the first `n` items, the list of shortfalls is empty exactly when
/// the order takes of none of them more than is on hand.
pub proof fn law_shortfalls_among(s: LedgerView, lines: Seq<OrderLine>, n: int)
    requires
        0 <= n <= s.items.len(),
    ensures
        shortfalls_among(s, lines, n).len() == 0 <==> forall|at: int|
            0 <= at < n ==> #[trigger] need(s.ingredients, lines, at) <= s.items[at].quantity,
    decreases n,
{
    if n > 0 {
        law_shortfalls_among(s, lines, n - 1);
        if shortfalls_among(s, lines, n).len() == 0 {
            assert forall|at: int| 0 <= at < n implies #[trigger] need(s.ingredients, lines, at)
                <= s.items[at].quantity by {
                if at < n - 1 {
                } else {
                    assert(need(s.ingredients, lines, n - 1) <= s.items[n - 1].quantity);
                }
            }
        }
    }
}

/// An order is refused for want of stock exactly when it takes of some
/// item more than is on hand.
pub proof fn law_short_order(s: LedgerView, lines: Seq<OrderLine>)
    ensures
        shortfalls(s, lines).len() > 0 <==> exists|at: int|
            0 <= at < s.items.len() && #[trigger] need(s.ingredients, lines, at)
                > s.items[at].quantity,
{
    law_shortfalls_among(s, lines, s.items.len() as int);
}

/// A placed order writes exactly one order row and exactly one entry of the
/// financial ledger: an income of the order's total. It writes one line row
/// for each line, at the recipe's price of the moment, lowers the quantity
/// of each item by what the order takes of it, and leaves recipes and
/// ingredients as they were.
pub proof fn law_placed_order(
    s: LedgerView,
    order_date: i64,
    customer_info: Option<String>,
    lines: Seq<OrderLine>,
    note: String,
)
    requires
        s.wf(),
        lines_valid(lines),
        lines_found(lines, s.recipes.len()),
        order_fits(s, lines),
    ensures
        ({
            let after = s.placed(order_date, customer_info, lines, note);
            &&& after.orders == s.orders.push(s.order_row(order_date, customer_info, lines))
            &&& after.order_items == s.order_items + s.order_rows(lines)
            &&& after.records == s.records.push(s.income_row(order_date, lines))
            &&& after.records.last().record_type == RecordType::Income
            &&& after.records.last().amount == after.orders.last().total_amount
            &&& after.orders.last().total_amount == order_amount(s.recipes, lines)
            &&& after.recipes == s.recipes
            &&& after.ingredients == s.ingredients
            &&& after.items.len() == s.items.len()
            &&& forall|at: int|
                0 <= at < s.items.len() ==> #[trigger] after.items[at] == (Item {
                    quantity: (s.items[at].quantity - need(s.ingredients, lines, at)) as i64,
                    ..s.items[at]
                })
        }),
{
    let booked = s.booked(order_date, customer_info, lines);
    let after = s.placed(order_date, customer_info, lines, note);
    assert(s.items.len() <= u64::MAX) by {
        if s.items.len() > 0 {
            let last = s.items.len() - 1;
            assert(item_ok(s.items[last], last));
        }
    }
    lemma_depleted(booked, lines, order_date, note, s.items.len() as int);
    assert forall|at: int| 0 <= at < s.items.len() implies #[trigger] after.items[at] == (Item {
        quantity: (s.items[at].quantity - need(s.ingredients, lines, at)) as i64,
        ..s.items[at]
    }) by {
        lemma_need_terms_nonnegative(s, lines, at);
    }
}

} // verus!
