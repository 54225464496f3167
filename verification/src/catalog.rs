//! The item catalog: what is stocked, where, and at what unit cost.
//!
//! The catalog creates items and edits their descriptive fields. Quantity
//! and unit cost change only through the stock ledger.

use vstd::prelude::*;
use crate::ledger::{
    has_room, ingredient_ok, item_ok, next_row_id, row_index, stock_level, stock_terms,
    transaction_ok, Ledger, LedgerView,
};
use crate::model::{InventoryTransaction, Item, LedgerError, TransactionType};
use crate::money::{lemma_total_zeros, unit_cost, unit_cost_of};
use crate::stock::{lemma_stock_level_push, lemma_unit_costs_keep_recipes_current};

verus! {

/// Whether a new item is well formed: it has a name, and neither its
/// quantity nor its cost is negative.
pub open spec fn item_valid(name: String, quantity: i64, cost: i64) -> bool {
    name@.len() > 0 && quantity >= 0 && cost >= 0
}

/// Whether `item` passes a filter: where a category is asked for it has
/// that category, and where a location is asked for it has that location.
pub open spec fn item_matches(
    item: Item,
    category: Option<String>,
    location: Option<String>,
) -> bool {
    &&& category matches Some(c) ==> item.category@ == c@
    &&& location matches Some(l) ==> (item.location matches Some(at) && at@ == l@)
}

impl LedgerView {
    /// The row of a new item. Its unit cost spreads the cost over the
    /// opening quantity.
    pub open spec fn new_item(
        self,
        name: String,
        category: String,
        quantity: i64,
        unit: String,
        cost: i64,
        expiration_date: Option<i64>,
        location: Option<String>,
    ) -> Item {
        Item {
            id: (self.items.len() + 1) as u64,
            name,
            category,
            quantity,
            unit,
            cost,
            cost_per_unit: unit_cost(cost as int, quantity as int) as i64,
            expiration_date,
            location,
        }
    }

    /// Whether there is a row id for a new item and, where it opens with
    /// stock, for the receipt that accounts for it.
    pub open spec fn item_room(self, quantity: i64) -> bool {
        has_room(self.items.len()) && (quantity > 0 ==> has_room(self.transactions.len()))
    }

    /// The ledger with a new item. An opening quantity is logged as a
    /// receipt dated `created_at`, so that the item's quantity is the sum of
    /// its transactions from the start.
    pub open spec fn with_item(self, item: Item, created_at: i64) -> LedgerView {
        LedgerView {
            items: self.items.push(item),
            transactions: if item.quantity > 0 {
                self.transactions.push(
                    self.next_transaction(
                        item.id,
                        TransactionType::In,
                        item.quantity,
                        created_at,
                        None,
                    ),
                )
            } else {
                self.transactions
            },
            ..self
        }
    }

    /// The item with its descriptive fields replaced.
    pub open spec fn edited_item(
        self,
        id: u64,
        name: String,
        category: String,
        unit: String,
        expiration_date: Option<i64>,
        location: Option<String>,
    ) -> Item {
        Item { name, category, unit, expiration_date, location, ..self.item(id) }
    }

    /// The items among the first `n` that pass a filter, in id order.
    pub open spec fn listed_among(
        self,
        category: Option<String>,
        location: Option<String>,
        n: int,
    ) -> Seq<Item>
        decreases n,
    {
        if n <= 0 {
            Seq::empty()
        } else {
            let before = self.listed_among(category, location, n - 1);
            if item_matches(self.items[n - 1], category, location) {
                before.push(self.items[n - 1])
            } else {
                before
            }
        }
    }

    /// The items that pass a filter, in id order.
    pub open spec fn listed_items(
        self,
        category: Option<String>,
        location: Option<String>,
    ) -> Seq<Item> {
        self.listed_among(category, location, self.items.len() as int)
    }
}

impl Ledger {
    /// Adds an item to the catalog and returns its id.
    pub fn create_item(
        &mut self,
        name: String,
        category: String,
        quantity: i64,
        unit: String,
        cost: i64,
        expiration_date: Option<i64>,
        location: Option<String>,
        created_at: i64,
    ) -> (result: Result<u64, LedgerError>)
        requires
            old(self).wf(),
        ensures
            final(self).wf(),
            result is Err ==> final(self)@ == old(self)@,
            !item_valid(name, quantity, cost) ==> result matches Err(LedgerError::Validation),
            item_valid(name, quantity, cost) && !old(self)@.item_room(quantity)
                ==> result matches Err(LedgerError::Storage),
            item_valid(name, quantity, cost) && old(self)@.item_room(quantity) ==> {
                &&& result == Ok::<u64, LedgerError>((old(self)@.items.len() + 1) as u64)
                &&& final(self)@ == old(self)@.with_item(
                    old(self)@.new_item(
                        name,
                        category,
                        quantity,
                        unit,
                        cost,
                        expiration_date,
                        location,
                    ),
                    created_at,
                )
            },
    {
        if name.as_str().is_empty() || quantity < 0 || cost < 0 {
            return Err(LedgerError::Validation);
        }
        let id: u64 = match next_row_id(self.items.len()) {
            None => {
                return Err(LedgerError::Storage);
            },
            Some(id) => id,
        };
        let ghost before = self@;
        let item = Item {
            id,
            name,
            category,
            quantity,
            unit,
            cost,
            cost_per_unit: unit_cost_of(cost, quantity),
            expiration_date,
            location,
        };
        if quantity > 0 {
            let row_id: u64 = match next_row_id(self.transactions.len()) {
                None => {
                    return Err(LedgerError::Storage);
                },
                Some(row_id) => row_id,
            };
            self.transactions.push(
                InventoryTransaction {
                    id: row_id,
                    item_id: id,
                    transaction_type: TransactionType::In,
                    change_quantity: quantity,
                    transaction_date: created_at,
                    notes: None,
                },
            );
        }
        self.items.push(item);
        proof {
            let after = self@;
            assert(after == before.with_item(item, created_at));
            lemma_unit_costs_keep_recipes_current(before, after);
            assert(after.rows_ok()) by {
                assert forall|i: int| 0 <= i < after.items.len() implies item_ok(
                    #[trigger] after.items[i],
                    i,
                ) by {
                    if i < before.items.len() {
                        assert(item_ok(before.items[i], i));
                    }
                }
                assert forall|i: int|
                    0 <= i < after.transactions.len() implies transaction_ok(
                    #[trigger] after.transactions[i],
                    i,
                    after.items.len(),
                ) by {
                    if i < before.transactions.len() {
                        assert(transaction_ok(
                            before.transactions[i],
                            i,
                            before.items.len(),
                        ));
                    }
                }
                assert forall|i: int|
                    0 <= i < after.ingredients.len() implies ingredient_ok(
                    #[trigger] after.ingredients[i],
                    after.next_ingredient_id,
                    after.recipes.len(),
                    after.items.len(),
                ) by {
                    assert(ingredient_ok(
                        before.ingredients[i],
                        before.next_ingredient_id,
                        before.recipes.len(),
                        before.items.len(),
                    ));
                }
            }
            assert(after.stock_consistent()) by {
                assert forall|i: int| 0 <= i < after.items.len() implies (
                #[trigger] after.items[i]).quantity == stock_level(
                    after.transactions,
                    (i + 1) as u64,
                ) by {
                    let item_id = (i + 1) as u64;
                    if i < before.items.len() {
                        assert(item_ok(before.items[i], i));
                        assert(before.items[i].quantity == stock_level(
                            before.transactions,
                            item_id,
                        ));
                    } else {
                        assert forall|k: int| 0 <= k < before.transactions.len() implies stock_terms(
                            before.transactions,
                            item_id,
                        )[k] == 0 by {
                            assert(transaction_ok(
                                before.transactions[k],
                                k,
                                before.items.len(),
                            ));
                        }
                        lemma_total_zeros(stock_terms(before.transactions, item_id));
                    }
                    if quantity > 0 {
                        lemma_stock_level_push(
                            before.transactions,
                            after.transactions.last(),
                            item_id,
                        );
                    }
                }
            }
        }
        Ok(id)
    }

    /// Replaces the descriptive fields of item `id`. Quantity, cost and
    /// unit cost are not touched.
    pub fn update_item(
        &mut self,
        id: u64,
        name: String,
        category: String,
        unit: String,
        expiration_date: Option<i64>,
        location: Option<String>,
    ) -> (result: Result<(), LedgerError>)
        requires
            old(self).wf(),
        ensures
            final(self).wf(),
            result is Err ==> final(self)@ == old(self)@,
            name@.len() == 0 ==> result matches Err(LedgerError::Validation),
            name@.len() > 0 && !old(self)@.has_item(id) ==> result matches Err(
                LedgerError::NotFound,
            ),
            name@.len() > 0 && old(self)@.has_item(id) ==> {
                &&& result is Ok
                &&& final(self)@ == (LedgerView {
                    items: old(self)@.items.update(
                        id - 1,
                        old(self)@.edited_item(
                            id,
                            name,
                            category,
                            unit,
                            expiration_date,
                            location,
                        ),
                    ),
                    ..old(self)@
                })
            },
    {
        if name.as_str().is_empty() {
            return Err(LedgerError::Validation);
        }
        let at: usize = match row_index(id, self.items.len()) {
            None => {
                return Err(LedgerError::NotFound);
            },
            Some(at) => at,
        };
        let ghost before = self@;
        self.items[at].name = name;
        self.items[at].category = category;
        self.items[at].unit = unit;
        self.items[at].expiration_date = expiration_date;
        self.items[at].location = location;
        proof {
            let after = self@;
            assert(after.items =~= before.items.update(
                id - 1,
                before.edited_item(id, name, category, unit, expiration_date, location),
            ));
            lemma_unit_costs_keep_recipes_current(before, after);
            assert(after.rows_ok()) by {
                assert forall|i: int| 0 <= i < after.items.len() implies item_ok(
                    #[trigger] after.items[i],
                    i,
                ) by {
                    assert(item_ok(before.items[i], i));
                }
            }
            assert(after.stock_consistent()) by {
                assert forall|i: int| 0 <= i < after.items.len() implies (
                #[trigger] after.items[i]).quantity == stock_level(
                    after.transactions,
                    (i + 1) as u64,
                ) by {
                    assert(before.items[i].quantity == stock_level(
                        before.transactions,
                        (i + 1) as u64,
                    ));
                }
            }
        }
        Ok(())
    }

    /// The item with id `id`, if there is one.
    pub fn get_item(&self, id: u64) -> (item: Option<&Item>)
        ensures
            self@.has_item(id) ==> item == Some(&self@.item(id)),
            !self@.has_item(id) ==> item is None,
    {
        match row_index(id, self.items.len()) {
            None => None,
            Some(at) => Some(&self.items[at]),
        }
    }

    /// The items of a category, at a location, or both; all items where
    /// neither is asked for.
    pub fn list_items(&self, category: &Option<String>, location: &Option<String>) -> (items: Vec<
        &Item,
    >)
        ensures
            items@.len() == self@.listed_items(*category, *location).len(),
            forall|k: int|
                0 <= k < items@.len() ==> *(#[trigger] items@[k]) == self@.listed_items(
                    *category,
                    *location,
                )[k],
    {
        let mut items: Vec<&Item> = Vec::new();
        let mut i: usize = 0;
        while i < self.items.len()
            invariant
                i <= self.items.len(),
                items@.len() == self@.listed_among(*category, *location, i as int).len(),
                forall|k: int|
                    0 <= k < items@.len() ==> *(#[trigger] items@[k]) == self@.listed_among(
                        *category,
                        *location,
                        i as int,
                    )[k],
            decreases self.items.len() - i,
        {
            let item: &Item = &self.items[i];
            let category_ok: bool = match category {
                None => true,
                Some(c) => item.category == *c,
            };
            let location_ok: bool = match location {
                None => true,
                Some(l) => match &item.location {
                    None => false,
                    Some(at) => *at == *l,
                },
            };
            if category_ok && location_ok {
                items.push(item);
            }
            i += 1;
        }
        items
    }
}

} // verus!
