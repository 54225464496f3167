//! The stock ledger: an append-only log of movements that is the only way
//! to change an item's quantity or unit cost.

use vstd::prelude::*;
use crate::ledger::{
    cost_terms, has_room, in_table, is_current, item_ok, next_row_id, recipe_cost, recipe_ok,
    recosted, row_index, signed_change, stock_level, stock_terms, transaction_ok, Ledger,
    LedgerView,
};
use crate::model::{
    InventoryTransaction, Item, LedgerError, Shortfall, StockChange, TransactionType,
};
use crate::money::{
    accumulate, fits, lemma_total_push, product, restocked_cost, restocked_unit_cost,
};

verus! {

/// A new transaction adds its signed quantity to the level of its own item
/// and nothing to the level of any other.
pub proof fn lemma_stock_level_push(
    transactions: Seq<InventoryTransaction>,
    t: InventoryTransaction,
    item_id: u64,
)
    ensures
        stock_level(transactions.push(t), item_id) == stock_level(transactions, item_id) + (if t.item_id
            == item_id {
            signed_change(t)
        } else {
            0
        }),
{
    let term: int = if t.item_id == item_id {
        signed_change(t)
    } else {
        0
    };
    assert(stock_terms(transactions.push(t), item_id) =~= stock_terms(transactions, item_id).push(
        term,
    ));
    lemma_total_push(stock_terms(transactions, item_id), term);
}

/// A recipe's cost depends on the items only through the unit costs of
/// those that were there when its ingredients were written.
pub proof fn lemma_recipe_cost_reads_unit_costs(s: LedgerView, items: Seq<Item>, recipe_id: u64)
    requires
        s.rows_ok(),
        items.len() >= s.items.len(),
        forall|i: int|
            0 <= i < s.items.len() ==> (#[trigger] items[i]).cost_per_unit
                == s.items[i].cost_per_unit,
    ensures
        recipe_cost(items, s.ingredients, recipe_id) == recipe_cost(
            s.items,
            s.ingredients,
            recipe_id,
        ),
{
    assert forall|k: int| 0 <= k < s.ingredients.len() implies cost_terms(
        items,
        s.ingredients,
        recipe_id,
    )[k] == cost_terms(s.items, s.ingredients, recipe_id)[k] by {
        let g = s.ingredients[k];
        assert(in_table(g.item_id, s.items.len()));
        assert(items[g.item_id - 1].cost_per_unit == s.items[g.item_id - 1].cost_per_unit);
    }
    assert(cost_terms(items, s.ingredients, recipe_id) =~= cost_terms(
        s.items,
        s.ingredients,
        recipe_id,
    ));
}

impl LedgerView {
    /// The row that the next stock movement is logged as.
    pub open spec fn next_transaction(
        self,
        item_id: u64,
        transaction_type: TransactionType,
        change_quantity: i64,
        transaction_date: i64,
        notes: Option<String>,
    ) -> InventoryTransaction {
        InventoryTransaction {
            id: (self.transactions.len() + 1) as u64,
            item_id,
            transaction_type,
            change_quantity,
            transaction_date,
            notes,
        }
    }

    /// Item `item_id` after `change_quantity` units have left.
    pub open spec fn issued_item(self, item_id: u64, change_quantity: i64) -> Item {
        Item {
            quantity: (self.item(item_id).quantity - change_quantity) as i64,
            ..self.item(item_id)
        }
    }

    /// The ledger after `change_quantity` units of item `item_id` have left:
    /// the quantity goes down and the movement is logged. Unit costs, and
    /// with them every recipe, stay as they are.
    pub open spec fn issued(
        self,
        item_id: u64,
        change_quantity: i64,
        transaction_date: i64,
        notes: Option<String>,
    ) -> LedgerView {
        LedgerView {
            items: self.items.update(item_id - 1, self.issued_item(item_id, change_quantity)),
            transactions: self.transactions.push(
                self.next_transaction(
                    item_id,
                    TransactionType::Out,
                    change_quantity,
                    transaction_date,
                    notes,
                ),
            ),
            ..self
        }
    }

    /// Item `item_id` after `change_quantity` units costing `total_cost`
    /// in all have arrived: its unit cost becomes the weighted average of
    /// what was on hand and what arrived.
    pub open spec fn received_item(self, item_id: u64, change_quantity: i64, total_cost: i64) -> Item {
        let item = self.item(item_id);
        Item {
            quantity: (item.quantity + change_quantity) as i64,
            cost: restocked_cost(
                item.quantity as int,
                item.cost_per_unit as int,
                total_cost as int,
            ) as i64,
            cost_per_unit: restocked_unit_cost(
                item.quantity as int,
                item.cost_per_unit as int,
                change_quantity as int,
                total_cost as int,
            ) as i64,
            ..item
        }
    }

    /// The items table after a receipt.
    pub open spec fn received_items(
        self,
        item_id: u64,
        change_quantity: i64,
        total_cost: i64,
    ) -> Seq<Item> {
        self.items.update(item_id - 1, self.received_item(item_id, change_quantity, total_cost))
    }

    /// Whether everything that a receipt changes can be stored: the item's
    /// new quantity and value, and the derived fields of every recipe at
    /// the new unit cost.
    pub open spec fn receipt_fits(self, item_id: u64, change_quantity: i64, total_cost: i64) -> bool {
        let item = self.item(item_id);
        let staged = LedgerView {
            items: self.received_items(item_id, change_quantity, total_cost),
            ..self
        };
        &&& fits(item.quantity + change_quantity)
        &&& fits(
            restocked_cost(item.quantity as int, item.cost_per_unit as int, total_cost as int),
        )
        &&& forall|j: int| 0 <= j < self.recipes.len() ==> staged.costing_fits_at(j)
    }

    /// The ledger after a receipt: the item is updated, the movement is
    /// logged, and every recipe is costed again.
    pub open spec fn received(
        self,
        item_id: u64,
        change_quantity: i64,
        total_cost: i64,
        transaction_date: i64,
        notes: Option<String>,
    ) -> LedgerView {
        let items = self.received_items(item_id, change_quantity, total_cost);
        LedgerView {
            items,
            transactions: self.transactions.push(
                self.next_transaction(
                    item_id,
                    TransactionType::In,
                    change_quantity,
                    transaction_date,
                    notes,
                ),
            ),
            recipes: recosted(items, self.ingredients, self.recipes),
            ..self
        }
    }
}

/// Whether a requested movement is well formed: no negative quantity, no
/// negative cost.
pub open spec fn movement_valid(change: StockChange, change_quantity: i64) -> bool {
    &&& change_quantity >= 0
    &&& change matches StockChange::In { total_cost } ==> total_cost >= 0
}

/// Logging a movement of one item keeps every item's quantity equal to the
/// signed sum of its transactions, provided the moved item's quantity
/// changes by the movement's signed quantity.
pub proof fn lemma_movement_keeps_stock_consistent(
    s: LedgerView,
    after: LedgerView,
    t: InventoryTransaction,
)
    requires
        s.rows_ok(),
        s.stock_consistent(),
        in_table(t.item_id, s.items.len()),
        after.items.len() == s.items.len(),
        after.transactions == s.transactions.push(t),
        forall|i: int|
            0 <= i < s.items.len() && i != t.item_id - 1 ==> (#[trigger] after.items[i]).quantity
                == s.items[i].quantity,
        after.items[t.item_id - 1].quantity == s.items[t.item_id - 1].quantity + signed_change(t),
    ensures
        after.stock_consistent(),
{
    assert forall|i: int| 0 <= i < after.items.len() implies (#[trigger] after.items[i]).quantity
        == stock_level(after.transactions, (i + 1) as u64) by {
        assert(item_ok(s.items[i], i));
        lemma_stock_level_push(s.transactions, t, (i + 1) as u64);
        assert(s.items[i].quantity == stock_level(s.transactions, (i + 1) as u64));
    }
}

/// Where the items keep their unit costs, whatever items are added, and the
/// ingredients stay, the recipes stay current.
pub proof fn lemma_unit_costs_keep_recipes_current(s: LedgerView, after: LedgerView)
    requires
        s.rows_ok(),
        s.costs_current(),
        after.items.len() >= s.items.len(),
        forall|i: int|
            0 <= i < s.items.len() ==> (#[trigger] after.items[i]).cost_per_unit
                == s.items[i].cost_per_unit,
        after.ingredients == s.ingredients,
        after.recipes == s.recipes,
    ensures
        after.costs_current(),
{
    assert forall|j: int| 0 <= j < after.recipes.len() implies is_current(
        after.items,
        after.ingredients,
        #[trigger] after.recipes[j],
    ) by {
        lemma_recipe_cost_reads_unit_costs(s, after.items, s.recipes[j].id);
        assert(is_current(s.items, s.ingredients, s.recipes[j]));
    }
}

impl Ledger {
    /// Records a stock movement of `change_quantity` units of item
    /// `item_id`.
    ///
    /// An issue that asks for more than is on hand is refused. A receipt
    /// moves the item's unit cost to the weighted average and costs every
    /// recipe again. Either all of this happens or none of it.
    pub fn record_transaction(
        &mut self,
        item_id: u64,
        change: StockChange,
        change_quantity: i64,
        transaction_date: i64,
        notes: Option<String>,
    ) -> (result: Result<u64, LedgerError>)
        requires
            old(self).wf(),
        ensures
            final(self).wf(),
            result is Err ==> final(self)@ == old(self)@,
            !movement_valid(change, change_quantity) ==> result matches Err(
                LedgerError::Validation,
            ),
            movement_valid(change, change_quantity) && !old(self)@.has_item(item_id)
                ==> result matches Err(LedgerError::NotFound),
            movement_valid(change, change_quantity) && old(self)@.has_item(item_id) ==> match change {
                StockChange::Out => if change_quantity > old(self)@.item(item_id).quantity {
                    result matches Err(LedgerError::InsufficientStock(short)) && short@ == seq![
                        Shortfall {
                            item_id,
                            required: change_quantity,
                            available: old(self)@.item(item_id).quantity,
                        },
                    ]
                } else if !has_room(old(self)@.transactions.len()) {
                    result matches Err(LedgerError::Storage)
                } else {
                    &&& result == Ok::<u64, LedgerError>((old(self)@.transactions.len() + 1) as u64)
                    &&& final(self)@ == old(self)@.issued(
                        item_id,
                        change_quantity,
                        transaction_date,
                        notes,
                    )
                },
                StockChange::In { total_cost } => if !has_room(old(self)@.transactions.len())
                    || !old(self)@.receipt_fits(item_id, change_quantity, total_cost) {
                    result matches Err(LedgerError::Storage)
                } else {
                    &&& result == Ok::<u64, LedgerError>((old(self)@.transactions.len() + 1) as u64)
                    &&& final(self)@ == old(self)@.received(
                        item_id,
                        change_quantity,
                        total_cost,
                        transaction_date,
                        notes,
                    )
                },
            },
    {
        if change_quantity < 0 {
            return Err(LedgerError::Validation);
        }
        match change {
            StockChange::In { total_cost } => {
                if total_cost < 0 {
                    return Err(LedgerError::Validation);
                }
            },
            StockChange::Out => {},
        }
        let at: usize = match row_index(item_id, self.items.len()) {
            None => {
                return Err(LedgerError::NotFound);
            },
            Some(at) => at,
        };
        assert(item_ok(self@.items[at as int], at as int));
        match change {
            StockChange::Out => self.issue(at, change_quantity, transaction_date, notes),
            StockChange::In { total_cost } => self.receive(
                at,
                change_quantity,
                total_cost,
                transaction_date,
                notes,
            ),
        }
    }

    /// Takes `change_quantity` units of the item at position `at` out of
    /// stock.
    pub(crate) fn issue(
        &mut self,
        at: usize,
        change_quantity: i64,
        transaction_date: i64,
        notes: Option<String>,
    ) -> (result: Result<u64, LedgerError>)
        requires
            old(self).wf(),
            at < old(self)@.items.len(),
            change_quantity >= 0,
        ensures
            final(self).wf(),
            result is Err ==> final(self)@ == old(self)@,
            if change_quantity > old(self)@.items[at as int].quantity {
                result matches Err(LedgerError::InsufficientStock(short)) && short@ == seq![
                    Shortfall {
                        item_id: (at + 1) as u64,
                        required: change_quantity,
                        available: old(self)@.items[at as int].quantity,
                    },
                ]
            } else if !has_room(old(self)@.transactions.len()) {
                result matches Err(LedgerError::Storage)
            } else {
                &&& result == Ok::<u64, LedgerError>((old(self)@.transactions.len() + 1) as u64)
                &&& final(self)@ == old(self)@.issued(
                    (at + 1) as u64,
                    change_quantity,
                    transaction_date,
                    notes,
                )
            },
    {
        assert(item_ok(self@.items[at as int], at as int));
        let item_id: u64 = self.items[at].id;
        let available: i64 = self.items[at].quantity;
        if change_quantity > available {
            let mut short: Vec<Shortfall> = Vec::new();
            short.push(Shortfall { item_id, required: change_quantity, available });
            assert(short@ =~= seq![Shortfall { item_id, required: change_quantity, available }]);
            return Err(LedgerError::InsufficientStock(short));
        }
        let id: u64 = match next_row_id(self.transactions.len()) {
            None => {
                return Err(LedgerError::Storage);
            },
            Some(id) => id,
        };
        let row = InventoryTransaction {
            id,
            item_id,
            transaction_type: TransactionType::Out,
            change_quantity,
            transaction_date,
            notes,
        };
        self.items[at].quantity = available - change_quantity;
        self.transactions.push(row);
        proof {
            let before = old(self)@;
            let after = self@;
            assert(after.items =~= before.items.update(
                at as int,
                before.issued_item(item_id, change_quantity),
            ));
            assert(after == before.issued(item_id, change_quantity, transaction_date, notes));
            lemma_movement_keeps_stock_consistent(before, after, row);
            lemma_unit_costs_keep_recipes_current(before, after);
            assert(after.rows_ok()) by {
                assert forall|i: int| 0 <= i < after.items.len() implies item_ok(
                    #[trigger] after.items[i],
                    i,
                ) by {
                    assert(item_ok(before.items[i], i));
                }
                assert forall|i: int|
                    0 <= i < after.transactions.len() implies transaction_ok(
                    #[trigger] after.transactions[i],
                    i,
                    after.items.len(),
                ) by {
                    if i < before.transactions.len() {
                        assert(transaction_ok(
                            before.transactions[i],
                            i,
                            before.items.len(),
                        ));
                    }
                }
            }
        }
        Ok(id)
    }

    /// Puts `change_quantity` units costing `total_cost` in all into the
    /// stock of the item at position `at`.
    fn receive(
        &mut self,
        at: usize,
        change_quantity: i64,
        total_cost: i64,
        transaction_date: i64,
        notes: Option<String>,
    ) -> (result: Result<u64, LedgerError>)
        requires
            old(self).wf(),
            at < old(self)@.items.len(),
            change_quantity >= 0,
            total_cost >= 0,
        ensures
            final(self).wf(),
            result is Err ==> final(self)@ == old(self)@,
            if !has_room(old(self)@.transactions.len()) || !old(self)@.receipt_fits(
                (at + 1) as u64,
                change_quantity,
                total_cost,
            ) {
                result matches Err(LedgerError::Storage)
            } else {
                &&& result == Ok::<u64, LedgerError>((old(self)@.transactions.len() + 1) as u64)
                &&& final(self)@ == old(self)@.received(
                    (at + 1) as u64,
                    change_quantity,
                    total_cost,
                    transaction_date,
                    notes,
                )
            },
    {
        assert(item_ok(self@.items[at as int], at as int));
        let item_id: u64 = self.items[at].id;
        let quantity: i64 = self.items[at].quantity;
        let cost: i64 = self.items[at].cost;
        let cost_per_unit: i64 = self.items[at].cost_per_unit;
        let id: u64 = match next_row_id(self.transactions.len()) {
            None => {
                return Err(LedgerError::Storage);
            },
            Some(id) => id,
        };
        let new_quantity: i64 = match accumulate(quantity, change_quantity as i128) {
            None => {
                return Err(LedgerError::Storage);
            },
            Some(q) => q,
        };
        let new_cost: i64 = match accumulate(total_cost, product(quantity, cost_per_unit)) {
            None => {
                return Err(LedgerError::Storage);
            },
            Some(c) => c,
        };
        assert(quantity * cost_per_unit >= 0) by (nonlinear_arith)
            requires
                quantity >= 0,
                cost_per_unit >= 0,
        ;
        let new_cost_per_unit: i64 = if new_quantity > 0 {
            assert(0 <= (new_cost as int) / (new_quantity as int) <= new_cost) by (nonlinear_arith)
                requires
                    new_cost >= 0,
                    new_quantity > 0,
            ;
            new_cost / new_quantity
        } else {
            cost_per_unit
        };
        self.items[at].quantity = new_quantity;
        self.items[at].cost = new_cost;
        self.items[at].cost_per_unit = new_cost_per_unit;
        let ghost before = old(self)@;
        let ghost staged = self@;
        proof {
            assert(staged.items =~= before.received_items(item_id, change_quantity, total_cost));
            assert(staged == (LedgerView {
                items: before.received_items(item_id, change_quantity, total_cost),
                ..before
            }));
            assert(staged.rows_ok()) by {
                assert forall|i: int| 0 <= i < staged.items.len() implies item_ok(
                    #[trigger] staged.items[i],
                    i,
                ) by {
                    assert(item_ok(before.items[i], i));
                }
            }
        }
        let costings = match self.all_costings() {
            None => {
                self.items[at].quantity = quantity;
                self.items[at].cost = cost;
                self.items[at].cost_per_unit = cost_per_unit;
                assert(self@.items =~= before.items);
                return Err(LedgerError::Storage);
            },
            Some(cs) => cs,
        };
        self.store_costings(&costings);
        let row = InventoryTransaction {
            id,
            item_id,
            transaction_type: TransactionType::In,
            change_quantity,
            transaction_date,
            notes,
        };
        self.transactions.push(row);
        proof {
            let after = self@;
            assert(after.recipes =~= recosted(staged.items, staged.ingredients, before.recipes));
            assert(after == before.received(
                item_id,
                change_quantity,
                total_cost,
                transaction_date,
                notes,
            ));
            lemma_movement_keeps_stock_consistent(before, after, row);
            assert(after.rows_ok()) by {
                assert forall|i: int|
                    0 <= i < after.transactions.len() implies transaction_ok(
                    #[trigger] after.transactions[i],
                    i,
                    after.items.len(),
                ) by {
                    if i < before.transactions.len() {
                        assert(transaction_ok(
                            before.transactions[i],
                            i,
                            before.items.len(),
                        ));
                    }
                }
                assert forall|i: int| 0 <= i < after.recipes.len() implies recipe_ok(
                    #[trigger] after.recipes[i],
                    i,
                ) by {
                    assert(recipe_ok(before.recipes[i], i));
                }
            }
            assert(after.costs_current()) by {
                assert forall|j: int| 0 <= j < after.recipes.len() implies is_current(
                    after.items,
                    after.ingredients,
                    #[trigger] after.recipes[j],
                ) by {
                    assert(staged.costing_fits_at(j));
                    assert(recipe_ok(before.recipes[j], j));
                }
            }
        }
        Ok(id)
    }
}

} // verus!
