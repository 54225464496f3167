//! Recipes and their ingredients.
//!
//! Every change to a recipe's price or ingredients evaluates its cost,
//! profit and margin again in the same step.

use vstd::prelude::*;
use crate::costing::lemma_cost_terms_nonnegative;
use crate::ledger::{
    cost_terms, costing, costing_fits, has_room, ingredient_ok, is_current, item_ok, next_row_id,
    order_item_ok, order_ok, recipe_cost, recipe_ok, record_ok, row_index, transaction_ok,
    with_costing, Ledger, LedgerView,
};
use crate::model::{Costing, LedgerError, Recipe, RecipeIngredient};
use crate::money::{
    fits, lemma_total_push, lemma_total_remove, lemma_total_zeros, margin, profit, MARGIN_SCALE,
};

verus! {

/// Whether a recipe's own fields are well formed: it has a name and a
/// positive selling price.
pub open spec fn recipe_valid(name: String, selling_price: i64) -> bool {
    name@.len() > 0 && selling_price > 0
}

/// A recipe sold at its cost or above has a margin between nothing and the
/// whole price.
pub proof fn lemma_margin_of_gain(gain: int, selling_price: int)
    requires
        selling_price > 0,
        0 <= gain <= selling_price,
    ensures
        0 <= margin(gain, selling_price) <= 1_000_000,
        gain == selling_price ==> margin(gain, selling_price) == 1_000_000,
{
    assert(0 <= gain * 1_000_000 / selling_price <= 1_000_000) by (nonlinear_arith)
        requires
            selling_price > 0,
            0 <= gain <= selling_price,
    ;
    assert(selling_price * 1_000_000 / selling_price == 1_000_000) by (nonlinear_arith)
        requires
            selling_price > 0,
    ;
}

/// A smaller loss has a margin no further from zero.
pub proof fn lemma_margin_of_loss(loss: int, smaller: int, selling_price: int)
    requires
        selling_price > 0,
        0 <= smaller <= loss,
    ensures
        0 <= smaller * 1_000_000 / selling_price <= loss * 1_000_000 / selling_price,
{
    assert(0 <= smaller * 1_000_000 / selling_price <= loss * 1_000_000 / selling_price)
        by (nonlinear_arith)
        requires
            selling_price > 0,
            0 <= smaller <= loss,
    ;
}

/// Where a recipe's derived fields fit, they still fit at any lower cost.
pub proof fn lemma_lower_cost_fits(cost: int, lower: int, selling_price: int)
    requires
        selling_price > 0,
        0 <= lower <= cost,
        fits(cost),
        fits(selling_price),
        fits(margin(profit(selling_price, cost), selling_price)),
    ensures
        fits(lower),
        fits(margin(profit(selling_price, lower), selling_price)),
{
    if selling_price - lower >= 0 {
        lemma_margin_of_gain(selling_price - lower, selling_price);
    } else {
        lemma_margin_of_loss(cost - selling_price, lower - selling_price, selling_price);
    }
}

impl LedgerView {
    /// The row of a new recipe. It has no ingredients yet, so it costs
    /// nothing and its whole price is profit.
    pub open spec fn new_recipe(
        self,
        name: String,
        description: Option<String>,
        selling_price: i64,
        image: Option<Vec<u8>>,
    ) -> Recipe {
        Recipe {
            id: (self.recipes.len() + 1) as u64,
            name,
            description,
            selling_price,
            recipe_cost: 0,
            profit: selling_price,
            profit_margin: MARGIN_SCALE,
            image,
        }
    }

    /// Recipe `id` with its own fields replaced and its derived fields
    /// evaluated at the new price.
    pub open spec fn edited_recipe(
        self,
        id: u64,
        name: String,
        description: Option<String>,
        selling_price: i64,
        image: Option<Vec<u8>>,
    ) -> Recipe {
        with_costing(
            Recipe { name, description, selling_price, image, ..self.recipe(id) },
            costing(self.items, self.ingredients, id, selling_price),
        )
    }

    /// The ledger with the derived fields of recipe `recipe_id` evaluated
    /// afresh from its ingredients and the items' unit costs.
    pub open spec fn recomputed(self, recipe_id: u64) -> LedgerView {
        LedgerView {
            recipes: self.recipes.update(
                recipe_id - 1,
                with_costing(
                    self.recipe(recipe_id),
                    costing(
                        self.items,
                        self.ingredients,
                        recipe_id,
                        self.recipe(recipe_id).selling_price,
                    ),
                ),
            ),
            ..self
        }
    }

    /// The row of a new ingredient.
    pub open spec fn new_ingredient(
        self,
        recipe_id: u64,
        item_id: u64,
        quantity: i64,
        unit: String,
    ) -> RecipeIngredient {
        RecipeIngredient { id: self.next_ingredient_id, recipe_id, item_id, quantity, unit }
    }

    /// The ledger with one more ingredient row and the row's recipe costed
    /// again.
    pub open spec fn with_ingredient(self, row: RecipeIngredient) -> LedgerView {
        (LedgerView {
            ingredients: self.ingredients.push(row),
            next_ingredient_id: (self.next_ingredient_id + 1) as u64,
            ..self
        }).recomputed(row.recipe_id)
    }

    /// The ingredient row at position `k` with its quantity and unit
    /// replaced.
    pub open spec fn edited_ingredient(self, k: int, quantity: i64, unit: String) -> RecipeIngredient {
        RecipeIngredient { quantity, unit, ..self.ingredients[k] }
    }

    /// The ingredient rows with the one at position `k` edited.
    pub open spec fn edited_ingredients(
        self,
        k: int,
        quantity: i64,
        unit: String,
    ) -> Seq<RecipeIngredient> {
        self.ingredients.update(k, self.edited_ingredient(k, quantity, unit))
    }

    /// The ledger with the ingredient row at position `k` edited and the
    /// row's recipe costed again.
    pub open spec fn with_ingredient_edited(self, k: int, quantity: i64, unit: String) -> LedgerView {
        (LedgerView { ingredients: self.edited_ingredients(k, quantity, unit), ..self }).recomputed(
            self.ingredients[k].recipe_id,
        )
    }

    /// Whether an ingredient row has id `id`.
    pub open spec fn has_ingredient(self, id: u64) -> bool {
        exists|k: int| 0 <= k < self.ingredients.len() && (#[trigger] self.ingredients[k]).id == id
    }

    /// The position of the ingredient row with id `id`.
    pub open spec fn ingredient_position(self, id: u64) -> int {
        choose|k: int| 0 <= k < self.ingredients.len() && (#[trigger] self.ingredients[k]).id == id
    }

    /// The ledger without the ingredient row at position `k` and with the
    /// row's recipe costed again.
    pub open spec fn without_ingredient(self, k: int) -> LedgerView {
        (LedgerView { ingredients: self.ingredients.remove(k), ..self }).recomputed(
            self.ingredients[k].recipe_id,
        )
    }
}

/// A recipe that no ingredient row names costs nothing.
pub proof fn lemma_unused_recipe_costs_nothing(s: LedgerView, recipe_id: u64)
    requires
        forall|k: int| 0 <= k < s.ingredients.len() ==> (#[trigger] s.ingredients[k]).recipe_id != recipe_id,
    ensures
        recipe_cost(s.items, s.ingredients, recipe_id) == 0,
{
    lemma_total_zeros(cost_terms(s.items, s.ingredients, recipe_id));
}

/// A new ingredient row adds its quantity at the item's unit cost to the
/// cost of its own recipe and nothing to any other.
pub proof fn lemma_recipe_cost_push(s: LedgerView, row: RecipeIngredient, recipe_id: u64)
    ensures
        recipe_cost(s.items, s.ingredients.push(row), recipe_id) == recipe_cost(
            s.items,
            s.ingredients,
            recipe_id,
        ) + (if row.recipe_id == recipe_id {
            row.quantity * s.items[row.item_id - 1].cost_per_unit
        } else {
            0
        }),
{
    let term: int = if row.recipe_id == recipe_id {
        row.quantity * s.items[row.item_id - 1].cost_per_unit
    } else {
        0
    };
    assert(cost_terms(s.items, s.ingredients.push(row), recipe_id) =~= cost_terms(
        s.items,
        s.ingredients,
        recipe_id,
    ).push(term));
    lemma_total_push(cost_terms(s.items, s.ingredients, recipe_id), term);
}

/// Removing an ingredient row takes its quantity at the item's unit cost
/// off the cost of its own recipe and nothing off any other.
pub proof fn lemma_recipe_cost_remove(s: LedgerView, k: int, recipe_id: u64)
    requires
        0 <= k < s.ingredients.len(),
    ensures
        recipe_cost(s.items, s.ingredients.remove(k), recipe_id) == recipe_cost(
            s.items,
            s.ingredients,
            recipe_id,
        ) - cost_terms(s.items, s.ingredients, recipe_id)[k],
{
    assert(cost_terms(s.items, s.ingredients.remove(k), recipe_id) =~= cost_terms(
        s.items,
        s.ingredients,
        recipe_id,
    ).remove(k));
    lemma_total_remove(cost_terms(s.items, s.ingredients, recipe_id), k);
}

/// Evaluating the derived fields of one recipe afresh, on a ledger whose
/// rows are valid and whose other recipes are current, gives a ledger in
/// which all are.
pub proof fn lemma_recomputed_current(s: LedgerView, recipe_id: u64)
    requires
        s.rows_ok(),
        s.has_recipe(recipe_id),
        costing_fits(s.items, s.ingredients, recipe_id, s.recipe(recipe_id).selling_price),
        forall|j: int|
            0 <= j < s.recipes.len() && j != recipe_id - 1 ==> is_current(
                s.items,
                s.ingredients,
                #[trigger] s.recipes[j],
            ),
    ensures
        s.recomputed(recipe_id).rows_ok(),
        s.recomputed(recipe_id).costs_current(),
{
    let after = s.recomputed(recipe_id);
    assert(recipe_ok(s.recipes[recipe_id - 1], recipe_id - 1));
    assert forall|j: int| 0 <= j < after.recipes.len() implies is_current(
        after.items,
        after.ingredients,
        #[trigger] after.recipes[j],
    ) by {
        if j != recipe_id - 1 {
            assert(is_current(s.items, s.ingredients, s.recipes[j]));
        }
    }
    assert forall|j: int| 0 <= j < after.recipes.len() implies recipe_ok(
        #[trigger] after.recipes[j],
        j,
    ) by {
        assert(recipe_ok(s.recipes[j], j));
    }
}

/// Where only the ingredient rows change, and the new rows are valid and
/// in id order, every row of the ledger is still valid.
pub proof fn lemma_ingredients_replaced(s: LedgerView, after: LedgerView)
    requires
        s.rows_ok(),
        after == (LedgerView {
            ingredients: after.ingredients,
            next_ingredient_id: after.next_ingredient_id,
            ..s
        }),
        after.next_ingredient_id >= 1,
        forall|i: int|
            0 <= i < after.ingredients.len() ==> ingredient_ok(
                #[trigger] after.ingredients[i],
                after.next_ingredient_id,
                after.recipes.len(),
                after.items.len(),
            ),
        forall|i: int, j: int|
            0 <= i < j < after.ingredients.len() ==> (#[trigger] after.ingredients[i]).id < (
            #[trigger] after.ingredients[j]).id,
    ensures
        after.rows_ok(),
{
    assert forall|i: int| 0 <= i < after.items.len() implies item_ok(
        #[trigger] after.items[i],
        i,
    ) by {
        assert(item_ok(s.items[i], i));
    }
    assert forall|i: int| 0 <= i < after.transactions.len() implies transaction_ok(
        #[trigger] after.transactions[i],
        i,
        after.items.len(),
    ) by {
        assert(transaction_ok(s.transactions[i], i, s.items.len()));
    }
    assert forall|i: int| 0 <= i < after.recipes.len() implies recipe_ok(
        #[trigger] after.recipes[i],
        i,
    ) by {
        assert(recipe_ok(s.recipes[i], i));
    }
    assert forall|i: int| 0 <= i < after.orders.len() implies order_ok(
        #[trigger] after.orders[i],
        i,
    ) by {
        assert(order_ok(s.orders[i], i));
    }
    assert forall|i: int| 0 <= i < after.order_items.len() implies order_item_ok(
        #[trigger] after.order_items[i],
        i,
        after.orders.len(),
        after.recipes.len(),
    ) by {
        assert(order_item_ok(
            s.order_items[i],
            i,
            s.orders.len(),
            s.recipes.len(),
        ));
    }
    assert forall|i: int| 0 <= i < after.records.len() implies record_ok(
        #[trigger] after.records[i],
        i,
        after.recipes.len(),
    ) by {
        assert(record_ok(s.records[i], i, s.recipes.len()));
    }
}

impl Ledger {
    /// Adds a recipe without ingredients and returns its id.
    pub fn create_recipe(
        &mut self,
        name: String,
        description: Option<String>,
        selling_price: i64,
        image: Option<Vec<u8>>,
    ) -> (result: Result<u64, LedgerError>)
        requires
            old(self).wf(),
        ensures
            final(self).wf(),
            result is Err ==> final(self)@ == old(self)@,
            !recipe_valid(name, selling_price) ==> result matches Err(LedgerError::Validation),
            recipe_valid(name, selling_price) && !has_room(old(self)@.recipes.len())
                ==> result matches Err(LedgerError::Storage),
            recipe_valid(name, selling_price) && has_room(old(self)@.recipes.len()) ==> {
                &&& result == Ok::<u64, LedgerError>((old(self)@.recipes.len() + 1) as u64)
                &&& final(self)@ == (LedgerView {
                    recipes: old(self)@.recipes.push(
                        old(self)@.new_recipe(name, description, selling_price, image),
                    ),
                    ..old(self)@
                })
            },
    {
        if name.as_str().is_empty() || selling_price <= 0 {
            return Err(LedgerError::Validation);
        }
        let id: u64 = match next_row_id(self.recipes.len()) {
            None => {
                return Err(LedgerError::Storage);
            },
            Some(id) => id,
        };
        let ghost before = self@;
        self.recipes.push(
            Recipe {
                id,
                name,
                description,
                selling_price,
                recipe_cost: 0,
                profit: selling_price,
                profit_margin: MARGIN_SCALE,
                image,
            },
        );
        proof {
            let after = self@;
            assert(after.rows_ok()) by {
                assert forall|i: int| 0 <= i < after.recipes.len() implies recipe_ok(
                    #[trigger] after.recipes[i],
                    i,
                ) by {
                    if i < before.recipes.len() {
                        assert(recipe_ok(before.recipes[i], i));
                    }
                }
                assert forall|i: int|
                    0 <= i < after.ingredients.len() implies ingredient_ok(
                    #[trigger] after.ingredients[i],
                    after.next_ingredient_id,
                    after.recipes.len(),
                    after.items.len(),
                ) by {
                    assert(ingredient_ok(
                        before.ingredients[i],
                        before.next_ingredient_id,
                        before.recipes.len(),
                        before.items.len(),
                    ));
                }
                assert forall|i: int|
                    0 <= i < after.order_items.len() implies order_item_ok(
                    #[trigger] after.order_items[i],
                    i,
                    after.orders.len(),
                    after.recipes.len(),
                ) by {
                    assert(order_item_ok(
                        before.order_items[i],
                        i,
                        before.orders.len(),
                        before.recipes.len(),
                    ));
                }
                assert forall|i: int| 0 <= i < after.records.len() implies record_ok(
                    #[trigger] after.records[i],
                    i,
                    after.recipes.len(),
                ) by {
                    assert(record_ok(before.records[i], i, before.recipes.len()));
                }
            }
            assert(after.costs_current()) by {
                assert forall|j: int| 0 <= j < after.recipes.len() implies is_current(
                    after.items,
                    after.ingredients,
                    #[trigger] after.recipes[j],
                ) by {
                    if j < before.recipes.len() {
                        assert(is_current(before.items, before.ingredients, before.recipes[j]));
                    } else {
                        assert forall|k: int| 0 <= k < before.ingredients.len() implies (
                        #[trigger] before.ingredients[k]).recipe_id != id by {
                            assert(ingredient_ok(
                                before.ingredients[k],
                                before.next_ingredient_id,
                                before.recipes.len(),
                                before.items.len(),
                            ));
                        }
                        lemma_unused_recipe_costs_nothing(before, id);
                        lemma_margin_of_gain(selling_price as int, selling_price as int);
                    }
                }
            }
        }
        Ok(id)
    }

    /// Replaces the name, description, price and image of recipe `id` and
    /// evaluates its profit and margin at the new price. Orders already
    /// placed keep the price they were placed at.
    pub fn update_recipe(
        &mut self,
        id: u64,
        name: String,
        description: Option<String>,
        selling_price: i64,
        image: Option<Vec<u8>>,
    ) -> (result: Result<(), LedgerError>)
        requires
            old(self).wf(),
        ensures
            final(self).wf(),
            result is Err ==> final(self)@ == old(self)@,
            !recipe_valid(name, selling_price) ==> result matches Err(LedgerError::Validation),
            recipe_valid(name, selling_price) && !old(self)@.has_recipe(id) ==> result matches Err(
                LedgerError::NotFound,
            ),
            recipe_valid(name, selling_price) && old(self)@.has_recipe(id) ==> if !costing_fits(
                old(self)@.items,
                old(self)@.ingredients,
                id,
                selling_price,
            ) {
                result matches Err(LedgerError::Storage)
            } else {
                &&& result is Ok
                &&& final(self)@ == (LedgerView {
                    recipes: old(self)@.recipes.update(
                        id - 1,
                        old(self)@.edited_recipe(id, name, description, selling_price, image),
                    ),
                    ..old(self)@
                })
            },
    {
        if name.as_str().is_empty() || selling_price <= 0 {
            return Err(LedgerError::Validation);
        }
        let at: usize = match row_index(id, self.recipes.len()) {
            None => {
                return Err(LedgerError::NotFound);
            },
            Some(at) => at,
        };
        let c: Costing = match self.costing_of(id, selling_price) {
            None => {
                return Err(LedgerError::Storage);
            },
            Some(c) => c,
        };
        let ghost before = self@;
        self.recipes[at].name = name;
        self.recipes[at].description = description;
        self.recipes[at].selling_price = selling_price;
        self.recipes[at].image = image;
        self.recipes[at].recipe_cost = c.recipe_cost;
        self.recipes[at].profit = c.profit;
        self.recipes[at].profit_margin = c.profit_margin;
        proof {
            let after = self@;
            assert(recipe_ok(before.recipes[at as int], at as int));
            assert(after.recipes =~= before.recipes.update(
                id - 1,
                before.edited_recipe(id, name, description, selling_price, image),
            ));
            assert(after.rows_ok()) by {
                assert forall|i: int| 0 <= i < after.recipes.len() implies recipe_ok(
                    #[trigger] after.recipes[i],
                    i,
                ) by {
                    assert(recipe_ok(before.recipes[i], i));
                }
            }
            assert(after.costs_current()) by {
                assert forall|j: int| 0 <= j < after.recipes.len() implies is_current(
                    after.items,
                    after.ingredients,
                    #[trigger] after.recipes[j],
                ) by {
                    assert(is_current(before.items, before.ingredients, before.recipes[j]));
                }
            }
        }
        Ok(())
    }

    /// Evaluates the cost, profit and margin of recipe `recipe_id` from its
    /// ingredients and the items' unit costs, stores them and returns them.
    pub fn recompute_recipe_cost(&mut self, recipe_id: u64) -> (result: Result<
        Costing,
        LedgerError,
    >)
        requires
            old(self).wf(),
        ensures
            final(self).wf(),
            result is Err ==> final(self)@ == old(self)@,
            !old(self)@.has_recipe(recipe_id) ==> result matches Err(LedgerError::NotFound),
            old(self)@.has_recipe(recipe_id) ==> {
                &&& result == Ok::<Costing, LedgerError>(
                    costing(
                        old(self)@.items,
                        old(self)@.ingredients,
                        recipe_id,
                        old(self)@.recipe(recipe_id).selling_price,
                    ),
                )
                &&& final(self)@ == old(self)@.recomputed(recipe_id)
            },
    {
        let at: usize = match row_index(recipe_id, self.recipes.len()) {
            None => {
                return Err(LedgerError::NotFound);
            },
            Some(at) => at,
        };
        assert(recipe_ok(self@.recipes[at as int], at as int));
        assert(is_current(self@.items, self@.ingredients, self@.recipes[at as int]));
        let ghost before = self@;
        match self.costing_of(recipe_id, self.recipes[at].selling_price) {
            None => {
                assert(false);
                Err(LedgerError::Storage)
            },
            Some(c) => {
                self.recipes[at].recipe_cost = c.recipe_cost;
                self.recipes[at].profit = c.profit;
                self.recipes[at].profit_margin = c.profit_margin;
                proof {
                    assert(self@.recipes =~= before.recomputed(recipe_id).recipes);
                    lemma_recomputed_current(before, recipe_id);
                }
                Ok(c)
            },
        }
    }

    /// The position of the ingredient row with id `id`, if there is one.
    pub fn find_ingredient(&self, id: u64) -> (at: Option<usize>)
        requires
            self@.rows_ok(),
        ensures
            self@.has_ingredient(id) ==> at == Some(self@.ingredient_position(id) as usize),
            !self@.has_ingredient(id) ==> at is None,
            at matches Some(k) ==> k < self@.ingredients.len() && self@.ingredients[k as int].id
                == id,
    {
        let mut k: usize = 0;
        while k < self.ingredients.len()
            invariant
                k <= self.ingredients.len(),
                self@.rows_ok(),
                forall|i: int| 0 <= i < k ==> (#[trigger] self@.ingredients[i]).id != id,
            decreases self.ingredients.len() - k,
        {
            if self.ingredients[k].id == id {
                proof {
                    let chosen = self@.ingredient_position(id);
                    assert(self@.ingredients[k as int].id == id);
                    assert(self@.ingredients[chosen].id == id);
                    if chosen < k {
                        assert(self@.ingredients[chosen].id < self@.ingredients[k as int].id);
                    }
                    if k < chosen {
                        assert(self@.ingredients[k as int].id < self@.ingredients[chosen].id);
                    }
                }
                return Some(k);
            }
            k += 1;
        }
        None
    }

    /// Adds an ingredient to recipe `recipe_id`: `quantity` units of item
    /// `item_id` for one portion. Returns the id of the new row.
    pub fn add_ingredient(
        &mut self,
        recipe_id: u64,
        item_id: u64,
        quantity: i64,
        unit: String,
    ) -> (result: Result<u64, LedgerError>)
        requires
            old(self).wf(),
        ensures
            final(self).wf(),
            result is Err ==> final(self)@ == old(self)@,
            quantity <= 0 ==> result matches Err(LedgerError::Validation),
            quantity > 0 && !(old(self)@.has_recipe(recipe_id) && old(self)@.has_item(item_id))
                ==> result matches Err(LedgerError::NotFound),
            quantity > 0 && old(self)@.has_recipe(recipe_id) && old(self)@.has_item(item_id) ==> if old(
                self,
            )@.next_ingredient_id == u64::MAX || !costing_fits(
                old(self)@.items,
                old(self)@.ingredients.push(
                    old(self)@.new_ingredient(recipe_id, item_id, quantity, unit),
                ),
                recipe_id,
                old(self)@.recipe(recipe_id).selling_price,
            ) {
                result matches Err(LedgerError::Storage)
            } else {
                &&& result == Ok::<u64, LedgerError>(old(self)@.next_ingredient_id)
                &&& final(self)@ == old(self)@.with_ingredient(
                    old(self)@.new_ingredient(recipe_id, item_id, quantity, unit),
                )
            },
    {
        if quantity <= 0 {
            return Err(LedgerError::Validation);
        }
        let at: usize = match row_index(recipe_id, self.recipes.len()) {
            None => {
                return Err(LedgerError::NotFound);
            },
            Some(at) => at,
        };
        if row_index(item_id, self.items.len()).is_none() {
            return Err(LedgerError::NotFound);
        }
        let id: u64 = self.next_ingredient_id;
        if id == u64::MAX {
            return Err(LedgerError::Storage);
        }
        let ghost before = self@;
        let ghost row = before.new_ingredient(recipe_id, item_id, quantity, unit);
        self.ingredients.push(RecipeIngredient { id, recipe_id, item_id, quantity, unit });
        self.next_ingredient_id = id + 1;
        let ghost staged = self@;
        proof {
            assert(staged.ingredients == before.ingredients.push(row));
            assert forall|i: int|
                0 <= i < staged.ingredients.len() implies ingredient_ok(
                #[trigger] staged.ingredients[i],
                staged.next_ingredient_id,
                staged.recipes.len(),
                staged.items.len(),
            ) by {
                if i < before.ingredients.len() {
                    assert(ingredient_ok(
                        before.ingredients[i],
                        before.next_ingredient_id,
                        before.recipes.len(),
                        before.items.len(),
                    ));
                }
            }
            assert forall|i: int, j: int|
                0 <= i < j < staged.ingredients.len() implies (#[trigger] staged.ingredients[i]).id
                < (#[trigger] staged.ingredients[j]).id by {
                assert(ingredient_ok(
                    before.ingredients[i],
                    before.next_ingredient_id,
                    before.recipes.len(),
                    before.items.len(),
                ));
                if j < before.ingredients.len() {
                    assert(before.ingredients[i].id < before.ingredients[j].id);
                }
            }
            lemma_ingredients_replaced(before, staged);
            assert(recipe_ok(before.recipes[at as int], at as int));
        }
        let c: Costing = match self.costing_of(recipe_id, self.recipes[at].selling_price) {
            None => {
                self.ingredients.pop();
                self.next_ingredient_id = id;
                assert(self@.ingredients =~= before.ingredients);
                return Err(LedgerError::Storage);
            },
            Some(c) => c,
        };
        self.recipes[at].recipe_cost = c.recipe_cost;
        self.recipes[at].profit = c.profit;
        self.recipes[at].profit_margin = c.profit_margin;
        proof {
            assert(self@.recipes =~= staged.recomputed(recipe_id).recipes);
            assert(self@ == before.with_ingredient(row));
            assert forall|j: int| 0 <= j < staged.recipes.len() && j != recipe_id - 1 implies is_current(
                staged.items,
                staged.ingredients,
                #[trigger] staged.recipes[j],
            ) by {
                assert(recipe_ok(before.recipes[j], j));
                assert(is_current(before.items, before.ingredients, before.recipes[j]));
                lemma_recipe_cost_push(before, row, before.recipes[j].id);
            }
            lemma_recomputed_current(staged, recipe_id);
        }
        Ok(id)
    }

    /// Replaces the quantity and unit of the ingredient row with id
    /// `ingredient_id` and costs its recipe again.
    pub fn update_ingredient(&mut self, ingredient_id: u64, quantity: i64, unit: String) -> (result:
        Result<(), LedgerError>)
        requires
            old(self).wf(),
        ensures
            final(self).wf(),
            result is Err ==> final(self)@ == old(self)@,
            quantity <= 0 ==> result matches Err(LedgerError::Validation),
            quantity > 0 && !old(self)@.has_ingredient(ingredient_id) ==> result matches Err(
                LedgerError::NotFound,
            ),
            quantity > 0 && old(self)@.has_ingredient(ingredient_id) ==> ({
                let k = old(self)@.ingredient_position(ingredient_id);
                let recipe_id = old(self)@.ingredients[k].recipe_id;
                if !costing_fits(
                    old(self)@.items,
                    old(self)@.edited_ingredients(k, quantity, unit),
                    recipe_id,
                    old(self)@.recipe(recipe_id).selling_price,
                ) {
                    result matches Err(LedgerError::Storage)
                } else {
                    &&& result is Ok
                    &&& final(self)@ == old(self)@.with_ingredient_edited(k, quantity, unit)
                }
            }),
    {
        if quantity <= 0 {
            return Err(LedgerError::Validation);
        }
        let k: usize = match self.find_ingredient(ingredient_id) {
            None => {
                return Err(LedgerError::NotFound);
            },
            Some(k) => k,
        };
        let ghost before = self@;
        assert(ingredient_ok(
            before.ingredients[k as int],
            before.next_ingredient_id,
            before.recipes.len(),
            before.items.len(),
        ));
        let recipe_rows: usize = self.recipes.len();
        let recipe_id: u64 = self.ingredients[k].recipe_id;
        let at: usize = (recipe_id - 1) as usize;
        let earlier: i64 = self.ingredients[k].quantity;
        self.ingredients[k].quantity = quantity;
        let ghost staged = self@;
        let ghost edited = before.edited_ingredients(k as int, quantity, unit);
        proof {
            assert forall|i: int| 0 <= i < staged.ingredients.len() implies ingredient_ok(
                #[trigger] staged.ingredients[i],
                staged.next_ingredient_id,
                staged.recipes.len(),
                staged.items.len(),
            ) by {
                assert(ingredient_ok(
                    before.ingredients[i],
                    before.next_ingredient_id,
                    before.recipes.len(),
                    before.items.len(),
                ));
            }
            assert forall|i: int, j: int|
                0 <= i < j < staged.ingredients.len() implies (#[trigger] staged.ingredients[i]).id
                < (#[trigger] staged.ingredients[j]).id by {
                assert(before.ingredients[i].id < before.ingredients[j].id);
            }
            lemma_ingredients_replaced(before, staged);
            assert(recipe_ok(before.recipes[at as int], at as int));
            assert(cost_terms(staged.items, staged.ingredients, recipe_id) =~= cost_terms(
                before.items,
                edited,
                recipe_id,
            ));
        }
        let c: Costing = match self.costing_of(recipe_id, self.recipes[at].selling_price) {
            None => {
                self.ingredients[k].quantity = earlier;
                assert(self@.ingredients =~= before.ingredients);
                return Err(LedgerError::Storage);
            },
            Some(c) => c,
        };
        self.ingredients[k].unit = unit;
        self.recipes[at].recipe_cost = c.recipe_cost;
        self.recipes[at].profit = c.profit;
        self.recipes[at].profit_margin = c.profit_margin;
        proof {
            let after = self@;
            let settled = LedgerView { ingredients: edited, ..before };
            assert(after.ingredients =~= edited);
            assert(after.recipes =~= settled.recomputed(recipe_id).recipes);
            assert(after == before.with_ingredient_edited(k as int, quantity, unit));
            assert forall|i: int| 0 <= i < settled.ingredients.len() implies ingredient_ok(
                #[trigger] settled.ingredients[i],
                settled.next_ingredient_id,
                settled.recipes.len(),
                settled.items.len(),
            ) by {
                assert(ingredient_ok(
                    before.ingredients[i],
                    before.next_ingredient_id,
                    before.recipes.len(),
                    before.items.len(),
                ));
            }
            assert forall|i: int, j: int|
                0 <= i < j < settled.ingredients.len() implies (
            #[trigger] settled.ingredients[i]).id < (#[trigger] settled.ingredients[j]).id by {
                assert(before.ingredients[i].id < before.ingredients[j].id);
            }
            lemma_ingredients_replaced(before, settled);
            assert forall|j: int|
                0 <= j < settled.recipes.len() && j != recipe_id - 1 implies is_current(
                settled.items,
                settled.ingredients,
                #[trigger] settled.recipes[j],
            ) by {
                assert(recipe_ok(before.recipes[j], j));
                assert(is_current(before.items, before.ingredients, before.recipes[j]));
                assert(cost_terms(settled.items, settled.ingredients, before.recipes[j].id)
                    =~= cost_terms(before.items, before.ingredients, before.recipes[j].id));
            }
            lemma_recomputed_current(settled, recipe_id);
        }
        Ok(())
    }

    /// Removes the ingredient row with id `ingredient_id` and costs its
    /// recipe again.
    pub fn remove_ingredient(&mut self, ingredient_id: u64) -> (result: Result<(), LedgerError>)
        requires
            old(self).wf(),
        ensures
            final(self).wf(),
            result is Err ==> final(self)@ == old(self)@,
            !old(self)@.has_ingredient(ingredient_id) ==> result matches Err(
                LedgerError::NotFound,
            ),
            old(self)@.has_ingredient(ingredient_id) ==> {
                &&& result is Ok
                &&& final(self)@ == old(self)@.without_ingredient(
                    old(self)@.ingredient_position(ingredient_id),
                )
            },
    {
        let k: usize = match self.find_ingredient(ingredient_id) {
            None => {
                return Err(LedgerError::NotFound);
            },
            Some(k) => k,
        };
        let ghost before = self@;
        assert(ingredient_ok(
            before.ingredients[k as int],
            before.next_ingredient_id,
            before.recipes.len(),
            before.items.len(),
        ));
        let recipe_rows: usize = self.recipes.len();
        let recipe_id: u64 = self.ingredients[k].recipe_id;
        let at: usize = (recipe_id - 1) as usize;
        let row: RecipeIngredient = self.ingredients.remove(k);
        let ghost staged = self@;
        proof {
            assert(staged.ingredients == before.ingredients.remove(k as int));
            assert forall|i: int|
                0 <= i < staged.ingredients.len() implies ingredient_ok(
                #[trigger] staged.ingredients[i],
                staged.next_ingredient_id,
                staged.recipes.len(),
                staged.items.len(),
            ) by {
                if i < k {
                    assert(ingredient_ok(
                        before.ingredients[i],
                        before.next_ingredient_id,
                        before.recipes.len(),
                        before.items.len(),
                    ));
                } else {
                    assert(ingredient_ok(
                        before.ingredients[i + 1],
                        before.next_ingredient_id,
                        before.recipes.len(),
                        before.items.len(),
                    ));
                }
            }
            assert forall|i: int, j: int|
                0 <= i < j < staged.ingredients.len() implies (#[trigger] staged.ingredients[i]).id
                < (#[trigger] staged.ingredients[j]).id by {
                let from_i = if i < k {
                    i
                } else {
                    i + 1
                };
                let from_j = if j < k {
                    j
                } else {
                    j + 1
                };
                assert(before.ingredients[from_i].id < before.ingredients[from_j].id);
            }
            lemma_ingredients_replaced(before, staged);
            assert(recipe_ok(before.recipes[at as int], at as int));
            assert(is_current(before.items, before.ingredients, before.recipes[at as int]));
            lemma_recipe_cost_remove(before, k as int, recipe_id);
            lemma_cost_terms_nonnegative(before, recipe_id);
            lemma_cost_terms_nonnegative(staged, recipe_id);
            lemma_lower_cost_fits(
                recipe_cost(before.items, before.ingredients, recipe_id),
                recipe_cost(staged.items, staged.ingredients, recipe_id),
                before.recipes[at as int].selling_price as int,
            );
        }
        match self.costing_of(recipe_id, self.recipes[at].selling_price) {
            None => {
                assert(false);
                self.ingredients.insert(k, row);
                Err(LedgerError::Storage)
            },
            Some(c) => {
                self.recipes[at].recipe_cost = c.recipe_cost;
                self.recipes[at].profit = c.profit;
                self.recipes[at].profit_margin = c.profit_margin;
                proof {
                    assert(self@.recipes =~= staged.recomputed(recipe_id).recipes);
                    assert(self@ == before.without_ingredient(k as int));
                    assert forall|j: int|
                        0 <= j < staged.recipes.len() && j != recipe_id - 1 implies is_current(
                        staged.items,
                        staged.ingredients,
                        #[trigger] staged.recipes[j],
                    ) by {
                        assert(recipe_ok(before.recipes[j], j));
                        assert(is_current(before.items, before.ingredients, before.recipes[j]));
                        lemma_recipe_cost_remove(before, k as int, before.recipes[j].id);
                    }
                    lemma_recomputed_current(staged, recipe_id);
                }
                Ok(())
            },
        }
    }

    /// The recipe with id `id`, if there is one.
    pub fn get_recipe(&self, id: u64) -> (recipe: Option<&Recipe>)
        ensures
            self@.has_recipe(id) ==> recipe == Some(&self@.recipe(id)),
            !self@.has_recipe(id) ==> recipe is None,
    {
        match row_index(id, self.recipes.len()) {
            None => None,
            Some(at) => Some(&self.recipes[at]),
        }
    }

    /// All recipes, in id order.
    pub fn list_recipes(&self) -> (recipes: &Vec<Recipe>)
        ensures
            recipes@ == self@.recipes,
    {
        &self.recipes
    }
}

} // verus!
