//! Recipe costing: what a portion costs, and what is left of its price.
//!
//! The cost, profit and margin stored with a recipe are a cache of functions
//! of the ingredient rows and of the items' unit costs. Every operation that
//! changes one of those evaluates the functions again before it returns.

use vstd::prelude::*;
use crate::ledger::{
    cost_terms, costing, costing_fits, ingredient_ok, recipe_cost, recipe_ok, with_costing, Ledger,
    LedgerView,
};
use crate::model::Costing;
use crate::money::{
    accumulate, fits, lemma_total_nonnegative, lemma_total_prefix_bound, lemma_total_take_ends,
    lemma_total_take_next, margin_of, product, total,
};

verus! {

/// No ingredient row adds a negative amount to a recipe's cost.
pub proof fn lemma_cost_terms_nonnegative(s: LedgerView, recipe_id: u64)
    requires
        s.rows_ok(),
    ensures
        forall|k: int|
            0 <= k < s.ingredients.len() ==> (#[trigger] cost_terms(
                s.items,
                s.ingredients,
                recipe_id,
            )[k]) >= 0,
        recipe_cost(s.items, s.ingredients, recipe_id) >= 0,
{
    let terms = cost_terms(s.items, s.ingredients, recipe_id);
    assert forall|k: int| 0 <= k < s.ingredients.len() implies (#[trigger] terms[k]) >= 0 by {
        let g = s.ingredients[k];
        let item = s.items[g.item_id - 1];
        assert(g.quantity * item.cost_per_unit >= 0) by (nonlinear_arith)
            requires
                g.quantity > 0,
                item.cost_per_unit >= 0,
        ;
    }
    lemma_total_nonnegative(terms);
}

impl Ledger {
    /// Cost of one portion of recipe `recipe_id`, or `None` where it does
    /// not fit.
    pub(crate) fn recipe_cost_of(&self, recipe_id: u64) -> (r: Option<i64>)
        requires
            self@.rows_ok(),
        ensures
            fits(recipe_cost(self@.items, self@.ingredients, recipe_id)) ==> r == Some(
                recipe_cost(self@.items, self@.ingredients, recipe_id) as i64,
            ),
            !fits(recipe_cost(self@.items, self@.ingredients, recipe_id)) ==> r is None,
    {
        let ghost terms = cost_terms(self@.items, self@.ingredients, recipe_id);
        proof {
            lemma_cost_terms_nonnegative(self@, recipe_id);
            lemma_total_take_ends(terms);
        }
        let item_rows: usize = self.items.len();
        let mut cost: i64 = 0;
        let mut k: usize = 0;
        while k < self.ingredients.len()
            invariant
                k <= self.ingredients.len(),
                item_rows == self@.items.len(),
                self@.rows_ok(),
                terms == cost_terms(self@.items, self@.ingredients, recipe_id),
                forall|i: int| 0 <= i < terms.len() ==> terms[i] >= 0,
                cost == total(terms.take(k as int)),
            decreases self.ingredients.len() - k,
        {
            proof {
                lemma_total_take_next(terms, k as int);
                lemma_total_prefix_bound(terms, k + 1);
            }
            if self.ingredients[k].recipe_id == recipe_id {
                let ghost g = self@.ingredients[k as int];
                assert(ingredient_ok(
                    g,
                    self@.next_ingredient_id,
                    self@.recipes.len(),
                    self@.items.len(),
                ));
                let at: usize = (self.ingredients[k].item_id - 1) as usize;
                let term: i128 = product(self.ingredients[k].quantity, self.items[at].cost_per_unit);
                match accumulate(cost, term) {
                    Some(next) => {
                        cost = next;
                    },
                    None => {
                        return None;
                    },
                }
            }
            k += 1;
        }
        Some(cost)
    }

    /// The derived fields of recipe `recipe_id` were it sold at
    /// `selling_price`, or `None` where one of them does not fit.
    pub(crate) fn costing_of(&self, recipe_id: u64, selling_price: i64) -> (r: Option<Costing>)
        requires
            self@.rows_ok(),
            selling_price > 0,
        ensures
            costing_fits(self@.items, self@.ingredients, recipe_id, selling_price) ==> r == Some(
                costing(self@.items, self@.ingredients, recipe_id, selling_price),
            ),
            !costing_fits(self@.items, self@.ingredients, recipe_id, selling_price) ==> r is None,
    {
        proof {
            lemma_cost_terms_nonnegative(self@, recipe_id);
        }
        match self.recipe_cost_of(recipe_id) {
            None => None,
            Some(cost) => {
                let gain: i64 = selling_price - cost;
                match margin_of(gain, selling_price) {
                    None => None,
                    Some(share) => Some(
                        Costing { recipe_cost: cost, profit: gain, profit_margin: share },
                    ),
                }
            },
        }
    }

    /// The derived fields of every recipe, or `None` where one of them does
    /// not fit.
    pub(crate) fn all_costings(&self) -> (r: Option<Vec<Costing>>)
        requires
            self@.rows_ok(),
        ensures
            match r {
                Some(cs) => {
                    &&& cs@.len() == self@.recipes.len()
                    &&& forall|j: int|
                        0 <= j < cs@.len() ==> self@.costing_fits_at(j) && cs@[j]
                            == self@.costing_at(j)
                },
                None => exists|j: int| 0 <= j < self@.recipes.len() && !self@.costing_fits_at(j),
            },
    {
        let mut cs: Vec<Costing> = Vec::new();
        let mut j: usize = 0;
        while j < self.recipes.len()
            invariant
                j <= self.recipes.len(),
                self@.rows_ok(),
                cs@.len() == j,
                forall|i: int|
                    0 <= i < j ==> self@.costing_fits_at(i) && cs@[i] == self@.costing_at(i),
            decreases self.recipes.len() - j,
        {
            assert(recipe_ok(self@.recipes[j as int], j as int));
            match self.costing_of(self.recipes[j].id, self.recipes[j].selling_price) {
                None => {
                    assert(!self@.costing_fits_at(j as int));
                    return None;
                },
                Some(c) => {
                    assert(self@.costing_fits_at(j as int));
                    cs.push(c);
                },
            }
            j += 1;
        }
        Some(cs)
    }

    /// Stores `cs[j]` as the derived fields of the `j`-th recipe, for every
    /// recipe.
    pub(crate) fn store_costings(&mut self, cs: &Vec<Costing>)
        requires
            cs@.len() == old(self)@.recipes.len(),
        ensures
            final(self)@ == (LedgerView {
                recipes: Seq::new(
                    old(self)@.recipes.len(),
                    |j: int| with_costing(old(self)@.recipes[j], cs@[j]),
                ),
                ..old(self)@
            }),
    {
        let mut j: usize = 0;
        while j < self.recipes.len()
            invariant
                j <= self.recipes.len(),
                cs@.len() == self@.recipes.len(),
                self@.recipes.len() == old(self)@.recipes.len(),
                forall|i: int|
                    0 <= i < j ==> #[trigger] self@.recipes[i] == with_costing(
                        old(self)@.recipes[i],
                        cs@[i],
                    ),
                forall|i: int|
                    j <= i < self@.recipes.len() ==> #[trigger] self@.recipes[i] == old(
                        self,
                    )@.recipes[i],
                self@ == (LedgerView { recipes: self@.recipes, ..old(self)@ }),
            decreases self.recipes.len() - j,
        {
            self.recipes[j].recipe_cost = cs[j].recipe_cost;
            self.recipes[j].profit = cs[j].profit;
            self.recipes[j].profit_margin = cs[j].profit_margin;
            j += 1;
        }
        assert(self@.recipes =~= Seq::new(
            old(self)@.recipes.len(),
            |j: int| with_costing(old(self)@.recipes[j], cs@[j]),
        ));
    }
}

} // verus!
