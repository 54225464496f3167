//! The order processor: turns a sale into stock movements and an entry of
//! the financial ledger, all or nothing.

use vstd::prelude::*;
use crate::ledger::{
    has_room, in_table, ingredient_ok, item_ok, next_row_id, order_item_ok, order_ok, order_terms,
    order_total, recipe_ok, record_ok, Ledger, LedgerView,
};
use crate::model::{
    FinancialRecord, Item, LedgerError, Order, OrderItem, OrderLine, Recipe, RecipeIngredient,
    RecordType, Shortfall,
};
use crate::money::{
    accumulate, fits, lemma_total_concat, lemma_total_nonnegative, lemma_total_prefix_bound,
    lemma_total_take_ends, lemma_total_take_next, lemma_total_zeros, product, total,
};

verus! {

/// Every line orders at least one portion.
pub open spec fn lines_valid(lines: Seq<OrderLine>) -> bool {
    forall|i: int| 0 <= i < lines.len() ==> (#[trigger] lines[i]).quantity > 0
}

/// Every line names one of `recipes` recipes.
pub open spec fn lines_found(lines: Seq<OrderLine>, recipes: nat) -> bool {
    forall|i: int| 0 <= i < lines.len() ==> in_table((#[trigger] lines[i]).recipe_id, recipes)
}

/// For each line, the portions it orders of the recipe at position `at`.
pub open spec fn portion_terms(lines: Seq<OrderLine>, at: int) -> Seq<int> {
    Seq::new(
        lines.len(),
        |i: int|
            if lines[i].recipe_id == at + 1 {
                lines[i].quantity as int
            } else {
                0
            },
    )
}

/// Portions ordered of the recipe at position `at`, over all lines.
pub open spec fn portions(lines: Seq<OrderLine>, at: int) -> int {
    total(portion_terms(lines, at))
}

/// For each ingredient row, the units it takes of the item at position
/// `at` to make everything ordered.
pub open spec fn need_terms(
    ingredients: Seq<RecipeIngredient>,
    lines: Seq<OrderLine>,
    at: int,
) -> Seq<int> {
    Seq::new(
        ingredients.len(),
        |k: int|
            if ingredients[k].item_id == at + 1 {
                ingredients[k].quantity * portions(lines, ingredients[k].recipe_id - 1)
            } else {
                0
            },
    )
}

/// Units of the item at position `at` that the order takes: over the
/// ingredient rows that use the item, the quantity for one portion times
/// the portions ordered of the row's recipe.
pub open spec fn need(ingredients: Seq<RecipeIngredient>, lines: Seq<OrderLine>, at: int) -> int {
    total(need_terms(ingredients, lines, at))
}

/// For each line, its price times its quantity.
pub open spec fn amount_terms(recipes: Seq<Recipe>, lines: Seq<OrderLine>) -> Seq<int> {
    Seq::new(
        lines.len(),
        |i: int| recipes[lines[i].recipe_id - 1].selling_price * lines[i].quantity,
    )
}

/// What the order comes to: over its lines, the recipe's selling price
/// times the quantity.
pub open spec fn order_amount(recipes: Seq<Recipe>, lines: Seq<OrderLine>) -> int {
    total(amount_terms(recipes, lines))
}

/// The quantity of each line.
pub open spec fn quantity_terms(lines: Seq<OrderLine>) -> Seq<int> {
    Seq::new(lines.len(), |i: int| lines[i].quantity as int)
}

/// Portions ordered over all lines.
pub open spec fn order_quantity(lines: Seq<OrderLine>) -> int {
    total(quantity_terms(lines))
}

/// The recipe that an order is for, where all its lines name the same one.
pub open spec fn single_recipe(lines: Seq<OrderLine>) -> Option<u64> {
    if lines.len() > 0 && (forall|i: int|
        0 <= i < lines.len() ==> (#[trigger] lines[i]).recipe_id == lines[0].recipe_id) {
        Some(lines[0].recipe_id)
    } else {
        None
    }
}

/// The items among the first `n` of which the order takes more than is on
/// hand, in id order.
pub open spec fn shortfalls_among(s: LedgerView, lines: Seq<OrderLine>, n: int) -> Seq<Shortfall>
    decreases n,
{
    if n <= 0 {
        Seq::empty()
    } else {
        let before = shortfalls_among(s, lines, n - 1);
        let required = need(s.ingredients, lines, n - 1);
        if required > s.items[n - 1].quantity {
            before.push(
                Shortfall {
                    item_id: n as u64,
                    required: required as i64,
                    available: s.items[n - 1].quantity,
                },
            )
        } else {
            before
        }
    }
}

/// The items of which the order takes more than is on hand, in id order.
pub open spec fn shortfalls(s: LedgerView, lines: Seq<OrderLine>) -> Seq<Shortfall> {
    shortfalls_among(s, lines, s.items.len() as int)
}

/// Whether every number and every row that placing the order writes can be
/// stored.
pub open spec fn order_fits(s: LedgerView, lines: Seq<OrderLine>) -> bool {
    &&& fits(order_amount(s.recipes, lines))
    &&& fits(order_quantity(lines))
    &&& forall|r: int| 0 <= r < s.recipes.len() ==> fits(#[trigger] portions(lines, r))
    &&& forall|j: int| 0 <= j < s.items.len() ==> fits(#[trigger] need(s.ingredients, lines, j))
    &&& has_room(s.orders.len())
    &&& has_room(s.records.len())
    &&& s.order_items.len() + lines.len() <= u64::MAX
    &&& s.transactions.len() + s.items.len() <= u64::MAX
}

/// The decimal digit that stands for `d`.
pub open spec fn digit(d: nat) -> char {
    seq!['0', '1', '2', '3', '4', '5', '6', '7', '8', '9'][d as int]
}

/// `n` written in decimal, without leading zeros.
pub open spec fn decimal(n: nat) -> Seq<char>
    decreases n,
{
    if n < 10 {
        seq![digit(n)]
    } else {
        decimal(n / 10).push(digit(n % 10))
    }
}

/// The note on a stock movement made for order `order_id`.
pub open spec fn order_note(order_id: u64) -> Seq<char> {
    "order #"@ + decimal(order_id as nat)
}

/// Writes the note for the stock movements of order `order_id`.
///
/// Calls `format!` of the standard library with the text `order #` followed
/// by the id through `Display`, which for an unsigned integer writes its
/// decimal digits without sign, padding or leading zeros.
#[verifier::external_body]
fn order_reference(order_id: u64) -> (note: String)
    ensures
        note@ == order_note(order_id),
{
    format!("order #{}", order_id)
}

impl LedgerView {
    /// The row of the order.
    pub open spec fn order_row(
        self,
        order_date: i64,
        customer_info: Option<String>,
        lines: Seq<OrderLine>,
    ) -> Order {
        Order {
            id: (self.orders.len() + 1) as u64,
            order_date,
            total_amount: order_amount(self.recipes, lines) as i64,
            customer_info,
            notes: None,
        }
    }

    /// The rows of the order's lines; each takes its price from the recipe
    /// as it is now.
    pub open spec fn order_rows(self, lines: Seq<OrderLine>) -> Seq<OrderItem> {
        Seq::new(
            lines.len(),
            |i: int|
                OrderItem {
                    id: (self.order_items.len() + i + 1) as u64,
                    order_id: (self.orders.len() + 1) as u64,
                    recipe_id: lines[i].recipe_id,
                    quantity: lines[i].quantity,
                    price: self.recipes[lines[i].recipe_id - 1].selling_price,
                },
        )
    }

    /// The entry that posts the order to the financial ledger.
    pub open spec fn income_row(self, order_date: i64, lines: Seq<OrderLine>) -> FinancialRecord {
        FinancialRecord {
            id: (self.records.len() + 1) as u64,
            record_type: RecordType::Income,
            amount: order_amount(self.recipes, lines) as i64,
            record_date: order_date,
            description: None,
            recipe_id: single_recipe(lines),
            quantity: Some(order_quantity(lines) as i64),
        }
    }

    /// The ledger with the order, its lines and its income entry written,
    /// and the stock not yet touched.
    pub open spec fn booked(
        self,
        order_date: i64,
        customer_info: Option<String>,
        lines: Seq<OrderLine>,
    ) -> LedgerView {
        LedgerView {
            orders: self.orders.push(self.order_row(order_date, customer_info, lines)),
            order_items: self.order_items + self.order_rows(lines),
            records: self.records.push(self.income_row(order_date, lines)),
            ..self
        }
    }

    /// The ledger after what the order takes of each of the first `n` items
    /// has been issued, in id order, each movement noted with `note`.
    pub open spec fn depleted(
        self,
        lines: Seq<OrderLine>,
        order_date: i64,
        note: String,
        n: int,
    ) -> LedgerView
        decreases n,
    {
        if n <= 0 {
            self
        } else {
            let before = self.depleted(lines, order_date, note, n - 1);
            let required = need(self.ingredients, lines, n - 1);
            if required > 0 {
                before.issued(n as u64, required as i64, order_date, Some(note))
            } else {
                before
            }
        }
    }

    /// The ledger after the order has been placed: booked, then depleted of
    /// what it takes of every item.
    pub open spec fn placed(
        self,
        order_date: i64,
        customer_info: Option<String>,
        lines: Seq<OrderLine>,
        note: String,
    ) -> LedgerView {
        self.booked(order_date, customer_info, lines).depleted(
            lines,
            order_date,
            note,
            self.items.len() as int,
        )
    }
}

/// Depleting the first `n` items lowers the quantity of each by what the
/// order takes of it, logs at most one movement for each, and touches
/// nothing else.
pub proof fn lemma_depleted(s: LedgerView, lines: Seq<OrderLine>, order_date: i64, note: String, n: int)
    requires
        0 <= n <= s.items.len(),
        s.items.len() <= u64::MAX,
        forall|at: int| 0 <= at < s.items.len() ==> fits(#[trigger] need(s.ingredients, lines, at)),
    ensures
        ({
            let d = s.depleted(lines, order_date, note, n);
            &&& d.items.len() == s.items.len()
            &&& forall|at: int|
                0 <= at < n ==> #[trigger] d.items[at] == (Item {
                    quantity: if need(s.ingredients, lines, at) > 0 {
                        (s.items[at].quantity - need(s.ingredients, lines, at)) as i64
                    } else {
                        s.items[at].quantity
                    },
                    ..s.items[at]
                })
            &&& forall|at: int| n <= at < s.items.len() ==> #[trigger] d.items[at] == s.items[at]
            &&& s.transactions.len() <= d.transactions.len() <= s.transactions.len() + n
            &&& d.recipes == s.recipes
            &&& d.ingredients == s.ingredients
            &&& d.next_ingredient_id == s.next_ingredient_id
            &&& d.orders == s.orders
            &&& d.order_items == s.order_items
            &&& d.records == s.records
        }),
    decreases n,
{
    if n > 0 {
        lemma_depleted(s, lines, order_date, note, n - 1);
        let before = s.depleted(lines, order_date, note, n - 1);
        let d = s.depleted(lines, order_date, note, n);
        assert(fits(need(s.ingredients, lines, n - 1)));
        assert(before.items[n - 1] == s.items[n - 1]);
    }
}

/// No line adds a negative number of portions.
pub proof fn lemma_portion_terms_nonnegative(lines: Seq<OrderLine>, at: int)
    requires
        lines_valid(lines),
    ensures
        forall|i: int| 0 <= i < lines.len() ==> (#[trigger] portion_terms(lines, at)[i]) >= 0,
        portions(lines, at) >= 0,
{
    lemma_total_nonnegative(portion_terms(lines, at));
}

/// No ingredient row adds a negative need.
pub proof fn lemma_need_terms_nonnegative(s: LedgerView, lines: Seq<OrderLine>, at: int)
    requires
        s.rows_ok(),
        lines_valid(lines),
    ensures
        forall|k: int|
            0 <= k < s.ingredients.len() ==> (#[trigger] need_terms(s.ingredients, lines, at)[k])
                >= 0,
        need(s.ingredients, lines, at) >= 0,
{
    let terms = need_terms(s.ingredients, lines, at);
    assert forall|k: int| 0 <= k < s.ingredients.len() implies (#[trigger] terms[k]) >= 0 by {
        let g = s.ingredients[k];
        let p = portions(lines, g.recipe_id - 1);
        lemma_portion_terms_nonnegative(lines, g.recipe_id - 1);
        assert(g.quantity * p >= 0) by (nonlinear_arith)
            requires
                g.quantity > 0,
                p >= 0,
        ;
    }
    lemma_total_nonnegative(terms);
}

/// No line adds a negative amount.
pub proof fn lemma_amount_terms_nonnegative(s: LedgerView, lines: Seq<OrderLine>)
    requires
        s.rows_ok(),
        lines_valid(lines),
        lines_found(lines, s.recipes.len()),
    ensures
        forall|i: int| 0 <= i < lines.len() ==> (#[trigger] amount_terms(s.recipes, lines)[i]) >= 0,
        order_amount(s.recipes, lines) >= 0,
{
    let terms = amount_terms(s.recipes, lines);
    assert forall|i: int| 0 <= i < lines.len() implies (#[trigger] terms[i]) >= 0 by {
        let line = lines[i];
        let recipe = s.recipes[line.recipe_id - 1];
        assert(recipe_ok(recipe, line.recipe_id - 1));
        assert(recipe.selling_price * line.quantity >= 0) by (nonlinear_arith)
            requires
                recipe.selling_price > 0,
                line.quantity > 0,
        ;
    }
    lemma_total_nonnegative(terms);
}

impl Ledger {
    /// Checks the lines of an order: first that each orders at least one
    /// portion, then that each names a recipe that exists.
    pub fn check_lines(&self, lines: &Vec<OrderLine>) -> (result: Result<(), LedgerError>)
        ensures
            !lines_valid(lines@) ==> result matches Err(LedgerError::Validation),
            lines_valid(lines@) && !lines_found(lines@, self@.recipes.len()) ==> result matches Err(
                LedgerError::NotFound,
            ),
            lines_valid(lines@) && lines_found(lines@, self@.recipes.len()) ==> result is Ok,
    {
        let mut i: usize = 0;
        while i < lines.len()
            invariant
                i <= lines.len(),
                forall|k: int| 0 <= k < i ==> (#[trigger] lines@[k]).quantity > 0,
            decreases lines.len() - i,
        {
            if lines[i].quantity <= 0 {
                return Err(LedgerError::Validation);
            }
            i += 1;
        }
        let recipe_rows: usize = self.recipes.len();
        let mut i: usize = 0;
        while i < lines.len()
            invariant
                i <= lines.len(),
                recipe_rows == self@.recipes.len(),
                lines_valid(lines@),
                forall|k: int|
                    0 <= k < i ==> in_table((#[trigger] lines@[k]).recipe_id, recipe_rows as nat),
            decreases lines.len() - i,
        {
            if lines[i].recipe_id < 1 || lines[i].recipe_id > recipe_rows as u64 {
                return Err(LedgerError::NotFound);
            }
            i += 1;
        }
        Ok(())
    }

    /// What the order comes to, or `None` where the amount does not fit.
    pub(crate) fn order_amount_of(&self, lines: &Vec<OrderLine>) -> (r: Option<i64>)
        requires
            self@.rows_ok(),
            lines_valid(lines@),
            lines_found(lines@, self@.recipes.len()),
        ensures
            fits(order_amount(self@.recipes, lines@)) ==> r == Some(
                order_amount(self@.recipes, lines@) as i64,
            ),
            !fits(order_amount(self@.recipes, lines@)) ==> r is None,
    {
        let ghost terms = amount_terms(self@.recipes, lines@);
        proof {
            lemma_amount_terms_nonnegative(self@, lines@);
            lemma_total_take_ends(terms);
        }
        let recipe_rows: usize = self.recipes.len();
        let mut amount: i64 = 0;
        let mut i: usize = 0;
        while i < lines.len()
            invariant
                i <= lines.len(),
                recipe_rows == self@.recipes.len(),
                lines_found(lines@, self@.recipes.len()),
                terms == amount_terms(self@.recipes, lines@),
                forall|k: int| 0 <= k < terms.len() ==> terms[k] >= 0,
                amount == total(terms.take(i as int)),
            decreases lines.len() - i,
        {
            proof {
                lemma_total_take_next(terms, i as int);
                lemma_total_prefix_bound(terms, i + 1);
            }
            assert(in_table(lines@[i as int].recipe_id, self@.recipes.len()));
            let at: usize = (lines[i].recipe_id - 1) as usize;
            let term: i128 = product(self.recipes[at].selling_price, lines[i].quantity);
            match accumulate(amount, term) {
                Some(next) => {
                    amount = next;
                },
                None => {
                    return None;
                },
            }
            i += 1;
        }
        Some(amount)
    }
}

impl Ledger {
    /// Portions ordered of each recipe, by position, or `None` where one of
    /// the counts does not fit.
    pub(crate) fn portions_of(&self, lines: &Vec<OrderLine>) -> (r: Option<Vec<i64>>)
        requires
            lines_valid(lines@),
            lines_found(lines@, self@.recipes.len()),
        ensures
            match r {
                Some(p) => {
                    &&& p@.len() == self@.recipes.len()
                    &&& forall|at: int| 0 <= at < p@.len() ==> p@[at] == portions(lines@, at)
                },
                None => exists|at: int|
                    0 <= at < self@.recipes.len() && !fits(#[trigger] portions(lines@, at)),
            },
    {
        let recipe_rows: usize = self.recipes.len();
        let mut p: Vec<i64> = Vec::new();
        let mut r: usize = 0;
        while r < recipe_rows
            invariant
                r <= recipe_rows,
                p@.len() == r,
                forall|at: int| 0 <= at < r ==> p@[at] == 0,
            decreases recipe_rows - r,
        {
            p.push(0);
            r += 1;
        }
        proof {
            assert forall|at: int| 0 <= at < p@.len() implies p@[at] == total(
                portion_terms(lines@, at).take(0),
            ) by {
                lemma_total_take_ends(portion_terms(lines@, at));
            }
        }
        let mut i: usize = 0;
        while i < lines.len()
            invariant
                i <= lines.len(),
                recipe_rows == self@.recipes.len(),
                lines_valid(lines@),
                lines_found(lines@, self@.recipes.len()),
                p@.len() == recipe_rows,
                forall|at: int|
                    0 <= at < p@.len() ==> p@[at] == total(
                        #[trigger] portion_terms(lines@, at).take(i as int),
                    ),
            decreases lines.len() - i,
        {
            assert(in_table(lines@[i as int].recipe_id, self@.recipes.len()));
            let target: usize = (lines[i].recipe_id - 1) as usize;
            proof {
                assert forall|at: int| 0 <= at < p@.len() implies total(
                    #[trigger] portion_terms(lines@, at).take(i + 1),
                ) == p@[at] + (if at == target {
                    lines@[i as int].quantity as int
                } else {
                    0
                }) by {
                    lemma_total_take_next(portion_terms(lines@, at), i as int);
                    assert(p@[at] == total(portion_terms(lines@, at).take(i as int)));
                }
                lemma_portion_terms_nonnegative(lines@, target as int);
                lemma_total_prefix_bound(portion_terms(lines@, target as int), i + 1);
            }
            match accumulate(p[target], lines[i].quantity as i128) {
                Some(next) => {
                    p[target] = next;
                },
                None => {
                    assert(!fits(portions(lines@, target as int)));
                    return None;
                },
            }
            i += 1;
        }
        proof {
            assert forall|at: int| 0 <= at < p@.len() implies p@[at] == portions(lines@, at) by {
                lemma_total_take_ends(portion_terms(lines@, at));
                assert(p@[at] == total(portion_terms(lines@, at).take(lines@.len() as int)));
            }
        }
        Some(p)
    }

    /// Units that the order takes of each item, by position, or `None`
    /// where one of them does not fit. `p` holds the portions ordered of
    /// each recipe.
    pub(crate) fn needs_of(&self, lines: &Vec<OrderLine>, p: &Vec<i64>) -> (r: Option<Vec<i64>>)
        requires
            self@.rows_ok(),
            lines_valid(lines@),
            p@.len() == self@.recipes.len(),
            forall|at: int| 0 <= at < p@.len() ==> p@[at] == portions(lines@, at),
        ensures
            match r {
                Some(n) => {
                    &&& n@.len() == self@.items.len()
                    &&& forall|at: int|
                        0 <= at < n@.len() ==> n@[at] == need(self@.ingredients, lines@, at)
                },
                None => exists|at: int|
                    0 <= at < self@.items.len() && !fits(
                        #[trigger] need(self@.ingredients, lines@, at),
                    ),
            },
    {
        let item_rows: usize = self.items.len();
        let recipe_rows: usize = self.recipes.len();
        let mut n: Vec<i64> = Vec::new();
        let mut j: usize = 0;
        while j < item_rows
            invariant
                j <= item_rows,
                n@.len() == j,
                forall|at: int| 0 <= at < j ==> n@[at] == 0,
            decreases item_rows - j,
        {
            n.push(0);
            j += 1;
        }
        proof {
            assert forall|at: int| 0 <= at < n@.len() implies n@[at] == total(
                need_terms(self@.ingredients, lines@, at).take(0),
            ) by {
                lemma_total_take_ends(need_terms(self@.ingredients, lines@, at));
            }
        }
        let mut k: usize = 0;
        while k < self.ingredients.len()
            invariant
                k <= self.ingredients.len(),
                item_rows == self@.items.len(),
                recipe_rows == self@.recipes.len(),
                self@.rows_ok(),
                lines_valid(lines@),
                p@.len() == self@.recipes.len(),
                forall|at: int| 0 <= at < p@.len() ==> p@[at] == portions(lines@, at),
                n@.len() == item_rows,
                forall|at: int|
                    0 <= at < n@.len() ==> n@[at] == total(
                        #[trigger] need_terms(self@.ingredients, lines@, at).take(k as int),
                    ),
            decreases self.ingredients.len() - k,
        {
            let ghost g = self@.ingredients[k as int];
            assert(ingredient_ok(
                g,
                self@.next_ingredient_id,
                self@.recipes.len(),
                self@.items.len(),
            ));
            let target: usize = (self.ingredients[k].item_id - 1) as usize;
            let source: usize = (self.ingredients[k].recipe_id - 1) as usize;
            let term: i128 = product(self.ingredients[k].quantity, p[source]);
            proof {
                assert(p@[source as int] == portions(lines@, source as int));
                assert forall|at: int| 0 <= at < n@.len() implies total(
                    #[trigger] need_terms(self@.ingredients, lines@, at).take(k + 1),
                ) == n@[at] + (if at == target {
                    term as int
                } else {
                    0
                }) by {
                    lemma_total_take_next(need_terms(self@.ingredients, lines@, at), k as int);
                    assert(n@[at] == total(
                        need_terms(self@.ingredients, lines@, at).take(k as int),
                    ));
                }
                lemma_need_terms_nonnegative(self@, lines@, target as int);
                lemma_total_prefix_bound(
                    need_terms(self@.ingredients, lines@, target as int),
                    k + 1,
                );
            }
            match accumulate(n[target], term) {
                Some(next) => {
                    n[target] = next;
                },
                None => {
                    assert(!fits(need(self@.ingredients, lines@, target as int)));
                    return None;
                },
            }
            k += 1;
        }
        proof {
            assert forall|at: int| 0 <= at < n@.len() implies n@[at] == need(
                self@.ingredients,
                lines@,
                at,
            ) by {
                lemma_total_take_ends(need_terms(self@.ingredients, lines@, at));
                assert(n@[at] == total(
                    need_terms(self@.ingredients, lines@, at).take(
                        self@.ingredients.len() as int,
                    ),
                ));
            }
        }
        Some(n)
    }

    /// The items of which the order takes more than is on hand. `n` holds
    /// the units that the order takes of each item.
    pub(crate) fn shortfalls_of(&self, lines: &Vec<OrderLine>, n: &Vec<i64>) -> (short: Vec<Shortfall>)
        requires
            self@.rows_ok(),
            n@.len() == self@.items.len(),
            forall|at: int| 0 <= at < n@.len() ==> n@[at] == need(self@.ingredients, lines@, at),
        ensures
            short@ == shortfalls(self@, lines@),
            short@.len() == 0 <==> forall|at: int|
                0 <= at < self@.items.len() ==> #[trigger] need(self@.ingredients, lines@, at)
                    <= self@.items[at].quantity,
    {
        let mut short: Vec<Shortfall> = Vec::new();
        let mut j: usize = 0;
        while j < self.items.len()
            invariant
                j <= self.items.len(),
                self@.rows_ok(),
                n@.len() == self@.items.len(),
                forall|at: int|
                    0 <= at < n@.len() ==> n@[at] == need(self@.ingredients, lines@, at),
                short@ == shortfalls_among(self@, lines@, j as int),
                short@.len() == 0 <==> forall|at: int|
                    0 <= at < j ==> #[trigger] need(self@.ingredients, lines@, at)
                        <= self@.items[at].quantity,
            decreases self.items.len() - j,
        {
            assert(item_ok(self@.items[j as int], j as int));
            assert(n@[j as int] == need(self@.ingredients, lines@, j as int));
            if n[j] > self.items[j].quantity {
                short.push(
                    Shortfall {
                        item_id: self.items[j].id,
                        required: n[j],
                        available: self.items[j].quantity,
                    },
                );
            }
            j += 1;
        }
        short
    }
}

/// Writing an order and its lines leaves every earlier order's total as it
/// was and gives the new order the sum over its own lines.
pub proof fn lemma_booked_orders_totalled(
    s: LedgerView,
    order_date: i64,
    customer_info: Option<String>,
    lines: Seq<OrderLine>,
)
    requires
        s.wf(),
        lines_valid(lines),
        lines_found(lines, s.recipes.len()),
        fits(order_amount(s.recipes, lines)),
        has_room(s.orders.len()),
    ensures
        s.booked(order_date, customer_info, lines).orders_totalled(),
{
    let after = s.booked(order_date, customer_info, lines);
    let rows = s.order_rows(lines);
    assert forall|i: int| 0 <= i < after.orders.len() implies (#[trigger] after.orders[i]).total_amount
        == order_total(after.order_items, (i + 1) as u64) by {
        let id = (i + 1) as u64;
        assert(order_terms(after.order_items, id) =~= order_terms(s.order_items, id) + order_terms(
            rows,
            id,
        ));
        lemma_total_concat(order_terms(s.order_items, id), order_terms(rows, id));
        if i < s.orders.len() {
            lemma_total_zeros(order_terms(rows, id));
            assert(s.orders[i].total_amount == order_total(s.order_items, id));
        } else {
            assert forall|k: int| 0 <= k < s.order_items.len() implies order_terms(
                s.order_items,
                id,
            )[k] == 0 by {
                assert(order_item_ok(
                    s.order_items[k],
                    k,
                    s.orders.len(),
                    s.recipes.len(),
                ));
            }
            lemma_total_zeros(order_terms(s.order_items, id));
            assert(order_terms(rows, id) =~= amount_terms(s.recipes, lines));
        }
    }
}

impl Ledger {
    /// Writes the order, its lines and its income entry.
    fn book(
        &mut self,
        order_date: i64,
        customer_info: Option<String>,
        lines: &Vec<OrderLine>,
        amount: i64,
        count: i64,
        recipe_id: Option<u64>,
    )
        requires
            old(self).wf(),
            lines_valid(lines@),
            lines_found(lines@, old(self)@.recipes.len()),
            amount == order_amount(old(self)@.recipes, lines@),
            count == order_quantity(lines@),
            recipe_id == single_recipe(lines@),
            has_room(old(self)@.orders.len()),
            has_room(old(self)@.records.len()),
            old(self)@.order_items.len() + lines@.len() <= u64::MAX,
        ensures
            final(self).wf(),
            final(self)@ == old(self)@.booked(order_date, customer_info, lines@),
    {
        let ghost before = self@;
        let order_id: u64 = self.orders.len() as u64 + 1;
        let record_id: u64 = self.records.len() as u64 + 1;
        let line_rows: u64 = self.order_items.len() as u64;
        let recipe_rows: usize = self.recipes.len();
        let mut rows: Vec<OrderItem> = Vec::new();
        let mut i: usize = 0;
        while i < lines.len()
            invariant
                i <= lines.len(),
                self@ == before,
                recipe_rows == before.recipes.len(),
                lines_found(lines@, before.recipes.len()),
                order_id == before.orders.len() + 1,
                line_rows == before.order_items.len(),
                before.order_items.len() + lines@.len() <= u64::MAX,
                rows@ == before.order_rows(lines@).take(i as int),
            decreases lines.len() - i,
        {
            assert(in_table(lines@[i as int].recipe_id, before.recipes.len()));
            let at: usize = (lines[i].recipe_id - 1) as usize;
            rows.push(
                OrderItem {
                    id: line_rows + (i as u64 + 1),
                    order_id,
                    recipe_id: lines[i].recipe_id,
                    quantity: lines[i].quantity,
                    price: self.recipes[at].selling_price,
                },
            );
            assert(rows@ =~= before.order_rows(lines@).take(i + 1));
            i += 1;
        }
        assert(rows@ =~= before.order_rows(lines@));
        self.orders.push(
            Order { id: order_id, order_date, total_amount: amount, customer_info, notes: None },
        );
        self.order_items.append(&mut rows);
        self.records.push(
            FinancialRecord {
                id: record_id,
                record_type: RecordType::Income,
                amount,
                record_date: order_date,
                description: None,
                recipe_id,
                quantity: Some(count),
            },
        );
        proof {
            let after = self@;
            assert(after == before.booked(order_date, customer_info, lines@));
            lemma_amount_terms_nonnegative(before, lines@);
            lemma_booked_orders_totalled(before, order_date, customer_info, lines@);
            assert(after.stock_consistent());
            assert(after.costs_current());
            assert(after.rows_ok()) by {
                assert forall|k: int| 0 <= k < after.orders.len() implies order_ok(
                    #[trigger] after.orders[k],
                    k,
                ) by {
                    if k < before.orders.len() {
                        assert(order_ok(before.orders[k], k));
                    }
                }
                assert forall|k: int|
                    0 <= k < after.order_items.len() implies order_item_ok(
                    #[trigger] after.order_items[k],
                    k,
                    after.orders.len(),
                    after.recipes.len(),
                ) by {
                    if k < before.order_items.len() {
                        assert(order_item_ok(
                            before.order_items[k],
                            k,
                            before.orders.len(),
                            before.recipes.len(),
                        ));
                    } else {
                        let line = lines@[k - before.order_items.len()];
                        assert(line.quantity > 0);
                        assert(in_table(line.recipe_id, before.recipes.len()));
                        assert(recipe_ok(
                            before.recipes[line.recipe_id - 1],
                            line.recipe_id - 1,
                        ));
                    }
                }
                assert forall|k: int| 0 <= k < after.records.len() implies record_ok(
                    #[trigger] after.records[k],
                    k,
                    after.recipes.len(),
                ) by {
                    if k < before.records.len() {
                        assert(record_ok(
                            before.records[k],
                            k,
                            before.recipes.len(),
                        ));
                    } else if lines@.len() > 0 {
                        assert(in_table(lines@[0].recipe_id, before.recipes.len()));
                    }
                }
            }
        }
    }

    /// Issues what the order takes of every item. `n` holds the units that
    /// the order takes of each.
    fn deplete(&mut self, n: &Vec<i64>, lines: &Vec<OrderLine>, order_date: i64, note: &String)
        requires
            old(self).wf(),
            lines_valid(lines@),
            n@.len() == old(self)@.items.len(),
            forall|at: int|
                0 <= at < n@.len() ==> n@[at] == need(old(self)@.ingredients, lines@, at),
            forall|at: int|
                0 <= at < n@.len() ==> #[trigger] need(old(self)@.ingredients, lines@, at) <= old(
                    self,
                )@.items[at].quantity,
            old(self)@.transactions.len() + old(self)@.items.len() <= u64::MAX,
        ensures
            final(self).wf(),
            final(self)@ == old(self)@.depleted(
                lines@,
                order_date,
                *note,
                old(self)@.items.len() as int,
            ),
    {
        let ghost base = self@;
        let item_rows: usize = self.items.len();
        let mut j: usize = 0;
        while j < item_rows
            invariant
                j <= item_rows,
                item_rows == base.items.len(),
                base.items.len() <= u64::MAX,
                self.wf(),
                self@ == base.depleted(lines@, order_date, *note, j as int),
                n@.len() == base.items.len(),
                forall|at: int| 0 <= at < n@.len() ==> n@[at] == need(base.ingredients, lines@, at),
                forall|at: int|
                    0 <= at < n@.len() ==> #[trigger] need(base.ingredients, lines@, at)
                        <= base.items[at].quantity,
                base.transactions.len() + base.items.len() <= u64::MAX,
            decreases item_rows - j,
        {
            proof {
                assert forall|at: int| 0 <= at < base.items.len() implies fits(
                    #[trigger] need(base.ingredients, lines@, at),
                ) by {
                    assert(n@[at] == need(base.ingredients, lines@, at));
                }
                lemma_depleted(base, lines@, order_date, *note, j as int);
                assert(self@.items[j as int] == base.items[j as int]);
                assert(n@[j as int] == need(base.ingredients, lines@, j as int));
                assert(need(base.ingredients, lines@, j as int) <= base.items[j as int].quantity);
            }
            if n[j] > 0 {
                let result = self.issue(j, n[j], order_date, Some(note.clone()));
                assert(result is Ok);
            }
            j += 1;
        }
    }

    /// Places an order for `lines`, each a recipe and a number of portions.
    ///
    /// The lines are checked, the price of each is taken from its recipe as
    /// it stands, and what the whole order takes of each item is held
    /// against the stock on hand before anything is written. Then the
    /// order and its lines are written, each item that the order uses is
    /// issued, and one income entry for the order's total is posted. Where
    /// an item is short, or anything else stands in the way, nothing is
    /// written at all.
    pub fn place_order(
        &mut self,
        order_date: i64,
        customer_info: Option<String>,
        lines: &Vec<OrderLine>,
    ) -> (result: Result<u64, LedgerError>)
        requires
            old(self).wf(),
        ensures
            final(self).wf(),
            result is Err ==> final(self)@ == old(self)@,
            !lines_valid(lines@) ==> result matches Err(LedgerError::Validation),
            lines_valid(lines@) && !lines_found(lines@, old(self)@.recipes.len())
                ==> result matches Err(LedgerError::NotFound),
            lines_valid(lines@) && lines_found(lines@, old(self)@.recipes.len()) && !order_fits(
                old(self)@,
                lines@,
            ) ==> result matches Err(LedgerError::Storage),
            lines_valid(lines@) && lines_found(lines@, old(self)@.recipes.len()) && order_fits(
                old(self)@,
                lines@,
            ) ==> if shortfalls(old(self)@, lines@).len() > 0 {
                result matches Err(LedgerError::InsufficientStock(short)) && short@ == shortfalls(
                    old(self)@,
                    lines@,
                )
            } else {
                &&& result == Ok::<u64, LedgerError>((old(self)@.orders.len() + 1) as u64)
                &&& exists|note: String|
                    note@ == order_note((old(self)@.orders.len() + 1) as u64) && final(self)@
                        == #[trigger] old(self)@.placed(order_date, customer_info, lines@, note)
            },
    {
        match self.check_lines(lines) {
            Err(e) => {
                return Err(e);
            },
            Ok(()) => {},
        }
        let amount: i64 = match self.order_amount_of(lines) {
            None => {
                return Err(LedgerError::Storage);
            },
            Some(amount) => amount,
        };
        let count: i64 = match order_quantity_of(lines) {
            None => {
                return Err(LedgerError::Storage);
            },
            Some(count) => count,
        };
        let p: Vec<i64> = match self.portions_of(lines) {
            None => {
                return Err(LedgerError::Storage);
            },
            Some(p) => p,
        };
        let n: Vec<i64> = match self.needs_of(lines, &p) {
            None => {
                return Err(LedgerError::Storage);
            },
            Some(n) => n,
        };
        let order_id: u64 = match next_row_id(self.orders.len()) {
            None => {
                return Err(LedgerError::Storage);
            },
            Some(id) => id,
        };
        if next_row_id(self.records.len()).is_none() {
            return Err(LedgerError::Storage);
        }
        if lines.len() as u64 > u64::MAX - self.order_items.len() as u64 {
            return Err(LedgerError::Storage);
        }
        if self.items.len() as u64 > u64::MAX - self.transactions.len() as u64 {
            return Err(LedgerError::Storage);
        }
        proof {
            assert forall|r: int| 0 <= r < self@.recipes.len() implies fits(
                #[trigger] portions(lines@, r),
            ) by {
                assert(p@[r] == portions(lines@, r));
            }
            assert forall|j: int| 0 <= j < self@.items.len() implies fits(
                #[trigger] need(self@.ingredients, lines@, j),
            ) by {
                assert(n@[j] == need(self@.ingredients, lines@, j));
            }
            assert(order_fits(self@, lines@));
        }
        let short: Vec<Shortfall> = self.shortfalls_of(lines, &n);
        if short.len() > 0 {
            return Err(LedgerError::InsufficientStock(short));
        }
        let recipe_id: Option<u64> = single_recipe_of(lines);
        let note: String = order_reference(order_id);
        self.book(order_date, customer_info, lines, amount, count, recipe_id);
        self.deplete(&n, lines, order_date, &note);
        assert(self@ == old(self)@.placed(order_date, customer_info, lines@, note));
        Ok(order_id)
    }
}

/// Portions ordered over all lines, or `None` where the count does not fit.
pub(crate) fn order_quantity_of(lines: &Vec<OrderLine>) -> (r: Option<i64>)
    requires
        lines_valid(lines@),
    ensures
        fits(order_quantity(lines@)) ==> r == Some(order_quantity(lines@) as i64),
        !fits(order_quantity(lines@)) ==> r is None,
{
    let ghost terms = quantity_terms(lines@);
    proof {
        lemma_total_take_ends(terms);
    }
    let mut count: i64 = 0;
    let mut i: usize = 0;
    while i < lines.len()
        invariant
            i <= lines.len(),
            lines_valid(lines@),
            terms == quantity_terms(lines@),
            count == total(terms.take(i as int)),
        decreases lines.len() - i,
    {
        proof {
            assert forall|k: int| 0 <= k < terms.len() implies terms[k] >= 0 by {
                assert(lines@[k].quantity > 0);
            }
            lemma_total_take_next(terms, i as int);
            lemma_total_prefix_bound(terms, i + 1);
        }
        match accumulate(count, lines[i].quantity as i128) {
            Some(next) => {
                count = next;
            },
            None => {
                return None;
            },
        }
        i += 1;
    }
    Some(count)
}

/// The recipe that the order is for, where all its lines name the same one.
pub fn single_recipe_of(lines: &Vec<OrderLine>) -> (r: Option<u64>)
    ensures
        r == single_recipe(lines@),
{
    if lines.len() == 0 {
        return None;
    }
    let first: u64 = lines[0].recipe_id;
    let mut i: usize = 1;
    while i < lines.len()
        invariant
            1 <= i <= lines.len(),
            first == lines@[0].recipe_id,
            forall|k: int| 0 <= k < i ==> (#[trigger] lines@[k]).recipe_id == first,
        decreases lines.len() - i,
    {
        if lines[i].recipe_id != first {
            return None;
        }
        i += 1;
    }
    Some(first)
}

} // verus!
