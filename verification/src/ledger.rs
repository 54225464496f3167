//! The ledger's state and the invariants that tie its tables together.
//!
//! Items, stock transactions, recipes, orders, order lines and financial
//! records are never deleted, and their ids are handed out in sequence from
//! 1: the row with id `n` is the `n`-th row of its table. Ingredients can be
//! removed, so their ids only increase along the table.

use vstd::prelude::*;
use crate::model::{
    Costing, FinancialRecord, InventoryTransaction, Item, Order, OrderItem, Recipe,
    RecipeIngredient, TransactionType,
};
use crate::money::{fits, margin, profit, total};

verus! {

/// The tables as mathematical sequences.
pub struct LedgerView {
    pub items: Seq<Item>,
    pub transactions: Seq<InventoryTransaction>,
    pub recipes: Seq<Recipe>,
    pub ingredients: Seq<RecipeIngredient>,
    pub next_ingredient_id: u64,
    pub orders: Seq<Order>,
    pub order_items: Seq<OrderItem>,
    pub records: Seq<FinancialRecord>,
}

/// The ledger: seven tables held in memory. The tables are read through
/// the ledger's methods and change only through its operations, each of
/// which keeps the invariant.
pub struct Ledger {
    pub(crate) items: Vec<Item>,
    pub(crate) transactions: Vec<InventoryTransaction>,
    pub(crate) recipes: Vec<Recipe>,
    pub(crate) ingredients: Vec<RecipeIngredient>,
    pub(crate) next_ingredient_id: u64,
    pub(crate) orders: Vec<Order>,
    pub(crate) order_items: Vec<OrderItem>,
    pub(crate) records: Vec<FinancialRecord>,
}

/// Whether a table of `rows` rows has an id left for one more.
pub open spec fn has_room(rows: nat) -> bool {
    rows < u64::MAX
}

/// Whether `id` names a row of a table of `rows` rows whose ids run from 1.
pub open spec fn in_table(id: u64, rows: nat) -> bool {
    1 <= id <= rows
}

/// What a stock transaction adds to its item's quantity.
pub open spec fn signed_change(t: InventoryTransaction) -> int {
    match t.transaction_type {
        TransactionType::In => t.change_quantity as int,
        TransactionType::Out => -(t.change_quantity as int),
    }
}

/// For each transaction, what it adds to the quantity of item `item_id`.
pub open spec fn stock_terms(transactions: Seq<InventoryTransaction>, item_id: u64) -> Seq<int> {
    Seq::new(
        transactions.len(),
        |i: int|
            if transactions[i].item_id == item_id {
                signed_change(transactions[i])
            } else {
                0
            },
    )
}

/// The signed sum of the transactions of item `item_id`.
pub open spec fn stock_level(transactions: Seq<InventoryTransaction>, item_id: u64) -> int {
    total(stock_terms(transactions, item_id))
}

/// For each ingredient row, what it adds to the cost of one portion of
/// recipe `recipe_id`.
pub open spec fn cost_terms(
    items: Seq<Item>,
    ingredients: Seq<RecipeIngredient>,
    recipe_id: u64,
) -> Seq<int> {
    Seq::new(
        ingredients.len(),
        |k: int|
            if ingredients[k].recipe_id == recipe_id {
                ingredients[k].quantity * items[ingredients[k].item_id - 1].cost_per_unit
            } else {
                0
            },
    )
}

/// Cost of one portion of recipe `recipe_id`: over its ingredients, the sum
/// of quantity times the item's unit cost.
pub open spec fn recipe_cost(
    items: Seq<Item>,
    ingredients: Seq<RecipeIngredient>,
    recipe_id: u64,
) -> int {
    total(cost_terms(items, ingredients, recipe_id))
}

/// Whether the derived fields of a recipe sold at `selling_price` can be
/// stored.
pub open spec fn costing_fits(
    items: Seq<Item>,
    ingredients: Seq<RecipeIngredient>,
    recipe_id: u64,
    selling_price: i64,
) -> bool {
    let cost = recipe_cost(items, ingredients, recipe_id);
    fits(cost) && fits(margin(profit(selling_price as int, cost), selling_price as int))
}

/// The derived fields of a recipe sold at `selling_price`.
pub open spec fn costing(
    items: Seq<Item>,
    ingredients: Seq<RecipeIngredient>,
    recipe_id: u64,
    selling_price: i64,
) -> Costing {
    let cost = recipe_cost(items, ingredients, recipe_id);
    Costing {
        recipe_cost: cost as i64,
        profit: profit(selling_price as int, cost) as i64,
        profit_margin: margin(profit(selling_price as int, cost), selling_price as int) as i64,
    }
}

/// The recipe with its derived fields replaced.
pub open spec fn with_costing(recipe: Recipe, c: Costing) -> Recipe {
    Recipe {
        recipe_cost: c.recipe_cost,
        profit: c.profit,
        profit_margin: c.profit_margin,
        ..recipe
    }
}

/// Whether the stored derived fields of `recipe` are what its ingredients
/// and the items' unit costs give now.
pub open spec fn is_current(
    items: Seq<Item>,
    ingredients: Seq<RecipeIngredient>,
    recipe: Recipe,
) -> bool {
    &&& costing_fits(items, ingredients, recipe.id, recipe.selling_price)
    &&& recipe == with_costing(
        recipe,
        costing(items, ingredients, recipe.id, recipe.selling_price),
    )
}

/// Every recipe with its derived fields evaluated afresh.
pub open spec fn recosted(
    items: Seq<Item>,
    ingredients: Seq<RecipeIngredient>,
    recipes: Seq<Recipe>,
) -> Seq<Recipe> {
    Seq::new(
        recipes.len(),
        |j: int|
            with_costing(
                recipes[j],
                costing(items, ingredients, recipes[j].id, recipes[j].selling_price),
            ),
    )
}

/// For each order line, what it adds to the total of order `order_id`.
pub open spec fn order_terms(order_items: Seq<OrderItem>, order_id: u64) -> Seq<int> {
    Seq::new(
        order_items.len(),
        |i: int|
            if order_items[i].order_id == order_id {
                order_items[i].price * order_items[i].quantity
            } else {
                0
            },
    )
}

/// The sum of price times quantity over the lines of order `order_id`.
pub open spec fn order_total(order_items: Seq<OrderItem>, order_id: u64) -> int {
    total(order_terms(order_items, order_id))
}

/// An item row is valid at position `index`: its id is its place in the
/// table, it has a name, and its quantity, cost and unit cost are not
/// negative.
pub open spec fn item_ok(item: Item, index: int) -> bool {
    &&& item.id == index + 1
    &&& item.name@.len() > 0
    &&& item.quantity >= 0
    &&& item.cost >= 0
    &&& item.cost_per_unit >= 0
}

/// A stock transaction is valid at position `index`: its id is its place
/// in the log, its quantity is a magnitude, and its item exists.
pub open spec fn transaction_ok(t: InventoryTransaction, index: int, items: nat) -> bool {
    &&& t.id == index + 1
    &&& t.change_quantity >= 0
    &&& in_table(t.item_id, items)
}

/// A recipe row is valid at position `index`: its id is its place in the
/// table, it has a name, and its selling price is positive.
pub open spec fn recipe_ok(recipe: Recipe, index: int) -> bool {
    &&& recipe.id == index + 1
    &&& recipe.name@.len() > 0
    &&& recipe.selling_price > 0
}

/// An ingredient row is valid: its id has been handed out, its quantity
/// is positive, and its recipe and its item exist.
pub open spec fn ingredient_ok(g: RecipeIngredient, next_id: u64, recipes: nat, items: nat) -> bool {
    &&& 1 <= g.id < next_id
    &&& g.quantity > 0
    &&& in_table(g.recipe_id, recipes)
    &&& in_table(g.item_id, items)
}

/// An order row is valid at position `index`: its id is its place in the
/// table and its total is not negative.
pub open spec fn order_ok(order: Order, index: int) -> bool {
    &&& order.id == index + 1
    &&& order.total_amount >= 0
}

/// An order line is valid at position `index`: its id is its place in
/// the table, quantity and price are positive, and its order and its
/// recipe exist.
pub open spec fn order_item_ok(line: OrderItem, index: int, orders: nat, recipes: nat) -> bool {
    &&& line.id == index + 1
    &&& line.quantity > 0
    &&& line.price > 0
    &&& in_table(line.order_id, orders)
    &&& in_table(line.recipe_id, recipes)
}

/// A financial record is valid at position `index`: its id is its place
/// in the ledger, and the recipe it names, if any, exists.
pub open spec fn record_ok(record: FinancialRecord, index: int, recipes: nat) -> bool {
    &&& record.id == index + 1
    &&& record.recipe_id matches Some(r) ==> in_table(r, recipes)
}

impl LedgerView {
    /// The ledger with no rows.
    pub open spec fn empty() -> LedgerView {
        LedgerView {
            items: Seq::empty(),
            transactions: Seq::empty(),
            recipes: Seq::empty(),
            ingredients: Seq::empty(),
            next_ingredient_id: 1,
            orders: Seq::empty(),
            order_items: Seq::empty(),
            records: Seq::empty(),
        }
    }

    /// Whether an item has id `id`.
    pub open spec fn has_item(self, id: u64) -> bool {
        in_table(id, self.items.len())
    }

    /// The item with id `id`.
    pub open spec fn item(self, id: u64) -> Item {
        self.items[id - 1]
    }

    /// Whether a recipe has id `id`.
    pub open spec fn has_recipe(self, id: u64) -> bool {
        in_table(id, self.recipes.len())
    }

    /// The recipe with id `id`.
    pub open spec fn recipe(self, id: u64) -> Recipe {
        self.recipes[id - 1]
    }

    /// Whether the derived fields of the recipe at position `j` can be
    /// stored.
    pub open spec fn costing_fits_at(self, j: int) -> bool {
        costing_fits(self.items, self.ingredients, self.recipes[j].id, self.recipes[j].selling_price)
    }

    /// The derived fields of the recipe at position `j`.
    pub open spec fn costing_at(self, j: int) -> Costing {
        costing(self.items, self.ingredients, self.recipes[j].id, self.recipes[j].selling_price)
    }

    /// Every row is valid by itself and refers only to rows that exist.
    pub open spec fn rows_ok(self) -> bool {
        &&& self.next_ingredient_id >= 1
        &&& forall|i: int| 0 <= i < self.items.len() ==> item_ok(#[trigger] self.items[i], i)
        &&& forall|i: int|
            0 <= i < self.transactions.len() ==> transaction_ok(
                #[trigger] self.transactions[i],
                i,
                self.items.len(),
            )
        &&& forall|i: int| 0 <= i < self.recipes.len() ==> recipe_ok(#[trigger] self.recipes[i], i)
        &&& forall|i: int|
            0 <= i < self.ingredients.len() ==> ingredient_ok(
                #[trigger] self.ingredients[i],
                self.next_ingredient_id,
                self.recipes.len(),
                self.items.len(),
            )
        &&& forall|i: int, j: int|
            0 <= i < j < self.ingredients.len() ==> (#[trigger] self.ingredients[i]).id < (
            #[trigger] self.ingredients[j]).id
        &&& forall|i: int| 0 <= i < self.orders.len() ==> order_ok(#[trigger] self.orders[i], i)
        &&& forall|i: int|
            0 <= i < self.order_items.len() ==> order_item_ok(
                #[trigger] self.order_items[i],
                i,
                self.orders.len(),
                self.recipes.len(),
            )
        &&& forall|i: int|
            0 <= i < self.records.len() ==> record_ok(
                #[trigger] self.records[i],
                i,
                self.recipes.len(),
            )
    }

    /// Each item's quantity is the signed sum of its transactions.
    pub open spec fn stock_consistent(self) -> bool {
        forall|i: int|
            0 <= i < self.items.len() ==> (#[trigger] self.items[i]).quantity == stock_level(
                self.transactions,
                (i + 1) as u64,
            )
    }

    /// Each recipe's stored cost, profit and margin are what its
    /// ingredients and the items' unit costs give.
    pub open spec fn costs_current(self) -> bool {
        forall|j: int|
            0 <= j < self.recipes.len() ==> is_current(
                self.items,
                self.ingredients,
                #[trigger] self.recipes[j],
            )
    }

    /// Each order's total is the sum of price times quantity over its lines.
    pub open spec fn orders_totalled(self) -> bool {
        forall|i: int|
            0 <= i < self.orders.len() ==> (#[trigger] self.orders[i]).total_amount == order_total(
                self.order_items,
                (i + 1) as u64,
            )
    }

    /// The invariant of the ledger.
    pub open spec fn wf(self) -> bool {
        &&& self.rows_ok()
        &&& self.stock_consistent()
        &&& self.costs_current()
        &&& self.orders_totalled()
    }
}

impl View for Ledger {
    type V = LedgerView;

    open(crate) spec fn view(&self) -> LedgerView {
        LedgerView {
            items: self.items@,
            transactions: self.transactions@,
            recipes: self.recipes@,
            ingredients: self.ingredients@,
            next_ingredient_id: self.next_ingredient_id,
            orders: self.orders@,
            order_items: self.order_items@,
            records: self.records@,
        }
    }
}

/// The id for the next row of a table of `rows` rows, if one is left.
pub fn next_row_id(rows: usize) -> (id: Option<u64>)
    ensures
        has_room(rows as nat) ==> id == Some((rows + 1) as u64),
        !has_room(rows as nat) ==> id is None,
{
    let n: u64 = rows as u64;
    if n == u64::MAX {
        None
    } else {
        Some(n + 1)
    }
}

/// The position of row `id` in a table of `rows` rows, if it is there.
pub fn row_index(id: u64, rows: usize) -> (index: Option<usize>)
    ensures
        in_table(id, rows as nat) ==> index == Some((id - 1) as usize),
        !in_table(id, rows as nat) ==> index is None,
{
    if id >= 1 && id <= rows as u64 {
        Some((id - 1) as usize)
    } else {
        None
    }
}

impl Ledger {
    /// The invariant of the ledger; every operation keeps it.
    pub open spec fn wf(&self) -> bool {
        self@.wf()
    }

    /// All items, in id order.
    pub fn items(&self) -> (rows: &Vec<Item>)
        ensures
            rows@ == self@.items,
    {
        &self.items
    }

    /// The stock log, oldest entry first.
    pub fn transactions(&self) -> (rows: &Vec<InventoryTransaction>)
        ensures
            rows@ == self@.transactions,
    {
        &self.transactions
    }

    /// All ingredient rows, in id order.
    pub fn ingredients(&self) -> (rows: &Vec<RecipeIngredient>)
        ensures
            rows@ == self@.ingredients,
    {
        &self.ingredients
    }

    /// All orders, in id order.
    pub fn orders(&self) -> (rows: &Vec<Order>)
        ensures
            rows@ == self@.orders,
    {
        &self.orders
    }

    /// The lines of all orders, in id order.
    pub fn order_items(&self) -> (rows: &Vec<OrderItem>)
        ensures
            rows@ == self@.order_items,
    {
        &self.order_items
    }

    /// The financial ledger, oldest entry first.
    pub fn records(&self) -> (rows: &Vec<FinancialRecord>)
        ensures
            rows@ == self@.records,
    {
        &self.records
    }

    /// An empty ledger.
    pub fn new() -> (ledger: Ledger)
        ensures
            ledger.wf(),
            ledger@ == LedgerView::empty(),
    {
        Ledger {
            items: Vec::new(),
            transactions: Vec::new(),
            recipes: Vec::new(),
            ingredients: Vec::new(),
            next_ingredient_id: 1,
            orders: Vec::new(),
            order_items: Vec::new(),
            records: Vec::new(),
        }
    }
}

} // verus!
