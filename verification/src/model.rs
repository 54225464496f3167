//! The rows of the ledger's seven tables, and the errors its operations
//! report.
//!
//! Quantities count whole stock units, amounts count minor currency units,
//! margins are in parts per million, and dates are seconds since the epoch.

use vstd::prelude::*;

verus! {

/// Direction of a stock movement.
#[derive(Clone, Copy, Debug, PartialEq, Eq, Structural)]
pub enum TransactionType {
    /// Stock received.
    In,
    /// Stock used or sold.
    Out,
}

/// A stock movement as requested by a caller: a receipt states what the
/// received units cost in all.
#[derive(Clone, Copy, Debug, PartialEq, Eq, Structural)]
pub enum StockChange {
    /// Stock received for `total_cost`.
    In { total_cost: i64 },
    /// Stock used or sold.
    Out,
}

/// Side of the financial ledger.
#[derive(Clone, Copy, Debug, PartialEq, Eq, Structural)]
pub enum RecordType {
    /// Money received.
    Income,
    /// Money spent.
    Expense,
}

/// A stocked article.
#[derive(Debug)]
pub struct Item {
    pub id: u64,
    pub name: String,
    pub category: String,
    /// Units on hand; never negative.
    pub quantity: i64,
    /// Name of the unit that `quantity` counts.
    pub unit: String,
    /// Value of the stock on hand at the last receipt.
    pub cost: i64,
    /// `cost` spread over the units on hand at the last receipt.
    pub cost_per_unit: i64,
    pub expiration_date: Option<i64>,
    pub location: Option<String>,
}

/// One entry of the stock log. `change_quantity` is a magnitude; the type
/// gives its sign.
#[derive(Debug)]
pub struct InventoryTransaction {
    pub id: u64,
    pub item_id: u64,
    pub transaction_type: TransactionType,
    pub change_quantity: i64,
    pub transaction_date: i64,
    pub notes: Option<String>,
}

/// A product made of stocked items. Cost, profit and margin are derived from
/// the ingredients and the items' unit costs.
#[derive(Debug)]
pub struct Recipe {
    pub id: u64,
    pub name: String,
    pub description: Option<String>,
    pub selling_price: i64,
    pub recipe_cost: i64,
    pub profit: i64,
    pub profit_margin: i64,
    pub image: Option<Vec<u8>>,
}

/// The derived fields of a recipe.
#[derive(Clone, Copy, Debug, PartialEq, Eq, Structural)]
pub struct Costing {
    pub recipe_cost: i64,
    pub profit: i64,
    pub profit_margin: i64,
}

/// An item used by a recipe, with the quantity that one portion takes.
#[derive(Debug)]
pub struct RecipeIngredient {
    pub id: u64,
    pub recipe_id: u64,
    pub item_id: u64,
    pub quantity: i64,
    pub unit: String,
}

/// A sale.
#[derive(Debug)]
pub struct Order {
    pub id: u64,
    pub order_date: i64,
    pub total_amount: i64,
    pub customer_info: Option<String>,
    pub notes: Option<String>,
}

/// One line of a sale. `price` is the recipe's selling price when the order
/// was placed.
#[derive(Clone, Copy, Debug, PartialEq, Eq, Structural)]
pub struct OrderItem {
    pub id: u64,
    pub order_id: u64,
    pub recipe_id: u64,
    pub quantity: i64,
    pub price: i64,
}

/// One line of a sale as requested by a caller.
#[derive(Clone, Copy, Debug, PartialEq, Eq, Structural)]
pub struct OrderLine {
    pub recipe_id: u64,
    pub quantity: i64,
}

/// One entry of the financial ledger.
#[derive(Debug)]
pub struct FinancialRecord {
    pub id: u64,
    pub record_type: RecordType,
    pub amount: i64,
    pub record_date: i64,
    pub description: Option<String>,
    /// The recipe sold, where the entry comes from an order of one recipe.
    pub recipe_id: Option<u64>,
    /// Portions sold, where the entry comes from an order.
    pub quantity: Option<i64>,
}

/// An item of which an operation needs more than is on hand.
#[derive(Clone, Copy, Debug, PartialEq, Eq, Structural)]
pub struct Shortfall {
    pub item_id: u64,
    pub required: i64,
    pub available: i64,
}

/// Totals of the financial ledger over a range of dates.
#[derive(Clone, Copy, Debug, PartialEq, Eq, Structural)]
pub struct Summary {
    pub income: i128,
    pub expense: i128,
    pub net: i128,
}

/// Why an operation was refused. A refused operation changes nothing.
#[derive(Debug)]
pub enum LedgerError {
    /// The input is malformed: an empty name, a negative quantity or
    /// amount, a price or portion count that is not positive.
    Validation,
    /// A row that the input refers to does not exist.
    NotFound,
    /// Stock on hand does not cover the operation; lists each item that is
    /// short.
    InsufficientStock(Vec<Shortfall>),
    /// The outcome cannot be stored: a table has no row id left, or a
    /// value would leave the range of its column.
    Storage,
}

} // verus!
