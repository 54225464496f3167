//! An inventory and point-of-sale ledger: items and their stock, recipes
//! made of items, orders made of recipes, and a financial ledger.
//!
//! The [`ledger::Ledger`] holds seven tables and keeps them consistent:
//!
//! - an item's quantity is the signed sum of its stock transactions, and
//!   never negative;
//! - a recipe's stored cost, profit and margin are what its ingredients and
//!   the items' unit costs give;
//! - an order's total is the sum of price times quantity over its lines.
//!
//! Every operation either applies in full or reports a
//! [`model::LedgerError`] and changes nothing. Operations take the ledger
//! by unique reference, so writers are serialised by the borrow rules.
//!
//! Quantities count whole stock units and amounts count minor currency
//! units, both as signed 64-bit integers; margins are in parts per million.
//! Division rounds toward zero. Dates are seconds since the epoch.
//!
//! Modules, leaves first: [`money`] has the arithmetic, [`model`] the rows,
//! [`ledger`] the state and its invariant, [`catalog`] the items, [`stock`]
//! the stock transactions, [`costing`] and [`recipes`] the recipes,
//! [`orders`] the order processor, [`finance`] the financial ledger,
//! [`schema`] the relational schema that persists it all, and [`laws`] what
//! holds of the whole.

pub mod catalog;
pub mod costing;
pub mod finance;
pub mod laws;
pub mod ledger;
pub mod model;
pub mod money;
pub mod orders;
pub mod recipes;
pub mod schema;
pub mod stock;
