//! The relational schema that persists the ledger, as an ordered list of
//! migrations.
//!
//! Every statement is written so that applying it to a database that already
//! has the table changes nothing, and the list is ordered by a strictly
//! increasing version, so a store that remembers the highest version it has
//! applied runs each migration exactly once.

use vstd::prelude::*;

verus! {

/// The direction of a migration.
#[derive(Clone, Copy, Debug, PartialEq, Eq, Structural)]
pub enum MigrationKind {
    /// Brings the schema forward to the migration's version.
    Up,
    /// Takes the schema back to the version before it.
    Down,
}

/// One step of the schema's history.
#[derive(Clone, Copy, Debug)]
pub struct Migration {
    /// Position in the history; versions start at 1.
    pub version: i64,
    /// What the step does, for logs.
    pub description: &'static str,
    /// The statements to execute.
    pub sql: &'static str,
    /// Direction of the step.
    pub kind: MigrationKind,
}

/// Name of the database the application opens.
pub const DATABASE_URL: &'static str = "sqlite:inventory.db";

/// Description of the first migration.
pub const CORE_TABLES_DESCRIPTION: &'static str = "Create tables for inventory app";

/// Items, stock transactions, recipes, their ingredients and the financial
/// ledger.
pub const CORE_TABLES_SQL: &'static str = r#"
CREATE TABLE IF NOT EXISTS items (
  id INTEGER PRIMARY KEY AUTOINCREMENT,
  name VARCHAR,
  category VARCHAR,
  quantity REAL,
  unit VARCHAR,
  cost REAL,
  cost_per_unit REAL,
  expiration_date DATE,
  location VARCHAR
);

CREATE TABLE IF NOT EXISTS inventory_transactions (
  id INTEGER PRIMARY KEY AUTOINCREMENT,
  item_id INTEGER,
  transaction_type VARCHAR, -- "in" สำหรับรับเข้า, "out" สำหรับการใช้หรือขาย
  change_quantity REAL,
  transaction_date DATETIME,
  notes TEXT,
  FOREIGN KEY(item_id) REFERENCES items(id)
);

CREATE TABLE IF NOT EXISTS recipes (
  id INTEGER PRIMARY KEY AUTOINCREMENT,
  name VARCHAR,
  description TEXT,
  recipe_cost REAL,
  selling_price REAL,
  profit REAL,
  profit_margin REAL,
  image BLOB -- เพิ่มคอลัมน์สำหรับเก็บรูปภาพ
);

CREATE TABLE IF NOT EXISTS recipe_ingredients (
  id INTEGER PRIMARY KEY AUTOINCREMENT,
  recipe_id INTEGER,
  item_id INTEGER,
  quantity REAL,
  unit VARCHAR,
  FOREIGN KEY(recipe_id) REFERENCES recipes(id),
  FOREIGN KEY(item_id) REFERENCES items(id)
);

CREATE TABLE IF NOT EXISTS financial_records (
  id INTEGER PRIMARY KEY AUTOINCREMENT,
  record_type VARCHAR, -- "income" หรือ "expense"
  amount REAL,
  record_date DATETIME,
  description TEXT,
  recipe_id INTEGER, -- ระบุว่าสูตรไหนถูกใช้งานในรายการนี้
  quantity INTEGER,  -- จำนวนสินค้าที่ขาย (สำหรับสูตรที่บันทึกเป็น income)
  FOREIGN KEY(recipe_id) REFERENCES recipes(id)
);
"#;

/// Description of the second migration.
pub const ORDER_TABLES_DESCRIPTION: &'static str = "Create tables for orders";

/// Orders and their lines.
pub const ORDER_TABLES_SQL: &'static str = r#"
CREATE TABLE IF NOT EXISTS orders (
  id INTEGER PRIMARY KEY AUTOINCREMENT,
  order_date DATETIME,
  total_amount REAL,
  customer_info TEXT,
  notes TEXT
);

CREATE TABLE IF NOT EXISTS order_items (
  id INTEGER PRIMARY KEY AUTOINCREMENT,
  order_id INTEGER,
  recipe_id INTEGER,
  quantity INTEGER,
  price REAL,
  FOREIGN KEY(order_id) REFERENCES orders(id),
  FOREIGN KEY(recipe_id) REFERENCES recipes(id)
);
"#;

/// A history is well ordered when it starts at version 1, each step carries
/// the version after its predecessor's, and every step goes forward.
pub open spec fn well_ordered(history: Seq<Migration>) -> bool {
    forall|i: int|
        0 <= i < history.len() ==> (#[trigger] history[i]).version == i + 1
            && history[i].kind == MigrationKind::Up
}

/// The schema's history, oldest step first.
pub fn migrations() -> (history: Vec<Migration>)
    ensures
        history@.len() == 2,
        well_ordered(history@),
        history@[0].description@ == CORE_TABLES_DESCRIPTION@,
        history@[0].sql@ == CORE_TABLES_SQL@,
        history@[1].description@ == ORDER_TABLES_DESCRIPTION@,
        history@[1].sql@ == ORDER_TABLES_SQL@,
{
    let mut history: Vec<Migration> = Vec::new();
    history.push(
        Migration {
            version: 1,
            description: CORE_TABLES_DESCRIPTION,
            sql: CORE_TABLES_SQL,
            kind: MigrationKind::Up,
        },
    );
    history.push(
        Migration {
            version: 2,
            description: ORDER_TABLES_DESCRIPTION,
            sql: ORDER_TABLES_SQL,
            kind: MigrationKind::Up,
        },
    );
    history
}

/// The steps of `history` that a store at `applied_version` has yet to run,
/// in the order in which to run them.
pub open spec fn pending_steps(history: Seq<Migration>, applied_version: i64) -> Seq<Migration> {
    if applied_version <= 0 {
        history
    } else if applied_version >= history.len() {
        Seq::empty()
    } else {
        history.subrange(applied_version as int, history.len() as int)
    }
}

/// Selects the migrations that a store whose version marker reads
/// `applied_version` still has to apply. A marker of zero or less stands for
/// a fresh store.
pub fn pending(history: &Vec<Migration>, applied_version: i64) -> (steps: Vec<Migration>)
    requires
        well_ordered(history@),
    ensures
        steps@ == pending_steps(history@, applied_version),
        forall|i: int| 0 <= i < steps@.len() ==> (#[trigger] steps@[i]).version > applied_version,
{
    let mut steps: Vec<Migration> = Vec::new();
    let mut i: usize = 0;
    if applied_version > 0 {
        if (applied_version as u64) >= (history.len() as u64) {
            assert(steps@ =~= pending_steps(history@, applied_version));
            return steps;
        }
        i = applied_version as usize;
    }
    let ghost start: int = i as int;
    while i < history.len()
        invariant
            start <= i <= history.len(),
            start == (if applied_version <= 0 { 0 } else { applied_version as int }),
            well_ordered(history@),
            steps@ == history@.subrange(start, i as int),
        decreases history.len() - i,
    {
        steps.push(history[i]);
        assert(steps@ =~= history@.subrange(start, i + 1));
        i += 1;
    }
    assert(steps@ =~= pending_steps(history@, applied_version));
    steps
}

} // verus!
