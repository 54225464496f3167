use inventory_ledger::schema::{
    migrations, pending, MigrationKind, CORE_TABLES_SQL, DATABASE_URL, ORDER_TABLES_SQL,
};

#[test]
fn migrations_are_numbered_from_one_and_go_forward() {
    let history = migrations();
    assert_eq!(history.len(), 2);
    assert_eq!(history[0].version, 1);
    assert_eq!(history[1].version, 2);
    assert_eq!(history[0].kind, MigrationKind::Up);
    assert_eq!(history[1].kind, MigrationKind::Up);
    assert_eq!(history[0].description, "Create tables for inventory app");
    assert_eq!(history[0].sql, CORE_TABLES_SQL);
    assert_eq!(history[1].sql, ORDER_TABLES_SQL);
}

#[test]
fn schema_has_seven_tables_that_can_be_created_again() {
    let mut tables: Vec<String> = Vec::new();
    for m in migrations() {
        for line in m.sql.lines() {
            if let Some(rest) = line.strip_prefix("CREATE TABLE IF NOT EXISTS ") {
                tables.push(rest.trim_end_matches(" (").to_string());
            } else {
                assert!(!line.starts_with("CREATE TABLE"));
            }
        }
    }
    assert_eq!(
        tables,
        vec![
            "items",
            "inventory_transactions",
            "recipes",
            "recipe_ingredients",
            "financial_records",
            "orders",
            "order_items",
        ]
    );
}

#[test]
fn database_url_names_the_sqlite_file() {
    assert_eq!(DATABASE_URL, "sqlite:inventory.db");
}

#[test]
fn pending_skips_what_was_applied() {
    let history = migrations();
    let fresh = pending(&history, 0);
    assert_eq!(fresh.iter().map(|m| m.version).collect::<Vec<i64>>(), vec![1, 2]);
    let negative = pending(&history, -3);
    assert_eq!(negative.len(), 2);
    let after_first = pending(&history, 1);
    assert_eq!(after_first.iter().map(|m| m.version).collect::<Vec<i64>>(), vec![2]);
    assert!(pending(&history, 2).is_empty());
    assert!(pending(&history, 7).is_empty());
    assert!(pending(&history, i64::MAX).is_empty());
}
