use inventory_ledger::ledger::Ledger;
use inventory_ledger::model::{LedgerError, StockChange, TransactionType};

fn text(s: &str) -> String {
    s.to_string()
}

/// Item A: 10 units that cost 20.000000 in all.
fn ledger_with_item_a() -> Ledger {
    let mut ledger = Ledger::new();
    let id = ledger
        .create_item(text("Item A"), text("dry"), 10, text("kg"), 20_000_000, None, None, 100)
        .unwrap();
    assert_eq!(id, 1);
    ledger
}

fn signed_sum(ledger: &Ledger, item_id: u64) -> i64 {
    let mut sum: i64 = 0;
    for t in ledger.transactions().iter() {
        if t.item_id == item_id {
            match t.transaction_type {
                TransactionType::In => sum += t.change_quantity,
                TransactionType::Out => sum -= t.change_quantity,
            }
        }
    }
    sum
}

#[test]
fn create_item_sets_unit_cost_and_logs_opening_stock() {
    let ledger = ledger_with_item_a();
    let item = ledger.get_item(1).unwrap();
    assert_eq!(item.quantity, 10);
    assert_eq!(item.cost, 20_000_000);
    assert_eq!(item.cost_per_unit, 2_000_000);
    assert_eq!(ledger.transactions().len(), 1);
    assert_eq!(ledger.transactions()[0].id, 1);
    assert_eq!(ledger.transactions()[0].item_id, 1);
    assert_eq!(ledger.transactions()[0].transaction_type, TransactionType::In);
    assert_eq!(ledger.transactions()[0].change_quantity, 10);
    assert_eq!(ledger.transactions()[0].transaction_date, 100);
    assert!(ledger.transactions()[0].notes.is_none());
}

#[test]
fn create_item_without_stock_logs_nothing() {
    let mut ledger = Ledger::new();
    let id = ledger
        .create_item(text("Salt"), text("dry"), 0, text("g"), 0, Some(99), Some(text("shelf")), 1)
        .unwrap();
    assert_eq!(id, 1);
    assert_eq!(ledger.transactions().len(), 0);
    let item = ledger.get_item(1).unwrap();
    assert_eq!(item.cost_per_unit, 0);
    assert_eq!(item.expiration_date, Some(99));
    assert_eq!(item.location.as_deref(), Some("shelf"));
}

#[test]
fn create_item_rejects_malformed_input() {
    let mut ledger = Ledger::new();
    let r = ledger.create_item(text(""), text("dry"), 1, text("kg"), 1, None, None, 0);
    assert!(matches!(r, Err(LedgerError::Validation)));
    let r = ledger.create_item(text("A"), text("dry"), -1, text("kg"), 1, None, None, 0);
    assert!(matches!(r, Err(LedgerError::Validation)));
    let r = ledger.create_item(text("A"), text("dry"), 1, text("kg"), -1, None, None, 0);
    assert!(matches!(r, Err(LedgerError::Validation)));
    assert_eq!(ledger.items().len(), 0);
    assert_eq!(ledger.transactions().len(), 0);
}

#[test]
fn restock_moves_unit_cost_to_weighted_average() {
    let mut ledger = ledger_with_item_a();
    let id = ledger
        .record_transaction(1, StockChange::In { total_cost: 12_500_000 }, 5, 200, None)
        .unwrap();
    assert_eq!(id, 2);
    let item = ledger.get_item(1).unwrap();
    assert_eq!(item.quantity, 15);
    assert_eq!(item.cost, 32_500_000);
    // (10 * 2.0 + 12.5) / 15 = 2.1666..., which reads 2.1667 at four places.
    assert_eq!(item.cost_per_unit, 2_166_666);
    assert_eq!((item.cost_per_unit + 50) / 100, 21_667);
    assert_eq!(ledger.transactions().len(), 2);
    assert_eq!(ledger.transactions()[1].transaction_type, TransactionType::In);
    assert_eq!(ledger.transactions()[1].change_quantity, 5);
    assert_eq!(ledger.transactions()[1].transaction_date, 200);
}

#[test]
fn issue_lowers_quantity_and_keeps_unit_cost() {
    let mut ledger = ledger_with_item_a();
    let id = ledger
        .record_transaction(1, StockChange::Out, 4, 300, Some(text("kitchen")))
        .unwrap();
    assert_eq!(id, 2);
    let item = ledger.get_item(1).unwrap();
    assert_eq!(item.quantity, 6);
    assert_eq!(item.cost, 20_000_000);
    assert_eq!(item.cost_per_unit, 2_000_000);
    assert_eq!(ledger.transactions()[1].transaction_type, TransactionType::Out);
    assert_eq!(ledger.transactions()[1].change_quantity, 4);
    assert_eq!(ledger.transactions()[1].notes.as_deref(), Some("kitchen"));
}

#[test]
fn issue_of_everything_on_hand_is_accepted() {
    let mut ledger = ledger_with_item_a();
    ledger.record_transaction(1, StockChange::Out, 10, 300, None).unwrap();
    assert_eq!(ledger.get_item(1).unwrap().quantity, 0);
    assert_eq!(signed_sum(&ledger, 1), 0);
}

#[test]
fn issue_beyond_stock_is_rejected_and_changes_nothing() {
    let mut ledger = ledger_with_item_a();
    let r = ledger.record_transaction(1, StockChange::Out, 11, 300, None);
    match r {
        Err(LedgerError::InsufficientStock(short)) => {
            assert_eq!(short.len(), 1);
            assert_eq!(short[0].item_id, 1);
            assert_eq!(short[0].required, 11);
            assert_eq!(short[0].available, 10);
        }
        other => panic!("unexpected outcome: {:?}", other),
    }
    assert_eq!(ledger.get_item(1).unwrap().quantity, 10);
    assert_eq!(ledger.transactions().len(), 1);
}

#[test]
fn movement_of_unknown_item_is_not_found() {
    let mut ledger = ledger_with_item_a();
    let r = ledger.record_transaction(2, StockChange::Out, 1, 300, None);
    assert!(matches!(r, Err(LedgerError::NotFound)));
    let r = ledger.record_transaction(0, StockChange::In { total_cost: 1 }, 1, 300, None);
    assert!(matches!(r, Err(LedgerError::NotFound)));
    assert_eq!(ledger.transactions().len(), 1);
}

#[test]
fn movement_with_negative_numbers_is_invalid() {
    let mut ledger = ledger_with_item_a();
    let r = ledger.record_transaction(1, StockChange::Out, -1, 300, None);
    assert!(matches!(r, Err(LedgerError::Validation)));
    let r = ledger.record_transaction(1, StockChange::In { total_cost: -1 }, 1, 300, None);
    assert!(matches!(r, Err(LedgerError::Validation)));
    // Malformed input is refused before the item is looked up.
    let r = ledger.record_transaction(9, StockChange::Out, -1, 300, None);
    assert!(matches!(r, Err(LedgerError::Validation)));
    assert_eq!(ledger.get_item(1).unwrap().quantity, 10);
}

#[test]
fn restock_beyond_the_column_range_is_a_storage_error() {
    let mut ledger = ledger_with_item_a();
    let r = ledger.record_transaction(1, StockChange::In { total_cost: 0 }, i64::MAX, 300, None);
    assert!(matches!(r, Err(LedgerError::Storage)));
    let r = ledger.record_transaction(1, StockChange::In { total_cost: i64::MAX }, 1, 300, None);
    assert!(matches!(r, Err(LedgerError::Storage)));
    let item = ledger.get_item(1).unwrap();
    assert_eq!(item.quantity, 10);
    assert_eq!(item.cost, 20_000_000);
    assert_eq!(item.cost_per_unit, 2_000_000);
    assert_eq!(ledger.transactions().len(), 1);
}

#[test]
fn empty_restock_of_empty_stock_keeps_unit_cost() {
    let mut ledger = ledger_with_item_a();
    ledger.record_transaction(1, StockChange::Out, 10, 300, None).unwrap();
    ledger.record_transaction(1, StockChange::In { total_cost: 0 }, 0, 301, None).unwrap();
    let item = ledger.get_item(1).unwrap();
    assert_eq!(item.quantity, 0);
    assert_eq!(item.cost, 0);
    assert_eq!(item.cost_per_unit, 2_000_000);
}

#[test]
fn quantity_is_the_signed_sum_of_transactions() {
    let mut ledger = ledger_with_item_a();
    ledger.create_item(text("Item B"), text("wet"), 3, text("l"), 9, None, None, 100).unwrap();
    assert_eq!(ledger.get_item(1).unwrap().quantity, signed_sum(&ledger, 1));
    ledger.record_transaction(1, StockChange::Out, 4, 1, None).unwrap();
    assert_eq!(ledger.get_item(1).unwrap().quantity, signed_sum(&ledger, 1));
    ledger.record_transaction(2, StockChange::In { total_cost: 30 }, 7, 2, None).unwrap();
    assert_eq!(ledger.get_item(2).unwrap().quantity, signed_sum(&ledger, 2));
    let _ = ledger.record_transaction(1, StockChange::Out, 100, 3, None);
    ledger.record_transaction(1, StockChange::In { total_cost: 5 }, 1, 4, None).unwrap();
    assert_eq!(ledger.get_item(1).unwrap().quantity, 7);
    assert_eq!(signed_sum(&ledger, 1), 7);
    assert_eq!(ledger.get_item(2).unwrap().quantity, 10);
    assert_eq!(signed_sum(&ledger, 2), 10);
}

#[test]
fn update_item_edits_description_only() {
    let mut ledger = ledger_with_item_a();
    ledger
        .update_item(1, text("Flour"), text("baking"), text("g"), Some(5), Some(text("cellar")))
        .unwrap();
    let item = ledger.get_item(1).unwrap();
    assert_eq!(item.name, "Flour");
    assert_eq!(item.category, "baking");
    assert_eq!(item.unit, "g");
    assert_eq!(item.expiration_date, Some(5));
    assert_eq!(item.location.as_deref(), Some("cellar"));
    assert_eq!(item.quantity, 10);
    assert_eq!(item.cost, 20_000_000);
    assert_eq!(item.cost_per_unit, 2_000_000);
    assert_eq!(item.id, 1);
}

#[test]
fn update_item_reports_missing_item_and_empty_name() {
    let mut ledger = ledger_with_item_a();
    let r = ledger.update_item(2, text("Flour"), text("baking"), text("g"), None, None);
    assert!(matches!(r, Err(LedgerError::NotFound)));
    let r = ledger.update_item(1, text(""), text("baking"), text("g"), None, None);
    assert!(matches!(r, Err(LedgerError::Validation)));
    assert_eq!(ledger.get_item(1).unwrap().name, "Item A");
}

#[test]
fn get_item_of_unknown_id_is_none() {
    let ledger = ledger_with_item_a();
    assert!(ledger.get_item(0).is_none());
    assert!(ledger.get_item(2).is_none());
    assert!(ledger.get_item(u64::MAX).is_none());
}

#[test]
fn list_items_filters_by_category_and_location() {
    let mut ledger = Ledger::new();
    ledger.create_item(text("A"), text("dry"), 1, text("kg"), 1, None, Some(text("x")), 0).unwrap();
    ledger.create_item(text("B"), text("wet"), 1, text("kg"), 1, None, Some(text("x")), 0).unwrap();
    ledger.create_item(text("C"), text("dry"), 1, text("kg"), 1, None, None, 0).unwrap();
    ledger.create_item(text("D"), text("dry"), 1, text("kg"), 1, None, Some(text("y")), 0).unwrap();
    let all = ledger.list_items(&None, &None);
    assert_eq!(all.iter().map(|i| i.id).collect::<Vec<u64>>(), vec![1, 2, 3, 4]);
    let dry = ledger.list_items(&Some(text("dry")), &None);
    assert_eq!(dry.iter().map(|i| i.id).collect::<Vec<u64>>(), vec![1, 3, 4]);
    let at_x = ledger.list_items(&None, &Some(text("x")));
    assert_eq!(at_x.iter().map(|i| i.id).collect::<Vec<u64>>(), vec![1, 2]);
    let dry_at_x = ledger.list_items(&Some(text("dry")), &Some(text("x")));
    assert_eq!(dry_at_x.iter().map(|i| i.id).collect::<Vec<u64>>(), vec![1]);
    let none = ledger.list_items(&Some(text("frozen")), &None);
    assert!(none.is_empty());
}
