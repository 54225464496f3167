use inventory_ledger::ledger::Ledger;
use inventory_ledger::model::{LedgerError, OrderLine, RecordType, StockChange, TransactionType};
use inventory_ledger::orders::single_recipe_of;

fn name(s: &str) -> String {
    s.to_string()
}

/// Item A with `on_hand` units at unit cost 2.166666; recipe R takes 2 of A
/// and sells at 10.
fn shop(on_hand: i64) -> Ledger {
    let mut ledger = Ledger::new();
    ledger
        .create_item(name("Item A"), name("dry"), 10, name("kg"), 20_000_000, None, None, 1)
        .unwrap();
    ledger.record_transaction(1, StockChange::In { total_cost: 12_500_000 }, 5, 2, None).unwrap();
    ledger.record_transaction(1, StockChange::Out, 15 - on_hand, 3, None).unwrap();
    ledger.create_recipe(name("Recipe R"), None, 10_000_000, None).unwrap();
    ledger.add_ingredient(1, 1, 2, name("kg")).unwrap();
    ledger
}

fn net_quantity(ledger: &Ledger, item_id: u64) -> i64 {
    let mut sum: i64 = 0;
    for t in ledger.transactions().iter() {
        if t.item_id == item_id {
            match t.transaction_type {
                TransactionType::In => sum += t.change_quantity,
                TransactionType::Out => sum -= t.change_quantity,
            }
        }
    }
    sum
}

#[test]
fn order_short_of_stock_fails_and_changes_nothing() {
    let mut ledger = shop(5);
    let transactions_before: usize = ledger.transactions().len();
    let lines = vec![OrderLine { recipe_id: 1, quantity: 3 }];
    match ledger.place_order(10, None, &lines) {
        Err(LedgerError::InsufficientStock(short)) => {
            assert_eq!(short.len(), 1);
            assert_eq!(short[0].item_id, 1);
            assert_eq!(short[0].required, 6);
            assert_eq!(short[0].available, 5);
        }
        other => panic!("unexpected outcome: {:?}", other),
    }
    assert_eq!(ledger.get_item(1).unwrap().quantity, 5);
    assert_eq!(ledger.orders().len(), 0);
    assert_eq!(ledger.order_items().len(), 0);
    assert_eq!(ledger.records().len(), 0);
    assert_eq!(ledger.transactions().len(), transactions_before);
}

#[test]
fn order_with_stock_depletes_and_posts_income() {
    let mut ledger = shop(15);
    let transactions_before: usize = ledger.transactions().len();
    let lines = vec![OrderLine { recipe_id: 1, quantity: 1 }];
    let id = ledger.place_order(10, Some(name("table 4")), &lines).unwrap();
    assert_eq!(id, 1);
    assert_eq!(ledger.get_item(1).unwrap().quantity, 13);
    assert_eq!(ledger.orders().len(), 1);
    assert_eq!(ledger.orders()[0].id, 1);
    assert_eq!(ledger.orders()[0].order_date, 10);
    assert_eq!(ledger.orders()[0].total_amount, 10_000_000);
    assert_eq!(ledger.orders()[0].customer_info.as_deref(), Some("table 4"));
    assert!(ledger.orders()[0].notes.is_none());
    assert_eq!(ledger.order_items().len(), 1);
    assert_eq!(ledger.order_items()[0].id, 1);
    assert_eq!(ledger.order_items()[0].order_id, 1);
    assert_eq!(ledger.order_items()[0].recipe_id, 1);
    assert_eq!(ledger.order_items()[0].quantity, 1);
    assert_eq!(ledger.order_items()[0].price, 10_000_000);
    assert_eq!(ledger.records().len(), 1);
    assert_eq!(ledger.records()[0].id, 1);
    assert_eq!(ledger.records()[0].record_type, RecordType::Income);
    assert_eq!(ledger.records()[0].amount, 10_000_000);
    assert_eq!(ledger.records()[0].record_date, 10);
    assert_eq!(ledger.records()[0].recipe_id, Some(1));
    assert_eq!(ledger.records()[0].quantity, Some(1));
    assert_eq!(ledger.transactions().len(), transactions_before + 1);
    let movement = ledger.transactions().last().unwrap();
    assert_eq!(movement.item_id, 1);
    assert_eq!(movement.transaction_type, TransactionType::Out);
    assert_eq!(movement.change_quantity, 2);
    assert_eq!(movement.transaction_date, 10);
    assert_eq!(movement.notes.as_deref(), Some("order #1"));
}

#[test]
fn order_that_takes_exactly_what_is_on_hand_is_placed() {
    let mut ledger = shop(6);
    let lines = vec![OrderLine { recipe_id: 1, quantity: 3 }];
    ledger.place_order(10, None, &lines).unwrap();
    assert_eq!(ledger.get_item(1).unwrap().quantity, 0);
    assert_eq!(ledger.orders()[0].total_amount, 30_000_000);
    assert_eq!(ledger.records()[0].amount, 30_000_000);
    assert_eq!(ledger.records()[0].quantity, Some(3));
}

#[test]
fn needs_are_added_up_across_lines_before_anything_is_written() {
    let mut ledger = shop(5);
    // Each line alone is covered; together they take 6 of the 5 on hand.
    let lines =
        vec![OrderLine { recipe_id: 1, quantity: 2 }, OrderLine { recipe_id: 1, quantity: 1 }];
    match ledger.place_order(10, None, &lines) {
        Err(LedgerError::InsufficientStock(short)) => {
            assert_eq!(short.len(), 1);
            assert_eq!(short[0].required, 6);
            assert_eq!(short[0].available, 5);
        }
        other => panic!("unexpected outcome: {:?}", other),
    }
    assert_eq!(ledger.get_item(1).unwrap().quantity, 5);
    assert_eq!(ledger.orders().len(), 0);
    assert_eq!(ledger.records().len(), 0);
}

#[test]
fn order_of_several_recipes_names_no_recipe_in_the_ledger() {
    let mut ledger = shop(15);
    ledger.create_item(name("Item B"), name("wet"), 9, name("l"), 18, None, None, 1).unwrap();
    ledger.create_item(name("Item C"), name("wet"), 9, name("l"), 18, None, None, 1).unwrap();
    ledger.create_recipe(name("Recipe S"), None, 500, None).unwrap();
    ledger.add_ingredient(2, 3, 4, name("l")).unwrap();
    ledger.add_ingredient(2, 1, 1, name("kg")).unwrap();
    let transactions_before: usize = ledger.transactions().len();
    let lines = vec![
        OrderLine { recipe_id: 1, quantity: 2 },
        OrderLine { recipe_id: 2, quantity: 2 },
        OrderLine { recipe_id: 1, quantity: 1 },
    ];
    let id = ledger.place_order(20, None, &lines).unwrap();
    assert_eq!(id, 1);
    // A: 3 portions of R take 6, 2 portions of S take 2.
    assert_eq!(ledger.get_item(1).unwrap().quantity, 7);
    assert_eq!(ledger.get_item(2).unwrap().quantity, 9);
    assert_eq!(ledger.get_item(3).unwrap().quantity, 1);
    assert_eq!(ledger.orders()[0].total_amount, 30_001_000);
    assert_eq!(ledger.order_items().len(), 3);
    assert_eq!(ledger.order_items()[1].id, 2);
    assert_eq!(ledger.order_items()[1].price, 500);
    assert_eq!(ledger.order_items()[2].quantity, 1);
    assert_eq!(ledger.records().len(), 1);
    assert_eq!(ledger.records()[0].recipe_id, None);
    assert_eq!(ledger.records()[0].quantity, Some(5));
    assert_eq!(ledger.records()[0].amount, 30_001_000);
    // One movement for each item used, in id order; none for item B.
    assert_eq!(ledger.transactions().len(), transactions_before + 2);
    let first = &ledger.transactions()[transactions_before];
    let second = &ledger.transactions()[transactions_before + 1];
    assert_eq!((first.item_id, first.change_quantity), (1, 8));
    assert_eq!((second.item_id, second.change_quantity), (3, 8));
    assert_eq!(first.id + 1, second.id);
    assert_eq!(net_quantity(&ledger, 1), 7);
    assert_eq!(net_quantity(&ledger, 2), 9);
    assert_eq!(net_quantity(&ledger, 3), 1);
}

#[test]
fn every_short_item_is_listed_in_id_order() {
    let mut ledger = shop(1);
    ledger.create_item(name("Item B"), name("wet"), 9, name("l"), 18, None, None, 1).unwrap();
    ledger.create_item(name("Item C"), name("wet"), 2, name("l"), 18, None, None, 1).unwrap();
    ledger.add_ingredient(1, 3, 1, name("l")).unwrap();
    ledger.add_ingredient(1, 2, 1, name("l")).unwrap();
    let lines = vec![OrderLine { recipe_id: 1, quantity: 3 }];
    match ledger.place_order(10, None, &lines) {
        Err(LedgerError::InsufficientStock(short)) => {
            assert_eq!(short.len(), 2);
            assert_eq!((short[0].item_id, short[0].required, short[0].available), (1, 6, 1));
            assert_eq!((short[1].item_id, short[1].required, short[1].available), (3, 3, 2));
        }
        other => panic!("unexpected outcome: {:?}", other),
    }
    assert_eq!(ledger.get_item(2).unwrap().quantity, 9);
}

#[test]
fn order_lines_are_checked_before_recipes_are_looked_up() {
    let mut ledger = shop(15);
    let zero = vec![OrderLine { recipe_id: 1, quantity: 0 }];
    assert!(matches!(ledger.place_order(1, None, &zero), Err(LedgerError::Validation)));
    let negative = vec![OrderLine { recipe_id: 1, quantity: -1 }];
    assert!(matches!(ledger.place_order(1, None, &negative), Err(LedgerError::Validation)));
    let unknown = vec![OrderLine { recipe_id: 2, quantity: 1 }];
    assert!(matches!(ledger.place_order(1, None, &unknown), Err(LedgerError::NotFound)));
    let both =
        vec![OrderLine { recipe_id: 9, quantity: 1 }, OrderLine { recipe_id: 1, quantity: 0 }];
    assert!(matches!(ledger.place_order(1, None, &both), Err(LedgerError::Validation)));
    assert!(matches!(ledger.check_lines(&both), Err(LedgerError::Validation)));
    assert!(matches!(ledger.check_lines(&unknown), Err(LedgerError::NotFound)));
    assert!(ledger.check_lines(&vec![OrderLine { recipe_id: 1, quantity: 1 }]).is_ok());
    assert_eq!(ledger.orders().len(), 0);
    assert_eq!(ledger.get_item(1).unwrap().quantity, 15);
}

#[test]
fn order_whose_total_does_not_fit_is_a_storage_error() {
    let mut ledger = shop(15);
    ledger.create_recipe(name("Palace"), None, i64::MAX, None).unwrap();
    let lines = vec![OrderLine { recipe_id: 2, quantity: 2 }];
    assert!(matches!(ledger.place_order(1, None, &lines), Err(LedgerError::Storage)));
    let many =
        vec![OrderLine { recipe_id: 1, quantity: i64::MAX }, OrderLine { recipe_id: 1, quantity: 1 }];
    assert!(matches!(ledger.place_order(1, None, &many), Err(LedgerError::Storage)));
    assert_eq!(ledger.orders().len(), 0);
    assert_eq!(ledger.records().len(), 0);
    assert_eq!(ledger.get_item(1).unwrap().quantity, 15);
}

#[test]
fn order_without_lines_posts_an_empty_income() {
    let mut ledger = shop(15);
    let lines: Vec<OrderLine> = Vec::new();
    let id = ledger.place_order(10, None, &lines).unwrap();
    assert_eq!(id, 1);
    assert_eq!(ledger.orders()[0].total_amount, 0);
    assert_eq!(ledger.order_items().len(), 0);
    assert_eq!(ledger.records().len(), 1);
    assert_eq!(ledger.records()[0].amount, 0);
    assert_eq!(ledger.records()[0].recipe_id, None);
    assert_eq!(ledger.records()[0].quantity, Some(0));
    assert_eq!(ledger.get_item(1).unwrap().quantity, 15);
}

#[test]
fn each_order_posts_one_income_of_its_total() {
    let mut ledger = shop(15);
    let one = vec![OrderLine { recipe_id: 1, quantity: 1 }];
    let two = vec![OrderLine { recipe_id: 1, quantity: 2 }];
    ledger.place_order(1, None, &one).unwrap();
    ledger.place_order(2, None, &two).unwrap();
    let _ = ledger.place_order(3, None, &vec![OrderLine { recipe_id: 1, quantity: 100 }]);
    ledger.place_order(4, None, &one).unwrap();
    assert_eq!(ledger.orders().len(), 3);
    assert_eq!(ledger.records().len(), 3);
    for k in 0..3usize {
        assert_eq!(ledger.records()[k].record_type, RecordType::Income);
        assert_eq!(ledger.records()[k].amount, ledger.orders()[k].total_amount);
        assert_eq!(ledger.records()[k].record_date, ledger.orders()[k].order_date);
        let order_id: u64 = ledger.orders()[k].id;
        let mut sum: i64 = 0;
        for line in ledger.order_items().iter() {
            if line.order_id == order_id {
                sum += line.price * line.quantity;
            }
        }
        assert_eq!(ledger.orders()[k].total_amount, sum);
    }
    assert_eq!(ledger.get_item(1).unwrap().quantity, 7);
    assert_eq!(net_quantity(&ledger, 1), 7);
}

#[test]
fn movements_carry_the_number_of_their_order() {
    let mut ledger = shop(15);
    ledger.record_transaction(1, StockChange::In { total_cost: 0 }, 100, 4, None).unwrap();
    let one = vec![OrderLine { recipe_id: 1, quantity: 1 }];
    for _ in 0..12 {
        ledger.place_order(5, None, &one).unwrap();
    }
    let notes: Vec<&str> = ledger
        .transactions()
        .iter()
        .filter(|t| t.transaction_date == 5)
        .map(|t| t.notes.as_deref().unwrap())
        .collect();
    assert_eq!(notes.len(), 12);
    assert_eq!(notes[0], "order #1");
    assert_eq!(notes[8], "order #9");
    assert_eq!(notes[9], "order #10");
    assert_eq!(notes[11], "order #12");
}

#[test]
fn single_recipe_is_named_only_when_all_lines_agree() {
    let same =
        vec![OrderLine { recipe_id: 4, quantity: 2 }, OrderLine { recipe_id: 4, quantity: 5 }];
    assert_eq!(single_recipe_of(&same), Some(4));
    let mixed =
        vec![OrderLine { recipe_id: 4, quantity: 2 }, OrderLine { recipe_id: 5, quantity: 5 }];
    assert_eq!(single_recipe_of(&mixed), None);
    assert_eq!(single_recipe_of(&Vec::new()), None);
    assert_eq!(single_recipe_of(&vec![OrderLine { recipe_id: 9, quantity: 1 }]), Some(9));
}
