use inventory_ledger::ledger::Ledger;
use inventory_ledger::model::{OrderLine, RecordType};

fn label(s: &str) -> String {
    s.to_string()
}

fn books() -> Ledger {
    let mut ledger = Ledger::new();
    ledger.record_manual_entry(RecordType::Income, 700, 10, Some(label("catering"))).unwrap();
    ledger.record_manual_entry(RecordType::Expense, 250, 20, Some(label("rent"))).unwrap();
    ledger.record_manual_entry(RecordType::Expense, 100, 30, None).unwrap();
    ledger.record_manual_entry(RecordType::Income, 50, 40, None).unwrap();
    ledger
}

#[test]
fn manual_entry_names_no_recipe() {
    let mut ledger = Ledger::new();
    let id = ledger.record_manual_entry(RecordType::Expense, 250, 20, Some(label("rent"))).unwrap();
    assert_eq!(id, 1);
    assert_eq!(ledger.records().len(), 1);
    let record = &ledger.records()[0];
    assert_eq!(record.id, 1);
    assert_eq!(record.record_type, RecordType::Expense);
    assert_eq!(record.amount, 250);
    assert_eq!(record.record_date, 20);
    assert_eq!(record.description.as_deref(), Some("rent"));
    assert_eq!(record.recipe_id, None);
    assert_eq!(record.quantity, None);
    let next = ledger.record_manual_entry(RecordType::Income, 1, 21, None).unwrap();
    assert_eq!(next, 2);
}

#[test]
fn summary_totals_income_expense_and_net() {
    let ledger = books();
    let all = ledger.summary(i64::MIN, i64::MAX);
    assert_eq!((all.income, all.expense, all.net), (750, 350, 400));
}

#[test]
fn summary_range_includes_both_ends() {
    let ledger = books();
    let mid = ledger.summary(20, 30);
    assert_eq!((mid.income, mid.expense, mid.net), (0, 350, -350));
    let first = ledger.summary(10, 10);
    assert_eq!((first.income, first.expense, first.net), (700, 0, 700));
    let none = ledger.summary(11, 19);
    assert_eq!((none.income, none.expense, none.net), (0, 0, 0));
    let reversed = ledger.summary(40, 10);
    assert_eq!((reversed.income, reversed.expense, reversed.net), (0, 0, 0));
}

#[test]
fn summary_holds_totals_beyond_sixty_four_bits() {
    let mut ledger = Ledger::new();
    ledger.record_manual_entry(RecordType::Income, i64::MAX, 1, None).unwrap();
    ledger.record_manual_entry(RecordType::Income, i64::MAX, 1, None).unwrap();
    ledger.record_manual_entry(RecordType::Expense, i64::MIN, 1, None).unwrap();
    let s = ledger.summary(1, 1);
    assert_eq!(s.income, 2 * (i64::MAX as i128));
    assert_eq!(s.expense, i64::MIN as i128);
    assert_eq!(s.net, 2 * (i64::MAX as i128) - (i64::MIN as i128));
}

#[test]
fn summary_counts_the_income_of_orders() {
    let mut ledger = books();
    ledger.create_recipe(label("Tea"), None, 30, None).unwrap();
    ledger.place_order(25, None, &vec![OrderLine { recipe_id: 1, quantity: 2 }]).unwrap();
    let s = ledger.summary(20, 30);
    assert_eq!((s.income, s.expense, s.net), (60, 350, -290));
}

#[test]
fn list_records_filters_by_range_and_type() {
    let ledger = books();
    let all = ledger.list_records(i64::MIN, i64::MAX, None);
    assert_eq!(all.iter().map(|r| r.id).collect::<Vec<u64>>(), vec![1, 2, 3, 4]);
    let expenses = ledger.list_records(i64::MIN, i64::MAX, Some(RecordType::Expense));
    assert_eq!(expenses.iter().map(|r| r.id).collect::<Vec<u64>>(), vec![2, 3]);
    let incomes = ledger.list_records(20, 40, Some(RecordType::Income));
    assert_eq!(incomes.iter().map(|r| r.id).collect::<Vec<u64>>(), vec![4]);
    let mid = ledger.list_records(20, 30, None);
    assert_eq!(mid.iter().map(|r| r.id).collect::<Vec<u64>>(), vec![2, 3]);
    assert!(ledger.list_records(41, 50, None).is_empty());
}
