//! The financial ledger: an append-only list of income and expense entries.
//!
//! Orders post their income here; anything else is entered by hand. An
//! entry is never edited: a correction is a new entry that offsets it.

use vstd::prelude::*;
use crate::ledger::{has_room, next_row_id, record_ok, Ledger, LedgerView};
use crate::model::{FinancialRecord, LedgerError, RecordType, Summary};
use crate::money::{lemma_total_take_ends, lemma_total_take_next, total};

verus! {

/// Whether `date` lies in the range from `from` to `to`, both included.
pub open spec fn in_range(date: i64, from: i64, to: i64) -> bool {
    from <= date <= to
}

/// Whether a record passes a filter: it is dated within the range and,
/// where a type is asked for, is of that type.
pub open spec fn record_matches(
    record: FinancialRecord,
    from: i64,
    to: i64,
    record_type: Option<RecordType>,
) -> bool {
    &&& in_range(record.record_date, from, to)
    &&& record_type matches Some(t) ==> record.record_type == t
}

/// For each record, what it adds to the total of type `record_type` over
/// the range.
pub open spec fn ledger_terms(
    records: Seq<FinancialRecord>,
    from: i64,
    to: i64,
    record_type: RecordType,
) -> Seq<int> {
    Seq::new(
        records.len(),
        |i: int|
            if record_matches(records[i], from, to, Some(record_type)) {
                records[i].amount as int
            } else {
                0
            },
    )
}

/// The sum of the amounts of the records of type `record_type` dated
/// within the range.
pub open spec fn ledger_total(
    records: Seq<FinancialRecord>,
    from: i64,
    to: i64,
    record_type: RecordType,
) -> int {
    total(ledger_terms(records, from, to, record_type))
}

impl LedgerView {
    /// The row of an entry made by hand: it names no recipe and no
    /// quantity.
    pub open spec fn manual_row(
        self,
        record_type: RecordType,
        amount: i64,
        record_date: i64,
        description: Option<String>,
    ) -> FinancialRecord {
        FinancialRecord {
            id: (self.records.len() + 1) as u64,
            record_type,
            amount,
            record_date,
            description,
            recipe_id: None,
            quantity: None,
        }
    }

    /// The records among the first `n` that pass a filter, in id order.
    pub open spec fn listed_records_among(
        self,
        from: i64,
        to: i64,
        record_type: Option<RecordType>,
        n: int,
    ) -> Seq<FinancialRecord>
        decreases n,
    {
        if n <= 0 {
            Seq::empty()
        } else {
            let before = self.listed_records_among(from, to, record_type, n - 1);
            if record_matches(self.records[n - 1], from, to, record_type) {
                before.push(self.records[n - 1])
            } else {
                before
            }
        }
    }

    /// The records that pass a filter, in id order.
    pub open spec fn listed_records(
        self,
        from: i64,
        to: i64,
        record_type: Option<RecordType>,
    ) -> Seq<FinancialRecord> {
        self.listed_records_among(from, to, record_type, self.records.len() as int)
    }

    /// Income, expense and their difference over the range.
    pub open spec fn summary(self, from: i64, to: i64) -> Summary {
        let income = ledger_total(self.records, from, to, RecordType::Income);
        let expense = ledger_total(self.records, from, to, RecordType::Expense);
        Summary { income: income as i128, expense: expense as i128, net: (income - expense) as i128 }
    }
}

impl Ledger {
    /// Enters an income or an expense by hand and returns the entry's id.
    pub fn record_manual_entry(
        &mut self,
        record_type: RecordType,
        amount: i64,
        record_date: i64,
        description: Option<String>,
    ) -> (result: Result<u64, LedgerError>)
        requires
            old(self).wf(),
        ensures
            final(self).wf(),
            result is Err ==> final(self)@ == old(self)@,
            !has_room(old(self)@.records.len()) ==> result matches Err(LedgerError::Storage),
            has_room(old(self)@.records.len()) ==> {
                &&& result == Ok::<u64, LedgerError>((old(self)@.records.len() + 1) as u64)
                &&& final(self)@ == (LedgerView {
                    records: old(self)@.records.push(
                        old(self)@.manual_row(record_type, amount, record_date, description),
                    ),
                    ..old(self)@
                })
            },
    {
        let id: u64 = match next_row_id(self.records.len()) {
            None => {
                return Err(LedgerError::Storage);
            },
            Some(id) => id,
        };
        let ghost before = self@;
        self.records.push(
            FinancialRecord {
                id,
                record_type,
                amount,
                record_date,
                description,
                recipe_id: None,
                quantity: None,
            },
        );
        proof {
            let after = self@;
            assert(after.rows_ok()) by {
                assert forall|i: int| 0 <= i < after.records.len() implies record_ok(
                    #[trigger] after.records[i],
                    i,
                    after.recipes.len(),
                ) by {
                    if i < before.records.len() {
                        assert(record_ok(before.records[i], i, before.recipes.len()));
                    }
                }
            }
        }
        Ok(id)
    }

    /// The entries dated from `from` to `to`, both included; of one type
    /// where a type is asked for.
    pub fn list_records(&self, from: i64, to: i64, record_type: Option<RecordType>) -> (records: Vec<
        &FinancialRecord,
    >)
        ensures
            records@.len() == self@.listed_records(from, to, record_type).len(),
            forall|k: int|
                0 <= k < records@.len() ==> *(#[trigger] records@[k]) == self@.listed_records(
                    from,
                    to,
                    record_type,
                )[k],
    {
        let mut records: Vec<&FinancialRecord> = Vec::new();
        let mut i: usize = 0;
        while i < self.records.len()
            invariant
                i <= self.records.len(),
                records@.len() == self@.listed_records_among(from, to, record_type, i as int).len(),
                forall|k: int|
                    0 <= k < records@.len() ==> *(#[trigger] records@[k])
                        == self@.listed_records_among(from, to, record_type, i as int)[k],
            decreases self.records.len() - i,
        {
            let record: &FinancialRecord = &self.records[i];
            let type_ok: bool = match record_type {
                None => true,
                Some(RecordType::Income) => match record.record_type {
                    RecordType::Income => true,
                    RecordType::Expense => false,
                },
                Some(RecordType::Expense) => match record.record_type {
                    RecordType::Income => false,
                    RecordType::Expense => true,
                },
            };
            if from <= record.record_date && record.record_date <= to && type_ok {
                records.push(record);
            }
            i += 1;
        }
        records
    }

    /// Totals of income and expense over the entries dated from `from` to
    /// `to`, both included, and their difference.
    pub fn summary(&self, from: i64, to: i64) -> (totals: Summary)
        ensures
            totals == self@.summary(from, to),
            totals.income == ledger_total(self@.records, from, to, RecordType::Income),
            totals.expense == ledger_total(self@.records, from, to, RecordType::Expense),
            totals.net == totals.income - totals.expense,
    {
        let ghost incomes = ledger_terms(self@.records, from, to, RecordType::Income);
        let ghost expenses = ledger_terms(self@.records, from, to, RecordType::Expense);
        proof {
            lemma_total_take_ends(incomes);
            lemma_total_take_ends(expenses);
        }
        let mut income: i128 = 0;
        let mut expense: i128 = 0;
        let ghost mut income_rows: int = 0;
        let ghost mut expense_rows: int = 0;
        let mut i: usize = 0;
        while i < self.records.len()
            invariant
                i <= self.records.len(),
                incomes == ledger_terms(self@.records, from, to, RecordType::Income),
                expenses == ledger_terms(self@.records, from, to, RecordType::Expense),
                income == total(incomes.take(i as int)),
                expense == total(expenses.take(i as int)),
                0 <= income_rows,
                0 <= expense_rows,
                income_rows + expense_rows <= i,
                -income_rows * 0x8000_0000_0000_0000 <= income <= income_rows
                    * 0x8000_0000_0000_0000,
                -expense_rows * 0x8000_0000_0000_0000 <= expense <= expense_rows
                    * 0x8000_0000_0000_0000,
            decreases self.records.len() - i,
        {
            proof {
                lemma_total_take_next(incomes, i as int);
                lemma_total_take_next(expenses, i as int);
            }
            let record: &FinancialRecord = &self.records[i];
            if from <= record.record_date && record.record_date <= to {
                match record.record_type {
                    RecordType::Income => {
                        income = income + record.amount as i128;
                        proof {
                            income_rows = income_rows + 1;
                        }
                    },
                    RecordType::Expense => {
                        expense = expense + record.amount as i128;
                        proof {
                            expense_rows = expense_rows + 1;
                        }
                    },
                }
            }
            i += 1;
        }
        Summary { income, expense, net: income - expense }
    }
}

} // verus!
