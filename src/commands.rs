//! The ledger operations as callers invoke them: dates arrive as
//! "YYYY-MM-DD" text and are read before the store is touched.

use vstd::prelude::*;

use crate::date::{iso_date_fields, parse_with_chrono, CalendarDate};
use crate::ledger::{
    customer_views, is_debtor_list, is_statement, text_view, views_of, AnnotatedEntry, Customer,
    LedgerError, LedgerStore,
};

verus! {

/// The date whose year, month and day are `f`.
pub open spec fn date_of(f: (int, int, int)) -> CalendarDate {
    CalendarDate { year: f.0 as i32, month: f.1 as u32, day: f.2 as u32 }
}

pub open spec fn opt_view(t: Option<&str>) -> Option<Seq<char>> {
    match t {
        Some(s) => Some(s@),
        None => None,
    }
}

/// Records a transaction for `customer_id` dated `transaction_date`
/// ("YYYY-MM-DD") and returns its ledger id. A text that names no date is
/// refused with `Validation` before anything else; otherwise this is
/// `LedgerStore::append` on the date it names.
pub fn create_ledger_entry(
    store: &mut LedgerStore,
    customer_id: &str,
    transaction_date: &str,
    transaction_type: &str,
    amount: i32,
    description: Option<String>,
) -> (r: Result<i32, LedgerError>)
    requires
        old(store).wf(),
    ensures
        final(store).wf(),
        match iso_date_fields(transaction_date@) {
            None => r == Err::<i32, LedgerError>(LedgerError::Validation) && final(store)@ == old(
                store,
            )@,
            Some(f) => {
                &&& old(store)@.can_append(customer_id@) ==> r == Ok::<i32, LedgerError>(
                    old(store)@.next_id as i32,
                ) && final(store)@ == old(store)@.appended(
                    customer_id@,
                    date_of(f),
                    transaction_type@,
                    amount as int,
                    text_view(description),
                )
                &&& !old(store)@.can_append(customer_id@) ==> r == Err::<i32, LedgerError>(
                    LedgerError::Storage,
                ) && final(store)@ == old(store)@
            },
        },
{
    match parse_with_chrono(transaction_date) {
        None => Err(LedgerError::Validation),
        Some(date) => store.append(customer_id, date, transaction_type, amount, description),
    }
}

/// Amends entry `ledger_id`. An unknown ledger id is refused with
/// `NotFound`, then a text that names no date with `Validation`; otherwise
/// this is `LedgerStore::amend` on the date it names.
pub fn update_ledger_entry(
    store: &mut LedgerStore,
    ledger_id: i32,
    transaction_date: &str,
    transaction_type: &str,
    amount: i32,
    description: Option<String>,
) -> (r: Result<(), LedgerError>)
    requires
        old(store).wf(),
    ensures
        final(store).wf(),
        !old(store)@.has_entry(ledger_id as int) ==> r == Err::<(), LedgerError>(
            LedgerError::NotFound,
        ) && final(store)@ == old(store)@,
        old(store)@.has_entry(ledger_id as int) ==> match iso_date_fields(transaction_date@) {
            None => r == Err::<(), LedgerError>(LedgerError::Validation) && final(store)@ == old(
                store,
            )@,
            Some(f) => r is Ok && final(store)@ == old(store)@.amended(
                ledger_id as int,
                date_of(f),
                transaction_type@,
                amount as int,
                text_view(description),
            ),
        },
{
    if !store.contains_entry(ledger_id) {
        return Err(LedgerError::NotFound);
    }
    match parse_with_chrono(transaction_date) {
        None => Err(LedgerError::Validation),
        Some(date) => store.amend(ledger_id, date, transaction_type, amount, description),
    }
}

/// Deletes entry `ledger_id`, as `LedgerStore::remove` does.
pub fn delete_ledger_entry(store: &mut LedgerStore, ledger_id: i32) -> (r: Result<(), LedgerError>)
    requires
        old(store).wf(),
    ensures
        final(store).wf(),
        old(store)@.has_entry(ledger_id as int) ==> r is Ok && final(store)@ == old(
            store,
        )@.removed(ledger_id as int),
        !old(store)@.has_entry(ledger_id as int) ==> r == Err::<(), LedgerError>(
            LedgerError::NotFound,
        ) && final(store)@ == old(store)@,
{
    store.remove(ledger_id)
}

/// The statement of `customer_id`. When both `start_date` and `end_date`
/// are given it is restricted to that range, and a text among them that
/// names no date is refused with `Validation`; otherwise it covers all of
/// the customer's entries.
pub fn get_customer_ledger(
    store: &LedgerStore,
    customer_id: &str,
    start_date: Option<&str>,
    end_date: Option<&str>,
) -> (r: Result<Vec<AnnotatedEntry>, LedgerError>)
    requires
        store.wf(),
    ensures
        match (opt_view(start_date), opt_view(end_date)) {
            (Some(s), Some(e)) => match (iso_date_fields(s), iso_date_fields(e)) {
                (Some(fs), Some(fe)) => r matches Ok(l) && is_statement(
                    store@,
                    customer_id@,
                    Some((date_of(fs), date_of(fe))),
                    views_of(l@),
                ),
                _ => r == Err::<Vec<AnnotatedEntry>, LedgerError>(LedgerError::Validation),
            },
            _ => r matches Ok(l) && is_statement(store@, customer_id@, None, views_of(l@)),
        },
{
    match (start_date, end_date) {
        (Some(s), Some(e)) => {
            let start = match parse_with_chrono(s) {
                Some(d) => d,
                None => return Err(LedgerError::Validation),
            };
            let end = match parse_with_chrono(e) {
                Some(d) => d,
                None => return Err(LedgerError::Validation),
            };
            Ok(store.statement(customer_id, Some((start, end))))
        },
        _ => Ok(store.statement(customer_id, None)),
    }
}

/// The customers with a non-zero balance, largest balance first.
pub fn get_customers_with_debt(store: &LedgerStore) -> (r: Vec<Customer>)
    requires
        store.wf(),
    ensures
        is_debtor_list(store@, customer_views(r@)),
{
    store.debtors()
}

} // verus!
