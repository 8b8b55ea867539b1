use mycelium::amount::{classify, normalize, TransactionKind};
use mycelium::commands::{
    create_ledger_entry, delete_ledger_entry, get_customer_ledger, get_customers_with_debt,
    update_ledger_entry,
};
use mycelium::date::CalendarDate;
use mycelium::ledger::{LedgerError, LedgerStore};

fn store_with(customers: &[&str]) -> LedgerStore {
    let mut store = LedgerStore::new();
    for c in customers {
        store.add_customer(c).unwrap();
    }
    store
}

fn balance(store: &LedgerStore, customer_id: &str) -> i64 {
    store.balance_of(customer_id).unwrap()
}

#[test]
fn test_ledger_final_amount_logic() {
    let amount: i32 = 10000;

    // A payment lowers the balance.
    let deposit_amount = normalize("입금", amount);
    assert_eq!(deposit_amount, -10000);

    // A sale raises it.
    let sales_amount = normalize("매출", amount);
    assert_eq!(sales_amount, 10000);

    // A return lowers it.
    let return_amount = normalize("반품", amount);
    assert_eq!(return_amount, -10000);
}

#[test]
fn test_stock_conversion_ratio() {
    let convert_qty: i32 = 10;
    let ratio: f64 = 1.5;

    // (10 * 1.5).ceil() = 15
    let expected_deduct = (convert_qty as f64 * ratio).ceil() as i32;
    assert_eq!(expected_deduct, 15);

    let convert_qty_2: i32 = 7;
    let ratio_2: f64 = 1.25;
    // (7 * 1.25) = 8.75 -> ceil = 9
    let expected_deduct_2 = (convert_qty_2 as f64 * ratio_2).ceil() as i32;
    assert_eq!(expected_deduct_2, 9);
}

#[test]
fn payment_is_always_negative() {
    assert_eq!(normalize("입금", 10000), -10000);
    assert_eq!(normalize("입금", -10000), -10000);
}

#[test]
fn sale_is_always_positive() {
    assert_eq!(normalize("매출", 10000), 10000);
    assert_eq!(normalize("매출", -10000), 10000);
}

#[test]
fn return_and_cancel_are_negative() {
    assert_eq!(normalize("반품", 10000), -10000);
    assert_eq!(normalize("매출취소", 10000), -10000);
    assert_eq!(normalize("매출취소", -10000), -10000);
}

#[test]
fn carry_over_is_positive() {
    assert_eq!(normalize("이월", -3000), 3000);
    assert_eq!(normalize("이월", 3000), 3000);
}

#[test]
fn adjustment_keeps_sign() {
    assert_eq!(normalize("조정", -500), -500);
    assert_eq!(normalize("조정", 500), 500);
    assert_eq!(normalize("anything else", -7), -7);
}

#[test]
fn normalize_extreme_amounts() {
    assert_eq!(normalize("입금", i32::MIN), -2147483648);
    assert_eq!(normalize("매출", i32::MIN), 2147483648);
    assert_eq!(normalize("조정", i32::MIN), -2147483648);
    assert_eq!(normalize("매출", 0), 0);
}

#[test]
fn classify_labels() {
    assert_eq!(classify("입금"), TransactionKind::Payment);
    assert_eq!(classify("이월"), TransactionKind::CarryOver);
    assert_eq!(classify("매출"), TransactionKind::Sale);
    assert_eq!(classify("반품"), TransactionKind::Return);
    assert_eq!(classify("매출취소"), TransactionKind::SaleCancel);
    assert_eq!(classify("조정"), TransactionKind::Adjustment);
    assert_eq!(classify("매출 "), TransactionKind::Adjustment);
}

#[test]
fn create_updates_balance_and_assigns_ids() {
    let mut store = store_with(&["c1", "c2"]);
    let a = create_ledger_entry(&mut store, "c1", "2024-01-01", "매출", 1000, None).unwrap();
    let b = create_ledger_entry(&mut store, "c1", "2024-01-02", "입금", 300, Some("cash".to_string()))
        .unwrap();
    let c = create_ledger_entry(&mut store, "c2", "2024-01-03", "이월", -50, None).unwrap();
    assert_eq!((a, b, c), (1, 2, 3));
    assert_eq!(balance(&store, "c1"), 700);
    assert_eq!(balance(&store, "c2"), 50);
}

#[test]
fn create_rejects_bad_date() {
    let mut store = store_with(&["c1"]);
    assert_eq!(
        create_ledger_entry(&mut store, "c1", "2024-02-30", "매출", 1000, None),
        Err(LedgerError::Validation)
    );
    assert_eq!(
        create_ledger_entry(&mut store, "c1", "not a date", "매출", 1000, None),
        Err(LedgerError::Validation)
    );
    assert_eq!(balance(&store, "c1"), 0);
    assert_eq!(store.entry_count(), 0);
}

#[test]
fn create_for_unknown_customer_is_storage_error() {
    let mut store = store_with(&["c1"]);
    assert_eq!(
        create_ledger_entry(&mut store, "nobody", "2024-01-01", "매출", 1000, None),
        Err(LedgerError::Storage)
    );
    assert_eq!(store.entry_count(), 0);
}

#[test]
fn duplicate_customer_is_refused() {
    let mut store = store_with(&["c1"]);
    assert_eq!(store.add_customer("c1"), Err(LedgerError::Storage));
}

#[test]
fn create_then_delete_restores_balance() {
    let mut store = store_with(&["c1"]);
    create_ledger_entry(&mut store, "c1", "2024-01-01", "매출", 1234, None).unwrap();
    let before = balance(&store, "c1");
    let id = create_ledger_entry(&mut store, "c1", "2024-01-05", "입금", 999, None).unwrap();
    assert_eq!(balance(&store, "c1"), before - 999);
    delete_ledger_entry(&mut store, id).unwrap();
    assert_eq!(balance(&store, "c1"), before);
}

#[test]
fn delete_unknown_entry_is_not_found() {
    let mut store = store_with(&["c1"]);
    assert_eq!(delete_ledger_entry(&mut store, 42), Err(LedgerError::NotFound));
}

#[test]
fn amend_payment_to_sale_flips_by_twice_amount() {
    let mut store = store_with(&["c1"]);
    let id = create_ledger_entry(&mut store, "c1", "2024-01-01", "입금", 5000, None).unwrap();
    assert_eq!(balance(&store, "c1"), -5000);
    update_ledger_entry(&mut store, id, "2024-01-01", "매출", 5000, None).unwrap();
    assert_eq!(balance(&store, "c1"), 5000);
}

#[test]
fn amend_with_same_amount_keeps_balance() {
    let mut store = store_with(&["c1"]);
    let id = create_ledger_entry(&mut store, "c1", "2024-01-01", "매출", 800, None).unwrap();
    update_ledger_entry(&mut store, id, "2024-03-01", "매출", -800, Some("memo".to_string()))
        .unwrap();
    assert_eq!(balance(&store, "c1"), 800);
    let rows = get_customer_ledger(&store, "c1", None, None).unwrap();
    assert_eq!(rows.len(), 1);
    assert_eq!(rows[0].transaction_date, CalendarDate { year: 2024, month: 3, day: 1 });
    assert_eq!(rows[0].description, Some("memo".to_string()));
}

#[test]
fn amend_unknown_entry_is_not_found_before_date_check() {
    let mut store = store_with(&["c1"]);
    assert_eq!(
        update_ledger_entry(&mut store, 7, "bad", "매출", 1, None),
        Err(LedgerError::NotFound)
    );
}

#[test]
fn amend_with_bad_date_is_validation_error() {
    let mut store = store_with(&["c1"]);
    let id = create_ledger_entry(&mut store, "c1", "2024-01-01", "매출", 100, None).unwrap();
    assert_eq!(
        update_ledger_entry(&mut store, id, "2024-13-01", "매출", 900, None),
        Err(LedgerError::Validation)
    );
    assert_eq!(balance(&store, "c1"), 100);
}

#[test]
fn statement_with_range_keeps_global_running_balance() {
    let mut store = store_with(&["c1"]);
    create_ledger_entry(&mut store, "c1", "2024-01-01", "매출", 1000, None).unwrap();
    create_ledger_entry(&mut store, "c1", "2024-02-01", "입금", -500, None).unwrap();
    create_ledger_entry(&mut store, "c1", "2024-03-01", "매출", 2000, None).unwrap();
    let rows = get_customer_ledger(&store, "c1", Some("2024-02-01"), Some("2024-03-01")).unwrap();
    assert_eq!(rows.len(), 2);
    assert_eq!(rows[0].transaction_date, CalendarDate { year: 2024, month: 3, day: 1 });
    assert_eq!(rows[0].running_balance, 2500);
    assert_eq!(rows[1].transaction_date, CalendarDate { year: 2024, month: 2, day: 1 });
    assert_eq!(rows[1].running_balance, 500);
    assert_eq!(rows[1].amount, -500);
}

#[test]
fn statement_is_newest_first_with_ties_by_id() {
    let mut store = store_with(&["c1", "c2"]);
    let a = create_ledger_entry(&mut store, "c1", "2024-05-01", "매출", 10, None).unwrap();
    let b = create_ledger_entry(&mut store, "c1", "2024-05-01", "매출", 20, None).unwrap();
    create_ledger_entry(&mut store, "c2", "2024-05-02", "매출", 99, None).unwrap();
    let c = create_ledger_entry(&mut store, "c1", "2024-04-01", "입금", 5, None).unwrap();
    let rows = get_customer_ledger(&store, "c1", None, None).unwrap();
    let ids: Vec<i32> = rows.iter().map(|r| r.ledger_id).collect();
    assert_eq!(ids, vec![b, a, c]);
    let running: Vec<i64> = rows.iter().map(|r| r.running_balance).collect();
    assert_eq!(running, vec![25, 5, -5]);
}

#[test]
fn out_of_order_insert_recomputes_running_balances() {
    let mut store = store_with(&["c1"]);
    create_ledger_entry(&mut store, "c1", "2024-01-10", "매출", 100, None).unwrap();
    create_ledger_entry(&mut store, "c1", "2024-01-20", "매출", 200, None).unwrap();
    create_ledger_entry(&mut store, "c1", "2024-01-05", "매출", 1000, None).unwrap();
    let rows = get_customer_ledger(&store, "c1", None, None).unwrap();
    let running: Vec<i64> = rows.iter().map(|r| r.running_balance).collect();
    assert_eq!(running, vec![1300, 1100, 1000]);
}

#[test]
fn statement_empty_cases() {
    let mut store = store_with(&["c1"]);
    assert!(get_customer_ledger(&store, "c1", None, None).unwrap().is_empty());
    create_ledger_entry(&mut store, "c1", "2024-01-01", "매출", 1, None).unwrap();
    assert!(get_customer_ledger(&store, "c1", Some("2025-01-01"), Some("2025-12-31"))
        .unwrap()
        .is_empty());
    assert!(get_customer_ledger(&store, "other", None, None).unwrap().is_empty());
}

#[test]
fn statement_with_one_bound_is_unfiltered() {
    let mut store = store_with(&["c1"]);
    create_ledger_entry(&mut store, "c1", "2024-01-01", "매출", 1, None).unwrap();
    create_ledger_entry(&mut store, "c1", "2024-06-01", "매출", 2, None).unwrap();
    assert_eq!(get_customer_ledger(&store, "c1", Some("2024-05-01"), None).unwrap().len(), 2);
}

#[test]
fn statement_bad_range_is_validation_error() {
    let store = store_with(&["c1"]);
    assert!(matches!(
        get_customer_ledger(&store, "c1", Some("2024-01-01"), Some("2024-1x-01")),
        Err(LedgerError::Validation)
    ));
}

#[test]
fn debtors_sorted_and_nonzero() {
    let mut store = store_with(&["a", "b", "c", "d"]);
    create_ledger_entry(&mut store, "a", "2024-01-01", "매출", 100, None).unwrap();
    create_ledger_entry(&mut store, "b", "2024-01-01", "입금", 50, None).unwrap();
    create_ledger_entry(&mut store, "d", "2024-01-01", "매출", 300, None).unwrap();
    let list = get_customers_with_debt(&store);
    let ids: Vec<&str> = list.iter().map(|c| c.customer_id.as_str()).collect();
    assert_eq!(ids, vec!["d", "a", "b"]);
    let balances: Vec<i64> = list.iter().map(|c| c.current_balance).collect();
    assert_eq!(balances, vec![300, 100, -50]);
}

#[test]
fn debtors_empty_when_all_settled() {
    let mut store = store_with(&["a"]);
    let id = create_ledger_entry(&mut store, "a", "2024-01-01", "매출", 100, None).unwrap();
    create_ledger_entry(&mut store, "a", "2024-01-02", "입금", 100, None).unwrap();
    assert!(get_customers_with_debt(&store).is_empty());
    delete_ledger_entry(&mut store, id).unwrap();
    assert_eq!(get_customers_with_debt(&store).len(), 1);
}

#[test]
fn newest_row_carries_current_balance() {
    let mut store = store_with(&["c1", "c2"]);
    create_ledger_entry(&mut store, "c1", "2024-03-01", "매출", 700, None).unwrap();
    create_ledger_entry(&mut store, "c2", "2024-03-02", "매출", 1, None).unwrap();
    create_ledger_entry(&mut store, "c1", "2024-01-01", "이월", 50, None).unwrap();
    let id = create_ledger_entry(&mut store, "c1", "2024-02-01", "반품", 20, None).unwrap();
    update_ledger_entry(&mut store, id, "2024-04-01", "조정", -30, None).unwrap();
    let rows = get_customer_ledger(&store, "c1", None, None).unwrap();
    assert_eq!(rows[0].ledger_id, id);
    assert_eq!(rows[0].running_balance, balance(&store, "c1"));
    assert_eq!(balance(&store, "c1"), 720);
}

#[test]
fn debtors_with_equal_balances_keep_registration_order() {
    let mut store = store_with(&["x", "y", "z"]);
    create_ledger_entry(&mut store, "z", "2024-01-01", "매출", 100, None).unwrap();
    create_ledger_entry(&mut store, "x", "2024-01-01", "매출", 100, None).unwrap();
    create_ledger_entry(&mut store, "y", "2024-01-01", "매출", 200, None).unwrap();
    let ids: Vec<String> = get_customers_with_debt(&store).into_iter().map(|c| c.customer_id).collect();
    assert_eq!(ids, vec!["y", "x", "z"]);
}
