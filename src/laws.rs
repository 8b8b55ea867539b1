//! Properties of the ledger that relate several operations or hold of
//! every reachable state.

use vstd::prelude::*;

use crate::amount::{abs, normalized};
use crate::date::CalendarDate;
use crate::ledger::{
    annotated, entry_total, is_debtor_list, is_statement, later_than, of_customer, running_total,
    shown, sum_where, up_to, AnnotatedView, CustomerView, EntryView, LedgerView,
};

verus! {

/// In every well-formed state, and so after every committed append, amend
/// or remove, each customer's cached balance equals the sum of the amounts
/// of that customer's entries.
pub proof fn balance_is_sum_of_entries(v: LedgerView, i: int)
    requires
        v.wf(),
        0 <= i < v.customers.len(),
    ensures
        v.customers[i].balance == entry_total(v.entries, v.customers[i].customer_id),
{
}

/// Appending an entry and then removing it again gives back the state from
/// before the append: in particular every customer's balance is restored
/// exactly.
pub proof fn append_then_remove_restores(
    v: LedgerView,
    cid: Seq<char>,
    date: CalendarDate,
    ttype: Seq<char>,
    raw: int,
    description: Option<Seq<char>>,
)
    requires
        v.wf(),
        v.can_append(cid),
    ensures
        v.appended(cid, date, ttype, raw, description).has_entry(v.next_id),
        v.appended(cid, date, ttype, raw, description).removed(v.next_id).customers == v.customers,
        v.appended(cid, date, ttype, raw, description).removed(v.next_id).entries == v.entries,
{
    let a = v.appended(cid, date, ttype, raw, description);
    let last = v.entries.len() as int;
    assert(a.entries[last].ledger_id == v.next_id);
    let p = a.position_of(v.next_id);
    if p != last {
        assert(a.entries[p] == v.entries[p]);
    }
    assert(p == last);
    let r = a.removed(v.next_id);
    assert(r.entries =~= v.entries);
    assert(r.customers =~= v.customers);
}

/// Amending an entry recorded as a payment ("입금") into a sale ("매출")
/// with the same raw amount raises its customer's balance by twice the
/// magnitude of that amount, and leaves every other customer's balance as
/// it was.
pub proof fn payment_to_sale_flips_contribution(
    v: LedgerView,
    id: int,
    date: CalendarDate,
    raw: int,
    description: Option<Seq<char>>,
)
    requires
        v.wf(),
        v.has_entry(id),
        v.entries[v.position_of(id)].amount == normalized("입금"@, raw),
    ensures
        ({
            let after = v.amended(id, date, "매출"@, raw, description);
            let cid = v.entries[v.position_of(id)].customer_id;
            forall|k: int|
                0 <= k < v.customers.len() ==> #[trigger] after.customers[k].balance == v.customers[k].balance
                    + if v.customers[k].customer_id == cid {
                    2 * abs(raw)
                } else {
                    0
                }
        }),
{
    reveal_strlit("입금");
    reveal_strlit("매출");
    reveal_strlit("이월");
    assert("입금"@ != "매출"@) by {
        assert("입금"@[0] != "매출"@[0]);
    }
    assert("입금"@ != "이월"@) by {
        assert("입금"@[1] != "이월"@[1]);
    }
}

/// Statements are computed from the entries as they stand: after an entry
/// is appended, whatever its date, the running balance of every existing
/// entry of the same customer dated no earlier than it grows by its amount,
/// and every other running balance stays as it was.
pub proof fn running_balances_follow_insertion(
    v: LedgerView,
    cid: Seq<char>,
    date: CalendarDate,
    ttype: Seq<char>,
    raw: int,
    description: Option<Seq<char>>,
    e: EntryView,
)
    requires
        v.wf(),
        v.can_append(cid),
    ensures
        ({
            let after = v.appended(cid, date, ttype, raw, description);
            let added = after.entries.last();
            running_total(after.entries, e) == running_total(v.entries, e) + if added.customer_id
                == e.customer_id && !later_than(added, e) {
                added.amount
            } else {
                0
            }
        }),
{
    let after = v.appended(cid, date, ttype, raw, description);
    assert(after.entries.drop_last() =~= v.entries);
}

/// When no two customers with a non-zero balance share the same balance,
/// the debtor listing is strictly descending by balance.
pub proof fn debtors_strictly_descending(v: LedgerView, r: Seq<CustomerView>)
    requires
        v.wf(),
        is_debtor_list(v, r),
        forall|a: int, b: int|
            0 <= a < v.customers.len() && 0 <= b < v.customers.len() && a != b
                && v.customers[a].balance != 0 ==> #[trigger] v.customers[a].balance
                != #[trigger] v.customers[b].balance,
    ensures
        forall|i: int, k: int| 0 <= i < k < r.len() ==> #[trigger] r[i].balance > #[trigger] r[k].balance,
{
    assert forall|i: int, k: int| 0 <= i < k < r.len() implies #[trigger] r[i].balance
        > #[trigger] r[k].balance by {
        assert(r.contains(r[i]));
        assert(r.contains(r[k]));
        let a = choose|a: int| 0 <= a < v.customers.len() && v.customers[a] == r[i];
        let b = choose|b: int| 0 <= b < v.customers.len() && v.customers[b] == r[k];
        assert(r[i].customer_id != r[k].customer_id);
        assert(v.customers[a].balance != v.customers[b].balance);
    }
}

proof fn lemma_sum_same_selection(
    s: Seq<EntryView>,
    p: spec_fn(EntryView) -> bool,
    q: spec_fn(EntryView) -> bool,
)
    requires
        forall|i: int| 0 <= i < s.len() ==> p(#[trigger] s[i]) == q(s[i]),
    ensures
        sum_where(s, p) == sum_where(s, q),
    decreases s.len(),
{
    if s.len() > 0 {
        let t = s.drop_last();
        assert forall|i: int| 0 <= i < t.len() implies p(#[trigger] t[i]) == q(t[i]) by {
            assert(t[i] == s[i]);
        }
        lemma_sum_same_selection(t, p, q);
        assert(p(s[s.len() - 1]) == q(s[s.len() - 1]));
    }
}

/// The newest row of a customer's full statement carries the customer's
/// current balance as its running balance.
pub proof fn newest_running_balance_is_current_balance(
    v: LedgerView,
    k: int,
    r: Seq<AnnotatedView>,
)
    requires
        v.wf(),
        0 <= k < v.customers.len(),
        is_statement(v, v.customers[k].customer_id, None, r),
        r.len() > 0,
    ensures
        r[0].running_balance == v.customers[k].balance,
{
    let cid = v.customers[k].customer_id;
    assert(r.contains(r[0]));
    let j = choose|j: int|
        0 <= j < v.entries.len() && shown(v.entries[j], cid, None) && r[0] == annotated(
            v.entries,
            v.entries[j],
        );
    let e = v.entries[j];
    assert forall|i: int| 0 <= i < v.entries.len() implies up_to(e)(#[trigger] v.entries[i])
        == of_customer(cid)(v.entries[i]) by {
        let f = v.entries[i];
        if f.customer_id == cid {
            assert(shown(f, cid, None));
            assert(r.contains(annotated(v.entries, f)));
            let m = choose|m: int| 0 <= m < r.len() && r[m] == annotated(v.entries, f);
            if m > 0 {
                assert(later_than(r[0].entry, r[m].entry));
            }
        }
    }
    lemma_sum_same_selection(v.entries, up_to(e), of_customer(cid));
}

} // verus!
