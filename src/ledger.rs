//! The entry store: customers with a cached balance and their ledger
//! entries, kept so that each balance is the sum of that customer's
//! entries after every mutation.

use vstd::prelude::*;

use crate::amount::{normalize, normalized, same_text};
use crate::date::CalendarDate;

verus! {

/// Why a ledger operation was refused.
#[derive(Clone, Copy, Debug, PartialEq, Eq, Structural)]
pub enum LedgerError {
    /// A malformed date or a missing field.
    Validation,
    /// The referenced ledger entry does not exist.
    NotFound,
    /// The store refused the write: an unknown customer, a duplicate
    /// customer, or no ledger id left to assign.
    Storage,
}

/// The bound on ledger ids: every id the store hands out is below it.
pub const MAX_LEDGER_ID: i32 = 0x7fff_ffff;

/// One signed transaction of a customer, with its amount already normalised.
#[derive(Debug)]
pub struct LedgerEntry {
    pub ledger_id: i32,
    pub customer_id: String,
    pub transaction_date: CalendarDate,
    pub transaction_type: String,
    pub amount: i64,
    pub description: Option<String>,
}

/// A customer and the cached sum of its entries.
#[derive(Debug)]
pub struct Customer {
    pub customer_id: String,
    pub current_balance: i64,
}

/// A ledger entry as a statement shows it, with the running balance of its
/// customer up to and including it.
#[derive(Debug)]
pub struct AnnotatedEntry {
    pub ledger_id: i32,
    pub customer_id: String,
    pub transaction_date: CalendarDate,
    pub transaction_type: String,
    pub amount: i64,
    pub description: Option<String>,
    pub running_balance: i64,
}

/// A ledger entry as the contracts see it.
pub struct EntryView {
    pub ledger_id: int,
    pub customer_id: Seq<char>,
    pub date: CalendarDate,
    pub transaction_type: Seq<char>,
    pub amount: int,
    pub description: Option<Seq<char>>,
}

/// A customer as the contracts see it.
pub struct CustomerView {
    pub customer_id: Seq<char>,
    pub balance: int,
}

/// A statement row as the contracts see it.
pub struct AnnotatedView {
    pub entry: EntryView,
    pub running_balance: int,
}

/// An optional text as the contracts see it.
pub open spec fn text_view(t: Option<String>) -> Option<Seq<char>> {
    match t {
        Some(s) => Some(s@),
        None => None,
    }
}

impl View for LedgerEntry {
    type V = EntryView;

    open spec fn view(&self) -> EntryView {
        EntryView {
            ledger_id: self.ledger_id as int,
            customer_id: self.customer_id@,
            date: self.transaction_date,
            transaction_type: self.transaction_type@,
            amount: self.amount as int,
            description: text_view(self.description),
        }
    }
}

impl View for Customer {
    type V = CustomerView;

    open spec fn view(&self) -> CustomerView {
        CustomerView { customer_id: self.customer_id@, balance: self.current_balance as int }
    }
}

impl View for AnnotatedEntry {
    type V = AnnotatedView;

    open spec fn view(&self) -> AnnotatedView {
        AnnotatedView {
            entry: EntryView {
                ledger_id: self.ledger_id as int,
                customer_id: self.customer_id@,
                date: self.transaction_date,
                transaction_type: self.transaction_type@,
                amount: self.amount as int,
                description: text_view(self.description),
            },
            running_balance: self.running_balance as int,
        }
    }
}

/// Sum of the amounts of the entries that satisfy `pred`.
pub open spec fn sum_where(entries: Seq<EntryView>, pred: spec_fn(EntryView) -> bool) -> int
    decreases entries.len(),
{
    if entries.len() == 0 {
        0
    } else {
        sum_where(entries.drop_last(), pred) + if pred(entries.last()) {
            entries.last().amount
        } else {
            0
        }
    }
}

/// The entries of customer `cid`.
pub open spec fn of_customer(cid: Seq<char>) -> spec_fn(EntryView) -> bool {
    |e: EntryView| e.customer_id == cid
}

/// Sum of all amounts of customer `cid`.
pub open spec fn entry_total(entries: Seq<EntryView>, cid: Seq<char>) -> int {
    sum_where(entries, of_customer(cid))
}

/// Whether `a` comes strictly after `b` chronologically: by date, then by
/// ledger id.
pub open spec fn later_than(a: EntryView, b: EntryView) -> bool {
    a.date.ordinal() > b.date.ordinal() || (a.date.ordinal() == b.date.ordinal() && a.ledger_id
        > b.ledger_id)
}

/// The entries of `e`'s customer that come no later than `e`.
pub open spec fn up_to(e: EntryView) -> spec_fn(EntryView) -> bool {
    |f: EntryView| f.customer_id == e.customer_id && !later_than(f, e)
}

/// The running balance of `e`: the sum of its customer's amounts, taken in
/// chronological order, up to and including `e`.
pub open spec fn running_total(entries: Seq<EntryView>, e: EntryView) -> int {
    sum_where(entries, up_to(e))
}

/// Adds `delta` to the balance of customer `cid`.
pub open spec fn credited(customers: Seq<CustomerView>, cid: Seq<char>, delta: int) -> Seq<
    CustomerView,
> {
    customers.map_values(
        |c: CustomerView|
            if c.customer_id == cid {
                CustomerView { customer_id: c.customer_id, balance: c.balance + delta }
            } else {
                c
            },
    )
}

/// Whether a statement of customer `cid` over `range` shows entry `e`: the
/// entry is the customer's and, when a range is given, its date lies within
/// it, both ends included.
pub open spec fn shown(e: EntryView, cid: Seq<char>, range: Option<(CalendarDate, CalendarDate)>) -> bool {
    e.customer_id == cid && match range {
        None => true,
        Some((start, end)) => start.ordinal() <= e.date.ordinal() <= end.ordinal(),
    }
}

/// Entry `e` annotated with its running balance over all of `entries`.
pub open spec fn annotated(entries: Seq<EntryView>, e: EntryView) -> AnnotatedView {
    AnnotatedView { entry: e, running_balance: running_total(entries, e) }
}

/// What a statement holds: exactly the shown entries, each annotated with
/// its running balance over the customer's whole history, newest first.
pub open spec fn is_statement(
    v: LedgerView,
    cid: Seq<char>,
    range: Option<(CalendarDate, CalendarDate)>,
    r: Seq<AnnotatedView>,
) -> bool {
    &&& forall|x: AnnotatedView|
        #[trigger] r.contains(x) ==> exists|j: int|
            0 <= j < v.entries.len() && shown(v.entries[j], cid, range) && x == annotated(
                v.entries,
                v.entries[j],
            )
    &&& forall|j: int|
        0 <= j < v.entries.len() && #[trigger] shown(v.entries[j], cid, range) ==> r.contains(
            annotated(v.entries, v.entries[j]),
        )
    &&& newest_first(r)
}

/// The abstract state of a store.
pub struct LedgerView {
    pub customers: Seq<CustomerView>,
    pub entries: Seq<EntryView>,
    pub next_id: int,
}

impl LedgerView {
    pub open spec fn has_customer(self, cid: Seq<char>) -> bool {
        exists|i: int| 0 <= i < self.customers.len() && self.customers[i].customer_id == cid
    }

    pub open spec fn has_entry(self, id: int) -> bool {
        exists|i: int| 0 <= i < self.entries.len() && self.entries[i].ledger_id == id
    }

    /// Where the entry with ledger id `id` stands.
    pub open spec fn position_of(self, id: int) -> int {
        choose|i: int| 0 <= i < self.entries.len() && self.entries[i].ledger_id == id
    }

    /// Every customer's cached balance is the sum of its entries.
    pub open spec fn balances_consistent(self) -> bool {
        forall|i: int|
            0 <= i < self.customers.len() ==> #[trigger] self.customers[i].balance == entry_total(
                self.entries,
                self.customers[i].customer_id,
            )
    }

    pub open spec fn wf(self) -> bool {
        &&& 1 <= self.next_id <= MAX_LEDGER_ID
        &&& self.entries.len() < self.next_id
        &&& forall|i: int|
            0 <= i < self.entries.len() ==> 1 <= #[trigger] self.entries[i].ledger_id
                < self.next_id
        &&& forall|i: int, j: int|
            0 <= i < self.entries.len() && 0 <= j < self.entries.len() && i != j
                ==> #[trigger] self.entries[i].ledger_id != #[trigger] self.entries[j].ledger_id
        &&& forall|i: int|
            0 <= i < self.entries.len() ==> (#[trigger] self.entries[i]).date.wf() && -0x8000_0000
                <= self.entries[i].amount <= 0x8000_0000
        &&& forall|i: int|
            0 <= i < self.entries.len() ==> self.has_customer(
                (#[trigger] self.entries[i]).customer_id,
            )
        &&& forall|i: int, j: int|
            0 <= i < self.customers.len() && 0 <= j < self.customers.len() && i != j
                ==> #[trigger] self.customers[i].customer_id
                != #[trigger] self.customers[j].customer_id
        &&& self.balances_consistent()
    }

    /// Whether an entry for `cid` can be appended.
    pub open spec fn can_append(self, cid: Seq<char>) -> bool {
        self.has_customer(cid) && self.next_id < MAX_LEDGER_ID
    }

    /// The state after appending an entry for `cid`: the entry takes the
    /// next ledger id and its normalised amount is added to the balance.
    pub open spec fn appended(
        self,
        cid: Seq<char>,
        date: CalendarDate,
        ttype: Seq<char>,
        raw: int,
        description: Option<Seq<char>>,
    ) -> LedgerView {
        let amount = normalized(ttype, raw);
        LedgerView {
            customers: credited(self.customers, cid, amount),
            entries: self.entries.push(
                EntryView {
                    ledger_id: self.next_id,
                    customer_id: cid,
                    date,
                    transaction_type: ttype,
                    amount,
                    description,
                },
            ),
            next_id: self.next_id + 1,
        }
    }

    /// The state after amending entry `id`: date, type, amount and
    /// description are replaced, the customer is kept, and the balance moves
    /// by the difference between the new and the old amount.
    pub open spec fn amended(
        self,
        id: int,
        date: CalendarDate,
        ttype: Seq<char>,
        raw: int,
        description: Option<Seq<char>>,
    ) -> LedgerView {
        let i = self.position_of(id);
        let old_entry = self.entries[i];
        let amount = normalized(ttype, raw);
        LedgerView {
            customers: credited(self.customers, old_entry.customer_id, amount - old_entry.amount),
            entries: self.entries.update(
                i,
                EntryView {
                    ledger_id: id,
                    customer_id: old_entry.customer_id,
                    date,
                    transaction_type: ttype,
                    amount,
                    description,
                },
            ),
            next_id: self.next_id,
        }
    }

    /// The state after removing entry `id`: its amount leaves the balance.
    pub open spec fn removed(self, id: int) -> LedgerView {
        let i = self.position_of(id);
        let old_entry = self.entries[i];
        LedgerView {
            customers: credited(self.customers, old_entry.customer_id, -old_entry.amount),
            entries: self.entries.remove(i),
            next_id: self.next_id,
        }
    }
}

// ---------------------------------------------------------------------------
// Sums over entry sequences
// ---------------------------------------------------------------------------

proof fn lemma_sum_push(s: Seq<EntryView>, e: EntryView, pred: spec_fn(EntryView) -> bool)
    ensures
        sum_where(s.push(e), pred) == sum_where(s, pred) + if pred(e) {
            e.amount
        } else {
            0
        },
{
    assert(s.push(e).drop_last() =~= s);
}

proof fn lemma_sum_take(s: Seq<EntryView>, k: int, pred: spec_fn(EntryView) -> bool)
    requires
        0 <= k < s.len(),
    ensures
        sum_where(s.take(k + 1), pred) == sum_where(s.take(k), pred) + if pred(s[k]) {
            s[k].amount
        } else {
            0
        },
{
    assert(s.take(k + 1).drop_last() =~= s.take(k));
}

proof fn lemma_sum_update(
    s: Seq<EntryView>,
    i: int,
    e: EntryView,
    pred: spec_fn(EntryView) -> bool,
)
    requires
        0 <= i < s.len(),
    ensures
        sum_where(s.update(i, e), pred) == sum_where(s, pred) + (if pred(e) {
            e.amount
        } else {
            0
        }) - (if pred(s[i]) {
            s[i].amount
        } else {
            0
        }),
    decreases s.len(),
{
    if i == s.len() - 1 {
        assert(s.update(i, e).drop_last() =~= s.drop_last());
    } else {
        lemma_sum_update(s.drop_last(), i, e, pred);
        assert(s.update(i, e).drop_last() =~= s.drop_last().update(i, e));
    }
}

proof fn lemma_sum_remove(s: Seq<EntryView>, i: int, pred: spec_fn(EntryView) -> bool)
    requires
        0 <= i < s.len(),
    ensures
        sum_where(s.remove(i), pred) == sum_where(s, pred) - (if pred(s[i]) {
            s[i].amount
        } else {
            0
        }),
    decreases s.len(),
{
    if i == s.len() - 1 {
        assert(s.remove(i) =~= s.drop_last());
    } else {
        lemma_sum_remove(s.drop_last(), i, pred);
        assert(s.remove(i).drop_last() =~= s.drop_last().remove(i));
    }
}

proof fn lemma_sum_bound(s: Seq<EntryView>, pred: spec_fn(EntryView) -> bool)
    requires
        forall|i: int| 0 <= i < s.len() ==> -0x8000_0000 <= #[trigger] s[i].amount <= 0x8000_0000,
    ensures
        -0x8000_0000 * s.len() <= sum_where(s, pred) <= 0x8000_0000 * s.len(),
    decreases s.len(),
{
    if s.len() > 0 {
        let t = s.drop_last();
        assert forall|i: int| 0 <= i < t.len() implies -0x8000_0000 <= #[trigger] t[i].amount
            <= 0x8000_0000 by {
            assert(t[i] == s[i]);
        }
        lemma_sum_bound(t, pred);
        assert(s[s.len() - 1] == s.last());
    }
}

proof fn lemma_no_entries(s: Seq<EntryView>, cid: Seq<char>)
    requires
        forall|i: int| 0 <= i < s.len() ==> (#[trigger] s[i]).customer_id != cid,
    ensures
        entry_total(s, cid) == 0,
    decreases s.len(),
{
    if s.len() > 0 {
        let t = s.drop_last();
        assert forall|i: int| 0 <= i < t.len() implies (#[trigger] t[i]).customer_id != cid by {
            assert(t[i] == s[i]);
        }
        lemma_no_entries(t, cid);
        assert(s[s.len() - 1] == s.last());
    }
}

/// A customer's balance in a well-formed state lies within 2^62.
proof fn lemma_balance_bound(v: LedgerView, i: int)
    requires
        v.wf(),
        0 <= i < v.customers.len(),
    ensures
        -0x4000_0000_0000_0000 <= v.customers[i].balance <= 0x4000_0000_0000_0000,
{
    lemma_sum_bound(v.entries, of_customer(v.customers[i].customer_id));
    assert(v.customers[i].balance == entry_total(v.entries, v.customers[i].customer_id));
}

/// Balances stay consistent when the entries change so that every
/// customer's total moves by what `credited` adds to it.
proof fn lemma_credit_consistent(
    v: LedgerView,
    entries: Seq<EntryView>,
    cid: Seq<char>,
    delta: int,
)
    requires
        v.balances_consistent(),
        forall|c: Seq<char>|
            #[trigger] entry_total(entries, c) == entry_total(v.entries, c) + if c == cid {
                delta
            } else {
                0
            },
    ensures
        (LedgerView {
            customers: credited(v.customers, cid, delta),
            entries,
            next_id: v.next_id,
        }).balances_consistent(),
{
    let cs = credited(v.customers, cid, delta);
    assert forall|i: int| 0 <= i < cs.len() implies #[trigger] cs[i].balance == entry_total(
        entries,
        cs[i].customer_id,
    ) by {
        assert(v.customers[i].balance == entry_total(v.entries, v.customers[i].customer_id));
        assert(entry_total(entries, v.customers[i].customer_id) == entry_total(
            v.entries,
            v.customers[i].customer_id,
        ) + if v.customers[i].customer_id == cid {
            delta
        } else {
            0
        });
    }
}

// ---------------------------------------------------------------------------
// The store
// ---------------------------------------------------------------------------

/// Customers and their ledger entries. Every mutation changes an entry and
/// the owning customer's balance together, or, when it is refused, changes
/// nothing; in every state each balance is the sum of the customer's
/// entries (see `LedgerView::wf`).
pub struct LedgerStore {
    customers: Vec<Customer>,
    entries: Vec<LedgerEntry>,
    next_id: i32,
}

impl View for LedgerStore {
    type V = LedgerView;

    closed spec fn view(&self) -> LedgerView {
        LedgerView {
            customers: self.customers@.map_values(|c: Customer| c@),
            entries: self.entries@.map_values(|e: LedgerEntry| e@),
            next_id: self.next_id as int,
        }
    }
}

fn copy_text(t: &Option<String>) -> (r: Option<String>)
    ensures
        text_view(r) == text_view(*t),
{
    match t {
        Some(s) => Some(s.clone()),
        None => None,
    }
}

/// Whether `a` is dated after `key`, or on it with a larger ledger id than `id`.
fn listed_after(a: &AnnotatedEntry, key: i64, id: i32) -> (r: bool)
    ensures
        r == (a@.entry.date.ordinal() > key || (a@.entry.date.ordinal() == key
            && a@.entry.ledger_id > id)),
{
    let k = a.transaction_date.sort_key();
    k > key || (k == key && a.ledger_id > id)
}

/// Views of a list of annotated entries.
pub open spec fn views_of(r: Seq<AnnotatedEntry>) -> Seq<AnnotatedView> {
    r.map_values(|a: AnnotatedEntry| a@)
}

/// Strictly newest first: by date, then by ledger id.
pub open spec fn newest_first(r: Seq<AnnotatedView>) -> bool {
    forall|i: int, k: int| 0 <= i < k < r.len() ==> later_than(#[trigger] r[i].entry, #[trigger] r[k].entry)
}

/// Inserts `item` into a list kept newest first.
fn insert_newest_first(out: &mut Vec<AnnotatedEntry>, item: AnnotatedEntry)
    requires
        newest_first(views_of(old(out)@)),
        forall|i: int| 0 <= i < old(out)@.len() ==> #[trigger] old(out)@[i]@.entry.ledger_id != item@.entry.ledger_id,
    ensures
        newest_first(views_of(final(out)@)),
        forall|x: AnnotatedView| #[trigger] views_of(final(out)@).contains(x) <==> (x == item@ || views_of(old(out)@).contains(x)),
{
    let ghost before = views_of(out@);
    let ghost it = item@;
    let key = item.transaction_date.sort_key();
    let id = item.ledger_id;
    let mut p: usize = 0;
    while p < out.len() && listed_after(&out[p], key, id)
        invariant
            p <= out@.len(),
            before == views_of(out@),
            key == it.entry.date.ordinal(),
            id == it.entry.ledger_id,
            forall|q: int| 0 <= q < p ==> later_than(#[trigger] before[q].entry, it.entry),
        decreases out@.len() - p,
    {
        p = p + 1;
    }
    if p < out.len() {
        assert(before[p as int].entry.ledger_id != id);
    }
    out.insert(p, item);
    proof {
        let after = views_of(out@);
        assert(after =~= before.insert(p as int, it));
        before.insert_ensures(p as int, it);
        assert forall|i: int, k: int|
            0 <= i < k < after.len() implies later_than(#[trigger] after[i].entry, #[trigger] after[k].entry) by {
            if k < p {
            } else if k == p {
            } else if i < p {
                assert(later_than(before[i].entry, it.entry));
                assert(later_than(it.entry, before[p as int].entry));
            } else if i == p {
                assert(later_than(it.entry, before[p as int].entry));
            } else {
            }
        }
        assert forall|x: AnnotatedView| #[trigger] after.contains(x) implies (x == it || before.contains(x)) by {
            let i = choose|i: int| 0 <= i < after.len() && after[i] == x;
            if i < p {
                assert(before[i] == x);
            } else if i > p {
                assert(before[i - 1] == x);
            }
        }
        assert forall|x: AnnotatedView| (x == it || before.contains(x)) implies #[trigger] after.contains(x) by {
            if x == it {
                assert(after[p as int] == x);
            } else {
                let i = choose|i: int| 0 <= i < before.len() && before[i] == x;
                if i < p {
                    assert(after[i] == x);
                } else {
                    assert(after[i + 1] == x);
                }
            }
        }
    }
}

/// Views of a list of customers.
pub open spec fn customer_views(r: Seq<Customer>) -> Seq<CustomerView> {
    r.map_values(|c: Customer| c@)
}

/// Largest balance first.
pub open spec fn by_balance_descending(r: Seq<CustomerView>) -> bool {
    forall|i: int, k: int| 0 <= i < k < r.len() ==> #[trigger] r[i].balance >= #[trigger] r[k].balance
}

/// No customer is listed twice.
pub open spec fn distinct_customers(r: Seq<CustomerView>) -> bool {
    forall|i: int, k: int| 0 <= i < k < r.len() ==> #[trigger] r[i].customer_id != #[trigger] r[k].customer_id
}

/// Whether `x` was registered before `y`.
pub open spec fn registered_before(customers: Seq<CustomerView>, x: CustomerView, y: CustomerView) -> bool {
    exists|a: int, b: int| 0 <= a < b < customers.len() && customers[a] == x && customers[b] == y
}

/// Customers with equal balances are listed in the order they were
/// registered.
pub open spec fn ties_in_registration_order(customers: Seq<CustomerView>, r: Seq<CustomerView>) -> bool {
    forall|i: int, k: int|
        0 <= i < k < r.len() && r[i].balance == r[k].balance ==> registered_before(
            customers,
            #[trigger] r[i],
            #[trigger] r[k],
        )
}

/// What the debtor listing holds: each customer with a non-zero balance,
/// once, largest balance first, equal balances in registration order.
pub open spec fn is_debtor_list(v: LedgerView, r: Seq<CustomerView>) -> bool {
    &&& forall|x: CustomerView| #[trigger] r.contains(x) ==> v.customers.contains(x) && x.balance != 0
    &&& forall|i: int| 0 <= i < v.customers.len() && #[trigger] v.customers[i].balance != 0 ==> r.contains(v.customers[i])
    &&& distinct_customers(r)
    &&& by_balance_descending(r)
    &&& ties_in_registration_order(v.customers, r)
}

/// Inserts `item` into a list kept largest balance first, after the
/// customers with the same balance.
fn insert_by_balance(
    out: &mut Vec<Customer>,
    item: Customer,
    customers: Ghost<Seq<CustomerView>>,
    j: Ghost<int>,
)
    requires
        0 <= j@ < customers@.len(),
        item@ == customers@[j@],
        forall|x: CustomerView|
            #[trigger] customer_views(old(out)@).contains(x) ==> exists|a: int|
                0 <= a < j@ && customers@[a] == x && x.balance != 0,
        ties_in_registration_order(customers@, customer_views(old(out)@)),
        by_balance_descending(customer_views(old(out)@)),
        distinct_customers(customer_views(old(out)@)),
        forall|i: int| 0 <= i < old(out)@.len() ==> #[trigger] old(out)@[i]@.customer_id != item@.customer_id,
    ensures
        by_balance_descending(customer_views(final(out)@)),
        distinct_customers(customer_views(final(out)@)),
        ties_in_registration_order(customers@, customer_views(final(out)@)),
        forall|x: CustomerView| #[trigger] customer_views(final(out)@).contains(x) <==> (x == item@ || customer_views(old(out)@).contains(x)),
{
    let ghost before = customer_views(out@);
    let ghost it = item@;
    let balance = item.current_balance;
    let mut p: usize = 0;
    while p < out.len() && out[p].current_balance >= balance
        invariant
            p <= out@.len(),
            before == customer_views(out@),
            balance == it.balance,
            forall|q: int| 0 <= q < p ==> #[trigger] before[q].balance >= it.balance,
        decreases out@.len() - p,
    {
        p = p + 1;
    }
    out.insert(p, item);
    proof {
        let after = customer_views(out@);
        assert(after =~= before.insert(p as int, it));
        before.insert_ensures(p as int, it);
        assert forall|i: int, k: int|
            0 <= i < k < after.len() implies #[trigger] after[i].balance >= #[trigger] after[k].balance by {
            if k < p {
            } else if k == p {
            } else if i < p {
                assert(before[i].balance >= it.balance);
                assert(it.balance > before[p as int].balance);
            } else if i == p {
                assert(it.balance > before[p as int].balance);
            } else {
            }
        }
        assert forall|i: int, k: int|
            0 <= i < k < after.len() implies #[trigger] after[i].customer_id != #[trigger] after[k].customer_id by {
            if k < p {
            } else if k == p {
                assert(before[i].customer_id != it.customer_id);
            } else if i < p {
                assert(before[i].customer_id != before[k - 1].customer_id);
            } else if i == p {
                assert(before[k - 1].customer_id != it.customer_id);
            } else {
                assert(before[i - 1].customer_id != before[k - 1].customer_id);
            }
        }
        assert forall|x: CustomerView| #[trigger] after.contains(x) implies (x == it || before.contains(x)) by {
            let i = choose|i: int| 0 <= i < after.len() && after[i] == x;
            if i < p {
                assert(before[i] == x);
            } else if i > p {
                assert(before[i - 1] == x);
            }
        }
        assert forall|x: CustomerView| (x == it || before.contains(x)) implies #[trigger] after.contains(x) by {
            if x == it {
                assert(after[p as int] == x);
            } else {
                let i = choose|i: int| 0 <= i < before.len() && before[i] == x;
                if i < p {
                    assert(after[i] == x);
                } else {
                    assert(after[i + 1] == x);
                }
            }
        }
        assert forall|i: int, k: int|
            0 <= i < k < after.len() && after[i].balance == after[k].balance implies registered_before(
                customers@,
                #[trigger] after[i],
                #[trigger] after[k],
            ) by {
            if k < p {
                assert(after[i] == before[i] && after[k] == before[k]);
            } else if k == p {
                assert(after[i] == before[i]);
                assert(before.contains(before[i]));
                let a = choose|a: int| 0 <= a < j@ && customers@[a] == before[i] && before[i].balance != 0;
                assert(customers@[a] == after[i] && customers@[j@] == after[k]);
            } else if i < p {
                assert(after[i] == before[i] && after[k] == before[k - 1]);
            } else if i == p {
                assert(after[k] == before[k - 1]);
                assert(before[p as int].balance < it.balance);
                assert(before[p as int].balance >= before[k - 1].balance);
            } else {
                assert(after[i] == before[i - 1] && after[k] == before[k - 1]);
            }
        }
    }
}

impl LedgerStore {
    pub open spec fn wf(&self) -> bool {
        self@.wf()
    }

    /// An empty store; the first entry gets ledger id 1.
    pub fn new() -> (r: LedgerStore)
        ensures
            r.wf(),
            r@.customers.len() == 0,
            r@.entries.len() == 0,
            r@.next_id == 1,
    {
        let r = LedgerStore { customers: Vec::new(), entries: Vec::new(), next_id: 1 };
        assert(r@.customers =~= Seq::<CustomerView>::empty());
        assert(r@.entries =~= Seq::<EntryView>::empty());
        r
    }

    /// Where customer `cid` stands, if it is registered.
    fn find_customer(&self, cid: &str) -> (r: Option<usize>)
        ensures
            match r {
                Some(i) => i < self@.customers.len() && self@.customers[i as int].customer_id
                    == cid@,
                None => !self@.has_customer(cid@),
            },
    {
        let mut i: usize = 0;
        while i < self.customers.len()
            invariant
                i <= self.customers@.len(),
                forall|k: int| 0 <= k < i ==> self@.customers[k].customer_id != cid@,
            decreases self.customers@.len() - i,
        {
            if same_text(self.customers[i].customer_id.as_str(), cid) {
                return Some(i);
            }
            i = i + 1;
        }
        None
    }

    /// Where the entry with ledger id `id` stands, if there is one.
    fn find_entry(&self, id: i32) -> (r: Option<usize>)
        requires
            self.wf(),
        ensures
            match r {
                Some(i) => i < self@.entries.len() && self@.position_of(id as int) == i
                    && self@.has_entry(id as int),
                None => !self@.has_entry(id as int),
            },
    {
        let mut i: usize = 0;
        while i < self.entries.len()
            invariant
                self.wf(),
                i <= self.entries@.len(),
                forall|k: int| 0 <= k < i ==> self@.entries[k].ledger_id != id,
            decreases self.entries@.len() - i,
        {
            if self.entries[i].ledger_id == id {
                assert(self@.entries[i as int].ledger_id == id as int);
                assert(self@.has_entry(id as int));
                let ghost p = self@.position_of(id as int);
                assert(self@.entries[p].ledger_id == self@.entries[i as int].ledger_id);
                return Some(i);
            }
            i = i + 1;
        }
        None
    }

    /// Adds `delta` to the balance of the customer at `i`.
    fn credit(&mut self, i: usize, delta: i64)
        requires
            i < old(self).customers@.len(),
            i64::MIN <= old(self).customers@[i as int].current_balance + delta <= i64::MAX,
            forall|a: int, b: int|
                0 <= a < old(self)@.customers.len() && 0 <= b < old(self)@.customers.len() && a
                    != b ==> #[trigger] old(self)@.customers[a].customer_id
                    != #[trigger] old(self)@.customers[b].customer_id,
        ensures
            final(self)@ == (LedgerView {
                customers: credited(
                    old(self)@.customers,
                    old(self)@.customers[i as int].customer_id,
                    delta as int,
                ),
                ..old(self)@
            }),
            final(self).entries == old(self).entries,
            final(self).next_id == old(self).next_id,
    {
        let ghost cid = self@.customers[i as int].customer_id;
        let new_balance = self.customers[i].current_balance + delta;
        self.customers[i].current_balance = new_balance;
        assert(self@.customers =~= credited(old(self)@.customers, cid, delta as int));
    }

    /// Appends an entry for `customer_id` whose amount is normalised from
    /// `transaction_type` and `raw_amount`, and adds that amount to the
    /// customer's balance in the same step. Returns the new ledger id. An
    /// unknown customer, or a store with no ledger id left, is refused and
    /// nothing changes.
    pub fn append(
        &mut self,
        customer_id: &str,
        transaction_date: CalendarDate,
        transaction_type: &str,
        raw_amount: i32,
        description: Option<String>,
    ) -> (r: Result<i32, LedgerError>)
        requires
            old(self).wf(),
            transaction_date.wf(),
        ensures
            final(self).wf(),
            old(self)@.can_append(customer_id@) ==> r == Ok::<i32, LedgerError>(
                old(self)@.next_id as i32,
            ) && final(self)@ == old(self)@.appended(
                customer_id@,
                transaction_date,
                transaction_type@,
                raw_amount as int,
                text_view(description),
            ),
            !old(self)@.can_append(customer_id@) ==> r == Err::<i32, LedgerError>(
                LedgerError::Storage,
            ) && final(self)@ == old(self)@,
    {
        let ci = match self.find_customer(customer_id) {
            Some(i) => i,
            None => return Err(LedgerError::Storage),
        };
        if self.next_id >= MAX_LEDGER_ID {
            return Err(LedgerError::Storage);
        }
        let amount = normalize(transaction_type, raw_amount);
        let id = self.next_id;
        let ghost before = self@;
        let ghost desc = text_view(description);
        proof {
            lemma_balance_bound(before, ci as int);
        }
        self.credit(ci, amount);
        self.entries.push(
            LedgerEntry {
                ledger_id: id,
                customer_id: customer_id.to_owned(),
                transaction_date,
                transaction_type: transaction_type.to_owned(),
                amount,
                description,
            },
        );
        self.next_id = id + 1;
        proof {
            let e = EntryView {
                ledger_id: id as int,
                customer_id: customer_id@,
                date: transaction_date,
                transaction_type: transaction_type@,
                amount: amount as int,
                description: desc,
            };
            let after = self@;
            assert(after.entries =~= before.entries.push(e));
            assert forall|c: Seq<char>| #[trigger]
                entry_total(after.entries, c) == entry_total(before.entries, c) + if c
                    == customer_id@ {
                    amount as int
                } else {
                    0
                } by {
                lemma_sum_push(before.entries, e, of_customer(c));
            }
            lemma_credit_consistent(before, after.entries, customer_id@, amount as int);
            assert(after.customers == credited(before.customers, customer_id@, amount as int));
            assert forall|i: int| 0 <= i < after.entries.len() implies after.has_customer(
                (#[trigger] after.entries[i]).customer_id,
            ) by {
                if i < before.entries.len() {
                    assert(after.entries[i] == before.entries[i]);
                    assert(before.has_customer(before.entries[i].customer_id));
                    let k = choose|k: int|
                        0 <= k < before.customers.len() && before.customers[k].customer_id
                            == before.entries[i].customer_id;
                    assert(after.customers[k].customer_id == before.customers[k].customer_id);
                } else {
                    assert(after.customers[ci as int].customer_id == customer_id@);
                }
            }
            assert forall|i: int, j: int|
                0 <= i < after.customers.len() && 0 <= j < after.customers.len() && i != j
                    implies #[trigger] after.customers[i].customer_id
                != #[trigger] after.customers[j].customer_id by {
                assert(after.customers[i].customer_id == before.customers[i].customer_id);
                assert(after.customers[j].customer_id == before.customers[j].customer_id);
            }
            assert forall|i: int, j: int|
                0 <= i < after.entries.len() && 0 <= j < after.entries.len() && i != j
                    implies #[trigger] after.entries[i].ledger_id
                != #[trigger] after.entries[j].ledger_id by {
                if i < before.entries.len() {
                    assert(after.entries[i] == before.entries[i]);
                }
                if j < before.entries.len() {
                    assert(after.entries[j] == before.entries[j]);
                }
            }
            assert(after == before.appended(
                customer_id@,
                transaction_date,
                transaction_type@,
                raw_amount as int,
                desc,
            ));
        }
        Ok(id)
    }

    /// The customer index of the entry at `ei`, which a well-formed store
    /// always has.
    fn owner_of(&self, ei: usize) -> (r: usize)
        requires
            self.wf(),
            ei < self@.entries.len(),
        ensures
            r < self@.customers.len(),
            self@.customers[r as int].customer_id == self@.entries[ei as int].customer_id,
    {
        let found = self.find_customer(self.entries[ei].customer_id.as_str());
        match found {
            Some(ci) => ci,
            None => {
                proof {
                    assert(self@.has_customer(self@.entries[ei as int].customer_id));
                }
                0
            },
        }
    }

    /// Replaces the date, type, amount and description of entry
    /// `ledger_id`, keeping its customer, and moves the customer's balance
    /// by the difference between the new normalised amount and the old one.
    /// An unknown ledger id is refused and nothing changes.
    pub fn amend(
        &mut self,
        ledger_id: i32,
        transaction_date: CalendarDate,
        transaction_type: &str,
        raw_amount: i32,
        description: Option<String>,
    ) -> (r: Result<(), LedgerError>)
        requires
            old(self).wf(),
            transaction_date.wf(),
        ensures
            final(self).wf(),
            old(self)@.has_entry(ledger_id as int) ==> r is Ok && final(self)@ == old(
                self,
            )@.amended(
                ledger_id as int,
                transaction_date,
                transaction_type@,
                raw_amount as int,
                text_view(description),
            ),
            !old(self)@.has_entry(ledger_id as int) ==> r == Err::<(), LedgerError>(
                LedgerError::NotFound,
            ) && final(self)@ == old(self)@,
    {
        let ei = match self.find_entry(ledger_id) {
            Some(i) => i,
            None => return Err(LedgerError::NotFound),
        };
        let ci = self.owner_of(ei);
        let amount = normalize(transaction_type, raw_amount);
        let old_amount = self.entries[ei].amount;
        let customer_id = self.entries[ei].customer_id.clone();
        let delta = amount - old_amount;
        let ghost before = self@;
        let ghost cid = before.entries[ei as int].customer_id;
        let ghost desc = text_view(description);
        proof {
            lemma_balance_bound(before, ci as int);
        }
        if delta != 0 {
            self.credit(ci, delta);
        } else {
            assert(credited(before.customers, cid, 0) =~= before.customers);
        }
        self.entries[ei] = LedgerEntry {
            ledger_id,
            customer_id,
            transaction_date,
            transaction_type: transaction_type.to_owned(),
            amount,
            description,
        };
        proof {
            let e = EntryView {
                ledger_id: ledger_id as int,
                customer_id: cid,
                date: transaction_date,
                transaction_type: transaction_type@,
                amount: amount as int,
                description: desc,
            };
            let after = self@;
            assert(after.entries =~= before.entries.update(ei as int, e));
            assert forall|c: Seq<char>| #[trigger]
                entry_total(after.entries, c) == entry_total(before.entries, c) + if c == cid {
                    delta as int
                } else {
                    0
                } by {
                lemma_sum_update(before.entries, ei as int, e, of_customer(c));
            }
            lemma_credit_consistent(before, after.entries, cid, delta as int);
            assert(after.customers == credited(before.customers, cid, delta as int));
            assert forall|i: int| 0 <= i < after.entries.len() implies after.has_customer(
                (#[trigger] after.entries[i]).customer_id,
            ) by {
                assert(after.entries[i].customer_id == before.entries[i].customer_id);
                assert(before.has_customer(before.entries[i].customer_id));
                let k = choose|k: int|
                    0 <= k < before.customers.len() && before.customers[k].customer_id
                        == before.entries[i].customer_id;
                assert(after.customers[k].customer_id == before.customers[k].customer_id);
            }
            assert forall|i: int, j: int|
                0 <= i < after.customers.len() && 0 <= j < after.customers.len() && i != j
                    implies #[trigger] after.customers[i].customer_id
                != #[trigger] after.customers[j].customer_id by {
                assert(after.customers[i].customer_id == before.customers[i].customer_id);
                assert(after.customers[j].customer_id == before.customers[j].customer_id);
            }
            assert forall|i: int, j: int|
                0 <= i < after.entries.len() && 0 <= j < after.entries.len() && i != j
                    implies #[trigger] after.entries[i].ledger_id
                != #[trigger] after.entries[j].ledger_id by {
                assert(after.entries[i].ledger_id == before.entries[i].ledger_id);
                assert(after.entries[j].ledger_id == before.entries[j].ledger_id);
            }
            assert(after == before.amended(
                ledger_id as int,
                transaction_date,
                transaction_type@,
                raw_amount as int,
                desc,
            ));
        }
        Ok(())
    }

    /// Removes entry `ledger_id` and takes its amount back out of the
    /// customer's balance. An unknown ledger id is refused and nothing
    /// changes.
    pub fn remove(&mut self, ledger_id: i32) -> (r: Result<(), LedgerError>)
        requires
            old(self).wf(),
        ensures
            final(self).wf(),
            old(self)@.has_entry(ledger_id as int) ==> r is Ok && final(self)@ == old(
                self,
            )@.removed(ledger_id as int),
            !old(self)@.has_entry(ledger_id as int) ==> r == Err::<(), LedgerError>(
                LedgerError::NotFound,
            ) && final(self)@ == old(self)@,
    {
        let ei = match self.find_entry(ledger_id) {
            Some(i) => i,
            None => return Err(LedgerError::NotFound),
        };
        let ci = self.owner_of(ei);
        let amount = self.entries[ei].amount;
        let ghost before = self@;
        let ghost cid = before.entries[ei as int].customer_id;
        proof {
            lemma_balance_bound(before, ci as int);
        }
        self.credit(ci, -amount);
        let _ = self.entries.remove(ei);
        proof {
            let after = self@;
            assert(after.entries =~= before.entries.remove(ei as int));
            assert forall|c: Seq<char>| #[trigger]
                entry_total(after.entries, c) == entry_total(before.entries, c) + if c == cid {
                    -amount as int
                } else {
                    0
                } by {
                lemma_sum_remove(before.entries, ei as int, of_customer(c));
            }
            lemma_credit_consistent(before, after.entries, cid, -amount as int);
            assert(after.customers == credited(before.customers, cid, -amount as int));
            assert forall|i: int| 0 <= i < after.entries.len() implies after.has_customer(
                (#[trigger] after.entries[i]).customer_id,
            ) by {
                let src = if i < ei { i } else { i + 1 };
                assert(after.entries[i] == before.entries[src]);
                assert(before.has_customer(before.entries[src].customer_id));
                let k = choose|k: int|
                    0 <= k < before.customers.len() && before.customers[k].customer_id
                        == before.entries[src].customer_id;
                assert(after.customers[k].customer_id == before.customers[k].customer_id);
            }
            assert forall|i: int, j: int|
                0 <= i < after.customers.len() && 0 <= j < after.customers.len() && i != j
                    implies #[trigger] after.customers[i].customer_id
                != #[trigger] after.customers[j].customer_id by {
                assert(after.customers[i].customer_id == before.customers[i].customer_id);
                assert(after.customers[j].customer_id == before.customers[j].customer_id);
            }
            assert forall|i: int, j: int|
                0 <= i < after.entries.len() && 0 <= j < after.entries.len() && i != j
                    implies #[trigger] after.entries[i].ledger_id
                != #[trigger] after.entries[j].ledger_id by {
                let si = if i < ei { i } else { i + 1 };
                let sj = if j < ei { j } else { j + 1 };
                assert(after.entries[i] == before.entries[si]);
                assert(after.entries[j] == before.entries[sj]);
            }
            assert forall|i: int| 0 <= i < after.entries.len() implies 1 <= #[trigger] after.entries[i].ledger_id
                < after.next_id && after.entries[i].date.wf() && -0x8000_0000
                <= after.entries[i].amount <= 0x8000_0000 by {
                let si = if i < ei { i } else { i + 1 };
                assert(after.entries[i] == before.entries[si]);
            }
            assert(after == before.removed(ledger_id as int));
        }
        Ok(())
    }

    /// The running balance of the entry at `ei`, summed over all entries.
    fn running_balance_at(&self, ei: usize) -> (r: i64)
        requires
            self.wf(),
            ei < self@.entries.len(),
        ensures
            r == running_total(self@.entries, self@.entries[ei as int]),
    {
        let ghost v = self@;
        let ghost pred = up_to(v.entries[ei as int]);
        let key = self.entries[ei].transaction_date.sort_key();
        let id = self.entries[ei].ledger_id;
        let cid = self.entries[ei].customer_id.as_str();
        let mut total: i64 = 0;
        let mut k: usize = 0;
        while k < self.entries.len()
            invariant
                self.wf(),
                v == self@,
                ei < v.entries.len(),
                pred == up_to(v.entries[ei as int]),
                key == v.entries[ei as int].date.ordinal(),
                id == v.entries[ei as int].ledger_id,
                cid@ == v.entries[ei as int].customer_id,
                k <= v.entries.len(),
                total == sum_where(v.entries.take(k as int), pred),
                -0x8000_0000 * k <= total <= 0x8000_0000 * k,
            decreases v.entries.len() - k,
        {
            let f = &self.entries[k];
            let fkey = f.transaction_date.sort_key();
            proof {
                lemma_sum_take(v.entries, k as int, pred);
                assert(v.entries[k as int] == f@);
            }
            if same_text(f.customer_id.as_str(), cid) && (fkey < key || (fkey == key
                && f.ledger_id <= id)) {
                total = total + f.amount;
            }
            k = k + 1;
        }
        assert(v.entries.take(v.entries.len() as int) =~= v.entries);
        total
    }

    /// The entry at `ei` with its running balance.
    fn annotate(&self, ei: usize) -> (r: AnnotatedEntry)
        requires
            self.wf(),
            ei < self@.entries.len(),
        ensures
            r@ == annotated(self@.entries, self@.entries[ei as int]),
    {
        let running_balance = self.running_balance_at(ei);
        let e = &self.entries[ei];
        AnnotatedEntry {
            ledger_id: e.ledger_id,
            customer_id: e.customer_id.clone(),
            transaction_date: e.transaction_date,
            transaction_type: e.transaction_type.clone(),
            amount: e.amount,
            description: copy_text(&e.description),
            running_balance,
        }
    }

    /// The statement of `customer_id`: its entries, restricted to `range`
    /// when one is given (both ends included), newest first (by date, then
    /// by ledger id), each with the running balance of the customer's whole
    /// history up to and including it. Empty when nothing is shown.
    pub fn statement(&self, customer_id: &str, range: Option<(CalendarDate, CalendarDate)>) -> (r:
        Vec<AnnotatedEntry>)
        requires
            self.wf(),
        ensures
            is_statement(self@, customer_id@, range, views_of(r@)),
    {
        let ghost v = self@;
        let mut out: Vec<AnnotatedEntry> = Vec::new();
        let mut j: usize = 0;
        while j < self.entries.len()
            invariant
                self.wf(),
                v == self@,
                j <= v.entries.len(),
                forall|x: AnnotatedView|
                    #[trigger] views_of(out@).contains(x) ==> exists|jj: int|
                        0 <= jj < j && shown(v.entries[jj], customer_id@, range) && x == annotated(
                            v.entries,
                            v.entries[jj],
                        ),
                forall|jj: int|
                    0 <= jj < j && #[trigger] shown(v.entries[jj], customer_id@, range)
                        ==> views_of(out@).contains(annotated(v.entries, v.entries[jj])),
                newest_first(views_of(out@)),
            decreases v.entries.len() - j,
        {
            let e = &self.entries[j];
            let in_range = match &range {
                None => true,
                Some((start, end)) => e.transaction_date.within(start, end),
            };
            if same_text(e.customer_id.as_str(), customer_id) && in_range {
                let item = self.annotate(j);
                let ghost before = views_of(out@);
                proof {
                    assert forall|i: int| 0 <= i < out@.len() implies #[trigger] out@[i]@.entry.ledger_id
                        != item@.entry.ledger_id by {
                        assert(before[i] == out@[i]@);
                        assert(before.contains(before[i]));
                        let jj = choose|jj: int|
                            0 <= jj < j && shown(v.entries[jj], customer_id@, range) && before[i]
                                == annotated(v.entries, v.entries[jj]);
                        assert(v.entries[jj].ledger_id != v.entries[j as int].ledger_id);
                    }
                }
                insert_newest_first(&mut out, item);
                proof {
                    let after = views_of(out@);
                    assert forall|x: AnnotatedView| #[trigger] after.contains(x) implies exists|jj: int|
                        0 <= jj < j + 1 && shown(v.entries[jj], customer_id@, range) && x == annotated(
                            v.entries,
                            v.entries[jj],
                        ) by {
                        if x != annotated(v.entries, v.entries[j as int]) {
                            assert(before.contains(x));
                        }
                    }
                }
            }
            j = j + 1;
        }
        out
    }

    /// Every customer with a non-zero balance, once each, largest balance
    /// first; prepaid (negative) balances come last, and customers with
    /// equal balances come in the order they were registered.
    pub fn debtors(&self) -> (r: Vec<Customer>)
        requires
            self.wf(),
        ensures
            is_debtor_list(self@, customer_views(r@)),
    {
        let ghost v = self@;
        let mut out: Vec<Customer> = Vec::new();
        let mut j: usize = 0;
        while j < self.customers.len()
            invariant
                self.wf(),
                v == self@,
                j <= v.customers.len(),
                forall|x: CustomerView|
                    #[trigger] customer_views(out@).contains(x) ==> exists|k: int|
                        0 <= k < j && v.customers[k] == x && x.balance != 0,
                forall|k: int|
                    0 <= k < j && #[trigger] v.customers[k].balance != 0
                        ==> customer_views(out@).contains(v.customers[k]),
                distinct_customers(customer_views(out@)),
                by_balance_descending(customer_views(out@)),
                ties_in_registration_order(v.customers, customer_views(out@)),
            decreases v.customers.len() - j,
        {
            let c = &self.customers[j];
            if c.current_balance != 0 {
                let item = Customer { customer_id: c.customer_id.clone(), current_balance: c.current_balance };
                let ghost before = customer_views(out@);
                proof {
                    assert(item@ == v.customers[j as int]);
                    assert forall|i: int| 0 <= i < out@.len() implies #[trigger] out@[i]@.customer_id
                        != item@.customer_id by {
                        assert(before[i] == out@[i]@);
                        assert(before.contains(before[i]));
                        let k = choose|k: int| 0 <= k < j && v.customers[k] == before[i] && before[i].balance != 0;
                        assert(v.customers[k].customer_id != v.customers[j as int].customer_id);
                    }
                }
                insert_by_balance(&mut out, item, Ghost(v.customers), Ghost(j as int));
                proof {
                    let after = customer_views(out@);
                    assert forall|x: CustomerView| #[trigger] after.contains(x) implies exists|k: int|
                        0 <= k < j + 1 && v.customers[k] == x && x.balance != 0 by {
                        if x != v.customers[j as int] {
                            assert(before.contains(x));
                        }
                    }
                }
            }
            j = j + 1;
        }
        proof {
            let rv = customer_views(out@);
            assert forall|x: CustomerView| #[trigger] rv.contains(x) implies v.customers.contains(x) && x.balance != 0 by {
                let k = choose|k: int| 0 <= k < v.customers.len() && v.customers[k] == x && x.balance != 0;
            }
        }
        out
    }

    /// Whether an entry with ledger id `id` exists.
    pub fn contains_entry(&self, id: i32) -> (r: bool)
        requires
            self.wf(),
        ensures
            r == self@.has_entry(id as int),
    {
        self.find_entry(id).is_some()
    }

    /// The cached balance of `customer_id`, if it is registered.
    pub fn balance_of(&self, customer_id: &str) -> (r: Option<i64>)
        ensures
            match r {
                Some(b) => exists|i: int|
                    0 <= i < self@.customers.len() && self@.customers[i].customer_id
                        == customer_id@ && self@.customers[i].balance == b,
                None => !self@.has_customer(customer_id@),
            },
    {
        match self.find_customer(customer_id) {
            Some(i) => Some(self.customers[i].current_balance),
            None => None,
        }
    }

    /// How many entries the store holds.
    pub fn entry_count(&self) -> (r: usize)
        ensures
            r == self@.entries.len(),
    {
        self.entries.len()
    }

    /// Registers a customer with a zero balance. A customer id that is
    /// already registered is refused.
    pub fn add_customer(&mut self, customer_id: &str) -> (r: Result<(), LedgerError>)
        requires
            old(self).wf(),
        ensures
            final(self).wf(),
            old(self)@.has_customer(customer_id@) ==> r == Err::<(), LedgerError>(
                LedgerError::Storage,
            ) && final(self)@ == old(self)@,
            !old(self)@.has_customer(customer_id@) ==> r is Ok && final(self)@ == (LedgerView {
                customers: old(self)@.customers.push(
                    CustomerView { customer_id: customer_id@, balance: 0 },
                ),
                ..old(self)@
            }),
    {
        match self.find_customer(customer_id) {
            Some(_) => Err(LedgerError::Storage),
            None => {
                let ghost before = self@;
                // The new customer has no entries yet.
                proof {
                    lemma_no_entries(before.entries, customer_id@);
                }
                self.customers.push(
                    Customer { customer_id: customer_id.to_owned(), current_balance: 0 },
                );
                assert(self@.customers =~= before.customers.push(
                    CustomerView { customer_id: customer_id@, balance: 0 },
                ));
                assert(self@.entries =~= before.entries);
                proof {
                    let after = self@;
                    assert forall|i: int| 0 <= i < after.entries.len() implies after.has_customer(
                        (#[trigger] after.entries[i]).customer_id,
                    ) by {
                        assert(before.has_customer(before.entries[i].customer_id));
                        let k = choose|k: int|
                            0 <= k < before.customers.len() && before.customers[k].customer_id
                                == before.entries[i].customer_id;
                        assert(after.customers[k] == before.customers[k]);
                    }
                    assert forall|i: int|
                        0 <= i < after.customers.len() implies #[trigger] after.customers[i].balance
                        == entry_total(after.entries, after.customers[i].customer_id) by {
                        if i < before.customers.len() {
                            assert(after.customers[i] == before.customers[i]);
                        }
                    }
                    assert forall|i: int, j: int|
                        0 <= i < after.customers.len() && 0 <= j < after.customers.len() && i != j
                            implies #[trigger] after.customers[i].customer_id
                        != #[trigger] after.customers[j].customer_id by {
                        if i < before.customers.len() && j < before.customers.len() {
                            assert(after.customers[i] == before.customers[i]);
                            assert(after.customers[j] == before.customers[j]);
                        } else if i < before.customers.len() {
                            assert(after.customers[i] == before.customers[i]);
                        } else if j < before.customers.len() {
                            assert(after.customers[j] == before.customers[j]);
                        }
                    }
                }
                Ok(())
            },
        }
    }
}

} // verus!
