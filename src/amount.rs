//! Transaction labels and the sign convention attached to each of them.

use vstd::prelude::*;

verus! {

/// The sign rule that a transaction label selects.
#[derive(Clone, Copy, Debug, PartialEq, Eq, Structural)]
pub enum TransactionKind {
    /// "입금": a payment received, always lowers the balance.
    Payment,
    /// "이월": a balance carried over, always raises the balance.
    CarryOver,
    /// "매출": a sale, always raises the balance.
    Sale,
    /// "반품": goods returned, always lowers the balance.
    Return,
    /// "매출취소": a cancelled sale, always lowers the balance.
    SaleCancel,
    /// Any other label: the amount is kept with the sign the caller gave.
    Adjustment,
}

pub open spec fn abs(x: int) -> int {
    if x < 0 { -x } else { x }
}

/// The kind that a label selects; unknown labels are adjustments.
pub open spec fn kind_of(label: Seq<char>) -> TransactionKind {
    if label == "입금"@ {
        TransactionKind::Payment
    } else if label == "이월"@ {
        TransactionKind::CarryOver
    } else if label == "매출"@ {
        TransactionKind::Sale
    } else if label == "반품"@ {
        TransactionKind::Return
    } else if label == "매출취소"@ {
        TransactionKind::SaleCancel
    } else {
        TransactionKind::Adjustment
    }
}

/// The signed amount that a raw amount of the given kind contributes.
pub open spec fn signed_amount(kind: TransactionKind, raw: int) -> int {
    match kind {
        TransactionKind::Payment | TransactionKind::Return | TransactionKind::SaleCancel => -abs(raw),
        TransactionKind::CarryOver | TransactionKind::Sale => abs(raw),
        TransactionKind::Adjustment => raw,
    }
}

/// The amount stored for a label and a raw amount.
pub open spec fn normalized(label: Seq<char>, raw: int) -> int {
    signed_amount(kind_of(label), raw)
}

/// Whether two texts hold the same characters.
pub fn same_text(a: &str, b: &str) -> (r: bool)
    ensures
        r == (a@ == b@),
{
    a.to_owned() == b.to_owned()
}

/// Reads the sign rule out of a transaction label.
pub fn classify(label: &str) -> (k: TransactionKind)
    ensures
        k == kind_of(label@),
{
    if same_text(label, "입금") {
        TransactionKind::Payment
    } else if same_text(label, "이월") {
        TransactionKind::CarryOver
    } else if same_text(label, "매출") {
        TransactionKind::Sale
    } else if same_text(label, "반품") {
        TransactionKind::Return
    } else if same_text(label, "매출취소") {
        TransactionKind::SaleCancel
    } else {
        TransactionKind::Adjustment
    }
}

impl TransactionKind {
    /// Applies this kind's sign rule to a raw amount.
    pub fn apply(self, raw_amount: i32) -> (r: i64)
        ensures
            r == signed_amount(self, raw_amount as int),
    {
        let raw = raw_amount as i64;
        let magnitude: i64 = if raw < 0 { -raw } else { raw };
        match self {
            TransactionKind::Payment | TransactionKind::Return | TransactionKind::SaleCancel => -magnitude,
            TransactionKind::CarryOver | TransactionKind::Sale => magnitude,
            TransactionKind::Adjustment => raw,
        }
    }
}

/// The signed amount stored for a transaction label and a raw amount:
/// payments, returns and cancelled sales are negative, carry-overs and
/// sales positive, whatever the sign of the raw amount; any other label
/// keeps the raw amount as given.
pub fn normalize(transaction_type: &str, raw_amount: i32) -> (r: i64)
    ensures
        r == normalized(transaction_type@, raw_amount as int),
        -0x8000_0000 <= r <= 0x8000_0000,
{
    classify(transaction_type).apply(raw_amount)
}

} // verus!
