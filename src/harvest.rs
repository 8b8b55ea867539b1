//! Recording a harvest: which steps the save takes, and the inventory log
//! texts it writes. Running the steps in one transaction is the caller's
//! part.

use vstd::prelude::*;

use crate::backup::{decimal, decimal_text};

verus! {

/// The steps of saving one harvest record.
#[derive(Clone, Copy, Debug, PartialEq, Eq, Structural)]
pub struct HarvestSavePlan {
    /// Rewrite the stored record instead of inserting a new one.
    pub update_existing: bool,
    /// Add the harvested quantity to the product's stock and log it.
    pub add_to_stock: bool,
    /// Mark the production batch completed on the harvest date.
    pub complete_batch: bool,
}

/// The steps for a record with id `harvest_id` (0 for a new record): a
/// positive id is rewritten, anything else inserted; only a new record
/// (id 0) adds to the stock; the batch is closed only when asked.
pub fn plan_harvest_save(harvest_id: i32, complete_batch: Option<bool>) -> (r: HarvestSavePlan)
    ensures
        r.update_existing == (harvest_id > 0),
        r.add_to_stock == (harvest_id == 0),
        r.complete_batch == (complete_batch == Some(true)),
{
    HarvestSavePlan {
        update_existing: harvest_id > 0,
        add_to_stock: harvest_id == 0,
        complete_batch: match complete_batch {
            Some(b) => b,
            None => false,
        },
    }
}

/// The inventory log memo of a single harvest of batch `batch_code`.
pub fn harvest_memo(batch_code: &str) -> (r: String)
    ensures
        r@ == "수확 입고 (배치: "@ + batch_code@ + ")"@,
{
    let mut memo = "수확 입고 (배치: ".to_owned();
    memo.append(batch_code);
    memo.append(")");
    memo
}

/// The inventory log memo of a harvest saved among several at once.
pub fn batch_harvest_memo(batch_code: &str) -> (r: String)
    ensures
        r@ == "수확 입고(일괄): "@ + batch_code@,
{
    let mut memo = "수확 입고(일괄): ".to_owned();
    memo.append(batch_code);
    memo
}

/// The inventory log reference of a single harvest.
pub fn harvest_reference(batch_code: &str) -> (r: String)
    ensures
        r@ == "HARVEST_"@ + batch_code@,
{
    let mut reference = "HARVEST_".to_owned();
    reference.append(batch_code);
    reference
}

/// The inventory log reference of a harvest saved among several at once,
/// made distinct by the time of saving (seconds since the Unix epoch).
pub fn batch_harvest_reference(batch_code: &str, timestamp: i64) -> (r: String)
    ensures
        r@ == "HARVEST_"@ + batch_code@ + "_"@ + decimal(timestamp as int),
{
    let mut reference = harvest_reference(batch_code);
    reference.append("_");
    let digits = decimal_text(timestamp);
    reference.append(digits.as_str());
    reference
}

} // verus!
