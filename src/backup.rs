//! Backup files: their names, when a daily backup is due, which old files
//! the rotation removes, and how the age of a backup is shown. Reading the
//! directories and copying files is the caller's part.

use vstd::prelude::*;

use crate::text::{has_prefix, has_suffix};

verus! {

/// Options of a backup run started by hand.
#[derive(Clone, Copy, Debug, Default)]
pub struct RunBackupPayload {
    pub is_incremental: bool,
    pub use_compression: bool,
}

/// The backup file to restore from.
#[derive(Clone, Debug)]
pub struct RestorePayload {
    pub path: String,
}

/// How many months of logs to keep when old logs are cleaned up.
#[derive(Clone, Copy, Debug)]
pub struct CleanupPayload {
    pub months: i32,
}

/// The external directory that backups are copied to.
#[derive(Clone, Debug)]
pub struct SavePathPayload {
    pub path: String,
}

/// The two rotations of backup files.
#[derive(Clone, Copy, Debug, PartialEq, Eq, Structural)]
pub enum BackupKind {
    /// Made after changes, named `auto_backup_*`; the newest 30 are kept.
    Auto,
    /// Made once a day, named `daily_backup_*`; the newest 90 are kept.
    Daily,
}

pub open spec fn prefix_of_kind(kind: BackupKind) -> Seq<char> {
    match kind {
        BackupKind::Auto => "auto_backup_"@,
        BackupKind::Daily => "daily_backup_"@,
    }
}

pub open spec fn kept_of_kind(kind: BackupKind) -> nat {
    match kind {
        BackupKind::Auto => 30,
        BackupKind::Daily => 90,
    }
}

/// Whether `name` is a backup file of `kind`: its prefix, and a `.sql` or
/// `.gz` ending.
pub open spec fn is_backup_name(name: Seq<char>, kind: BackupKind) -> bool {
    prefix_of_kind(kind).is_prefix_of(name) && (".sql"@.is_suffix_of(name)
        || ".gz"@.is_suffix_of(name))
}

/// Whether `a` sorts before `b`, character by character.
pub open spec fn text_before(a: Seq<char>, b: Seq<char>) -> bool
    decreases a.len(),
{
    if a.len() == 0 {
        b.len() > 0
    } else if b.len() == 0 {
        false
    } else if a[0] != b[0] {
        (a[0] as u32) < (b[0] as u32)
    } else {
        text_before(a.drop_first(), b.drop_first())
    }
}

/// How many backup files of `kind` among `names` sort after `x`.
pub open spec fn newer_count(names: Seq<Seq<char>>, x: Seq<char>, kind: BackupKind) -> nat
    decreases names.len(),
{
    if names.len() == 0 {
        0
    } else {
        newer_count(names.drop_last(), x, kind) + if is_backup_name(names.last(), kind)
            && text_before(x, names.last()) {
            1nat
        } else {
            0nat
        }
    }
}

/// Whether the rotation removes `x`: a backup file of `kind` with at least
/// as many newer ones as the rotation keeps.
pub open spec fn rotated_out(names: Seq<Seq<char>>, x: Seq<char>, kind: BackupKind) -> bool {
    is_backup_name(x, kind) && newer_count(names, x, kind) >= kept_of_kind(kind)
}

pub open spec fn name_views(names: Seq<String>) -> Seq<Seq<char>> {
    names.map_values(|s: String| s@)
}

/// Whether `name` is a backup file of `kind`.
pub fn is_backup_file(name: &str, kind: BackupKind) -> (r: bool)
    ensures
        r == is_backup_name(name@, kind),
{
    let prefix = match kind {
        BackupKind::Auto => "auto_backup_",
        BackupKind::Daily => "daily_backup_",
    };
    has_prefix(name, prefix) && (has_suffix(name, ".sql") || has_suffix(name, ".gz"))
}

/// Whether `a` sorts before `b`, character by character; for UTF-8 text
/// this is the order of its bytes.
pub fn sorts_before(a: &str, b: &str) -> (r: bool)
    ensures
        r == text_before(a@, b@),
{
    let na = a.unicode_len();
    let nb = b.unicode_len();
    let mut i: usize = 0;
    assert(a@.subrange(0, na as int) =~= a@);
    assert(b@.subrange(0, nb as int) =~= b@);
    while i < na && i < nb
        invariant
            na == a@.len(),
            nb == b@.len(),
            i <= na,
            i <= nb,
            text_before(a@, b@) == text_before(
                a@.subrange(i as int, na as int),
                b@.subrange(i as int, nb as int),
            ),
        decreases na - i,
    {
        let ca = a.get_char(i);
        let cb = b.get_char(i);
        let ghost ra = a@.subrange(i as int, na as int);
        let ghost rb = b@.subrange(i as int, nb as int);
        assert(ra[0] == ca && rb[0] == cb);
        if ca != cb {
            return (ca as u32) < (cb as u32);
        }
        assert(ra.drop_first() =~= a@.subrange(i + 1, na as int));
        assert(rb.drop_first() =~= b@.subrange(i + 1, nb as int));
        i = i + 1;
    }
    i == na && i < nb
}

proof fn lemma_newer_count_take(names: Seq<Seq<char>>, x: Seq<char>, kind: BackupKind, k: int)
    requires
        0 <= k < names.len(),
    ensures
        newer_count(names.take(k + 1), x, kind) == newer_count(names.take(k), x, kind) + if is_backup_name(
            names[k],
            kind,
        ) && text_before(x, names[k]) {
            1nat
        } else {
            0nat
        },
{
    assert(names.take(k + 1).drop_last() =~= names.take(k));
}

/// How many backup files of `kind` among `names` sort after `x`.
fn count_newer(names: &Vec<String>, x: &str, kind: BackupKind) -> (r: usize)
    ensures
        r == newer_count(name_views(names@), x@, kind),
{
    let ghost all = name_views(names@);
    let mut count: usize = 0;
    let mut k: usize = 0;
    while k < names.len()
        invariant
            all == name_views(names@),
            k <= names@.len(),
            count <= k,
            count == newer_count(all.take(k as int), x@, kind),
        decreases names@.len() - k,
    {
        proof {
            lemma_newer_count_take(all, x@, kind, k as int);
        }
        let y = names[k].as_str();
        if is_backup_file(y, kind) && sorts_before(x, y) {
            count = count + 1;
        }
        k = k + 1;
    }
    assert(all.take(names@.len() as int) =~= all);
    count
}

/// The files the rotation of `kind` removes from a directory holding
/// `names`: every backup file of that kind but the newest 30 (automatic)
/// or 90 (daily), newest meaning last in name order, since the names carry
/// their date. Listed in the order of `names`.
pub fn rotated_out_files(names: &Vec<String>, kind: BackupKind) -> (r: Vec<String>)
    ensures
        name_views(r@) == name_views(names@).filter(
            |x: Seq<char>| rotated_out(name_views(names@), x, kind),
        ),
{
    let ghost all = name_views(names@);
    let ghost pred = |x: Seq<char>| rotated_out(all, x, kind);
    let keep: usize = match kind {
        BackupKind::Auto => 30,
        BackupKind::Daily => 90,
    };
    let mut out: Vec<String> = Vec::new();
    let mut i: usize = 0;
    while i < names.len()
        invariant
            all == name_views(names@),
            pred == (|x: Seq<char>| rotated_out(all, x, kind)),
            keep == kept_of_kind(kind),
            i <= names@.len(),
            name_views(out@) == all.take(i as int).filter(pred),
        decreases names@.len() - i,
    {
        let x = names[i].as_str();
        proof {
            assert(all.take(i + 1) =~= all.take(i as int).push(all[i as int]));
            all.take(i as int).lemma_filter_push(all[i as int], pred);
        }
        if is_backup_file(x, kind) && count_newer(names, x, kind) >= keep {
            let ghost before = out@;
            out.push(names[i].clone());
            assert(name_views(out@) =~= name_views(before).push(all[i as int]));
        }
        i = i + 1;
    }
    assert(all.take(names@.len() as int) =~= all);
    out
}

/// Whether the daily backup is to be made: always when asked for by hand,
/// otherwise only when today's file does not exist yet.
pub fn daily_backup_due(force: bool, todays_file_exists: bool) -> (r: bool)
    ensures
        r == (force || !todays_file_exists),
{
    force || !todays_file_exists
}

/// The daily backup file name for `today` (as "YYYYMMDD"):
/// `daily_backup_<today>.json.gz`, or `.json` without compression.
pub fn daily_backup_file_name(today: &str, use_compression: bool) -> (r: String)
    ensures
        r@ == "daily_backup_"@ + today@ + if use_compression {
            ".json.gz"@
        } else {
            ".json"@
        },
{
    let mut name = "daily_backup_".to_owned();
    name.append(today);
    if use_compression {
        name.append(".json.gz");
    } else {
        name.append(".json");
    }
    name
}

/// The automatic backup file name for `timestamp` (as "YYYYMMDD_HHMMSS").
pub fn auto_backup_file_name(timestamp: &str) -> (r: String)
    ensures
        r@ == "auto_backup_"@ + timestamp@ + ".json.gz"@,
{
    let mut name = "auto_backup_".to_owned();
    name.append(timestamp);
    name.append(".json.gz");
    name
}

/// The decimal digits of `n`, with a leading minus sign when negative.
pub open spec fn decimal(n: int) -> Seq<char>
    decreases (if n < 0 { -n + 1 } else { n }),
{
    if n < 0 {
        seq!['-'] + decimal(-n)
    } else if n < 10 {
        seq![(n + '0' as u32) as char]
    } else {
        decimal(n / 10) + seq![((n % 10) + '0' as u32) as char]
    }
}

/// Relies on the decimal `Display` of `i64`, through `ToString`.
#[verifier::external_body]
pub(crate) fn decimal_text(n: i64) -> (r: String)
    ensures
        r@ == decimal(n as int),
{
    n.to_string()
}

/// How long ago a backup was made, shown in the largest whole unit below
/// the next one: seconds under a minute, minutes under an hour, hours
/// under a day, days otherwise.
pub open spec fn age_label_spec(seconds: int) -> Seq<char> {
    if seconds < 60 {
        decimal(seconds) + "초 전"@
    } else if seconds / 60 < 60 {
        decimal(seconds / 60) + "분 전"@
    } else if seconds / 3600 < 24 {
        decimal(seconds / 3600) + "시간 전"@
    } else {
        decimal(seconds / 86400) + "일 전"@
    }
}

/// The age of a backup made `seconds` ago, as the backup list shows it.
pub fn age_label(seconds: i64) -> (r: String)
    ensures
        r@ == age_label_spec(seconds as int),
{
    let (amount, unit) = if seconds < 60 {
        (seconds, "초 전")
    } else if seconds / 60 < 60 {
        (seconds / 60, "분 전")
    } else if seconds / 3600 < 24 {
        (seconds / 3600, "시간 전")
    } else {
        (seconds / 86400, "일 전")
    };
    let mut label = decimal_text(amount);
    label.append(unit);
    label
}

} // verus!
