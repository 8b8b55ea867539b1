//! The text of the farming-log report: work type labels and the numbering
//! of the photos it refers to. Drawing the pages is the caller's part.

use vstd::prelude::*;

use crate::backup::{decimal, decimal_text};

verus! {

/// The label a work type code is shown with, if it has one.
pub open spec fn work_type_label_spec(code: Seq<char>) -> Option<Seq<char>> {
    if code == "plant"@ {
        Some("식재/종균접종"@)
    } else if code == "water"@ {
        Some("관수/영양제"@)
    } else if code == "fertilize"@ {
        Some("비료/시비"@)
    } else if code == "pesticide"@ {
        Some("방제/약제"@)
    } else if code == "harvest"@ {
        Some("수확/채취"@)
    } else if code == "process"@ {
        Some("가공/포장"@)
    } else if code == "clean"@ {
        Some("청소/소독"@)
    } else if code == "inspect"@ {
        Some("점검/예찰"@)
    } else if code == "education"@ {
        Some("교육/훈련"@)
    } else {
        None
    }
}

fn same(a: &str, b: &str) -> (r: bool)
    ensures
        r == (a@ == b@),
{
    a.to_owned() == b.to_owned()
}

fn known_label(code: &str) -> (r: Option<&'static str>)
    ensures
        match work_type_label_spec(code@) {
            Some(l) => r matches Some(x) && x@ == l,
            None => r is None,
        },
{
    if same(code, "plant") {
        Some("식재/종균접종")
    } else if same(code, "water") {
        Some("관수/영양제")
    } else if same(code, "fertilize") {
        Some("비료/시비")
    } else if same(code, "pesticide") {
        Some("방제/약제")
    } else if same(code, "harvest") {
        Some("수확/채취")
    } else if same(code, "process") {
        Some("가공/포장")
    } else if same(code, "clean") {
        Some("청소/소독")
    } else if same(code, "inspect") {
        Some("점검/예찰")
    } else if same(code, "education") {
        Some("교육/훈련")
    } else {
        None
    }
}

/// How a work type is shown: its label, or the code itself when it has
/// none.
pub fn work_type_label(code: &str) -> (r: String)
    ensures
        r@ == match work_type_label_spec(code@) {
            Some(l) => l,
            None => code@,
        },
{
    match known_label(code) {
        Some(l) => l.to_owned(),
        None => code.to_owned(),
    }
}

pub open spec fn texts(s: Seq<String>) -> Seq<Seq<char>> {
    s.map_values(|t: String| t@)
}

fn contains_text(list: &Vec<String>, x: &str) -> (r: bool)
    ensures
        r == texts(list@).contains(x@),
{
    let mut i: usize = 0;
    while i < list.len()
        invariant
            i <= list@.len(),
            forall|k: int| 0 <= k < i ==> texts(list@)[k] != x@,
        decreases list@.len() - i,
    {
        if same(list[i].as_str(), x) {
            assert(texts(list@)[i as int] == x@);
            return true;
        }
        i = i + 1;
    }
    false
}

/// The photos a report shows, in the order they are first referred to,
/// each once; the photo at position `i` carries the number `i + 1`.
pub fn numbered_photos(paths: &Vec<String>) -> (r: Vec<String>)
    ensures
        texts(r@) == texts(paths@).remove_duplicates(Seq::empty()),
{
    let ghost all = texts(paths@);
    let mut out: Vec<String> = Vec::new();
    let mut i: usize = 0;
    assert(all.skip(0) =~= all);
    while i < paths.len()
        invariant
            all == texts(paths@),
            i <= paths@.len(),
            all.remove_duplicates(Seq::empty()) == all.skip(i as int).remove_duplicates(
                texts(out@),
            ),
        decreases paths@.len() - i,
    {
        let p = paths[i].as_str();
        let ghost rest = all.skip(i as int);
        assert(rest[0] == p@);
        assert(rest.skip(1) =~= all.skip(i + 1));
        if !contains_text(&out, p) {
            let ghost before = texts(out@);
            out.push(paths[i].clone());
            assert(texts(out@) =~= before + seq![p@]);
        }
        i = i + 1;
    }
    assert(all.skip(paths@.len() as int) =~= Seq::<Seq<char>>::empty());
    out
}

/// `n1, n2, ...`: the numbers in decimal, separated by a comma and a space.
pub open spec fn joined_numbers(numbers: Seq<i64>) -> Seq<char>
    decreases numbers.len(),
{
    if numbers.len() == 0 {
        Seq::empty()
    } else if numbers.len() == 1 {
        decimal(numbers[0] as int)
    } else {
        joined_numbers(numbers.drop_last()) + ", "@ + decimal(numbers.last() as int)
    }
}

/// The note added to a log entry that refers to photos:
/// ` (증 n1, n2, ...)`, or nothing when it refers to none.
pub fn photo_note(numbers: &Vec<i64>) -> (r: String)
    ensures
        r@ == if numbers@.len() == 0 {
            Seq::empty()
        } else {
            " (증 "@ + joined_numbers(numbers@) + ")"@
        },
{
    if numbers.len() == 0 {
        return String::new();
    }
    let mut list = String::new();
    let mut i: usize = 0;
    while i < numbers.len()
        invariant
            i <= numbers@.len(),
            list@ == joined_numbers(numbers@.take(i as int)),
        decreases numbers@.len() - i,
    {
        let ghost before = list@;
        assert(numbers@.take(i + 1).drop_last() =~= numbers@.take(i as int));
        if i > 0 {
            list.append(", ");
        }
        let digits = decimal_text(numbers[i]);
        list.append(digits.as_str());
        proof {
            if i == 0 {
                assert(before =~= Seq::<char>::empty());
                assert(list@ =~= decimal(numbers@[0] as int));
            }
        }
        i = i + 1;
    }
    assert(numbers@.take(numbers@.len() as int) =~= numbers@);
    let mut note = " (증 ".to_owned();
    note.append(list.as_str());
    note.append(")");
    note
}

} // verus!
