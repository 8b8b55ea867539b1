use mycelium::harvest::{
    batch_harvest_memo, batch_harvest_reference, harvest_memo, harvest_reference,
    plan_harvest_save, HarvestSavePlan,
};
use mycelium::report::{numbered_photos, photo_note, work_type_label};

#[test]
fn work_type_labels() {
    assert_eq!(work_type_label("plant"), "식재/종균접종");
    assert_eq!(work_type_label("harvest"), "수확/채취");
    assert_eq!(work_type_label("education"), "교육/훈련");
    assert_eq!(work_type_label("other work"), "other work");
}

#[test]
fn photos_numbered_by_first_reference() {
    let paths: Vec<String> = ["b.jpg", "a.jpg", "b.jpg", "c.jpg", "a.jpg"]
        .iter()
        .map(|s| s.to_string())
        .collect();
    assert_eq!(numbered_photos(&paths), vec!["b.jpg", "a.jpg", "c.jpg"]);
    assert!(numbered_photos(&Vec::new()).is_empty());
}

#[test]
fn photo_notes() {
    assert_eq!(photo_note(&vec![]), "");
    assert_eq!(photo_note(&vec![3]), " (증 3)");
    assert_eq!(photo_note(&vec![1, 2, 10]), " (증 1, 2, 10)");
}

#[test]
fn harvest_plans() {
    assert_eq!(
        plan_harvest_save(0, None),
        HarvestSavePlan { update_existing: false, add_to_stock: true, complete_batch: false }
    );
    assert_eq!(
        plan_harvest_save(12, Some(true)),
        HarvestSavePlan { update_existing: true, add_to_stock: false, complete_batch: true }
    );
    assert_eq!(
        plan_harvest_save(-1, Some(false)),
        HarvestSavePlan { update_existing: false, add_to_stock: false, complete_batch: false }
    );
}

#[test]
fn harvest_log_texts() {
    assert_eq!(harvest_memo("B-7"), "수확 입고 (배치: B-7)");
    assert_eq!(batch_harvest_memo("B-7"), "수확 입고(일괄): B-7");
    assert_eq!(harvest_reference("B-7"), "HARVEST_B-7");
    assert_eq!(batch_harvest_reference("B-7", 1700000000), "HARVEST_B-7_1700000000");
}
