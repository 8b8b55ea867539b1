use mycelium::backup::{
    age_label, auto_backup_file_name, daily_backup_due, daily_backup_file_name, is_backup_file,
    rotated_out_files, sorts_before, BackupKind,
};

#[test]
fn backup_names_are_recognised() {
    assert!(is_backup_file("auto_backup_20240101_101010.json.gz", BackupKind::Auto));
    assert!(is_backup_file("auto_backup_old.sql", BackupKind::Auto));
    assert!(!is_backup_file("auto_backup_20240101.json", BackupKind::Auto));
    assert!(!is_backup_file("daily_backup_20240101.json.gz", BackupKind::Auto));
    assert!(is_backup_file("daily_backup_20240101.json.gz", BackupKind::Daily));
    assert!(!is_backup_file("notes.gz", BackupKind::Daily));
}

#[test]
fn file_names() {
    assert_eq!(daily_backup_file_name("20240305", true), "daily_backup_20240305.json.gz");
    assert_eq!(daily_backup_file_name("20240305", false), "daily_backup_20240305.json");
    assert_eq!(auto_backup_file_name("20240305_120000"), "auto_backup_20240305_120000.json.gz");
}

#[test]
fn daily_backup_due_rule() {
    assert!(daily_backup_due(true, true));
    assert!(daily_backup_due(false, false));
    assert!(!daily_backup_due(false, true));
}

#[test]
fn name_order() {
    assert!(sorts_before("a", "b"));
    assert!(sorts_before("ab", "abc"));
    assert!(!sorts_before("abc", "ab"));
    assert!(!sorts_before("same", "same"));
    assert!(sorts_before("auto_backup_20240101", "auto_backup_20240102"));
}

#[test]
fn auto_rotation_keeps_newest_thirty() {
    let mut names: Vec<String> = (1..=35)
        .map(|i| format!("auto_backup_202401{:02}_000000.json.gz", i))
        .collect();
    names.push("readme.txt".to_string());
    names.push("daily_backup_20240101.json.gz".to_string());
    let gone = rotated_out_files(&names, BackupKind::Auto);
    let expected: Vec<String> = (1..=5)
        .map(|i| format!("auto_backup_202401{:02}_000000.json.gz", i))
        .collect();
    assert_eq!(gone, expected);
}

#[test]
fn daily_rotation_keeps_newest_ninety() {
    let names: Vec<String> = (0..92).rev().map(|i| format!("daily_backup_{:08}.sql", 20240000 + i)).collect();
    let gone = rotated_out_files(&names, BackupKind::Daily);
    assert_eq!(gone, vec!["daily_backup_20240001.sql".to_string(), "daily_backup_20240000.sql".to_string()]);
    let few: Vec<String> = (0..90).map(|i| format!("daily_backup_{:08}.gz", i)).collect();
    assert!(rotated_out_files(&few, BackupKind::Daily).is_empty());
}

#[test]
fn age_labels() {
    assert_eq!(age_label(0), "0초 전");
    assert_eq!(age_label(59), "59초 전");
    assert_eq!(age_label(60), "1분 전");
    assert_eq!(age_label(3599), "59분 전");
    assert_eq!(age_label(3600), "1시간 전");
    assert_eq!(age_label(86399), "23시간 전");
    assert_eq!(age_label(172800), "2일 전");
    assert_eq!(age_label(-5), "-5초 전");
}
