use mycelium::media::{data_url_of, media_data_url, mime_type_of, new_photo_file_name, photo_file_name};

#[test]
fn mime_types_by_extension() {
    assert_eq!(mime_type_of("jpg"), "image/jpeg");
    assert_eq!(mime_type_of("jpeg"), "image/jpeg");
    assert_eq!(mime_type_of("png"), "image/png");
    assert_eq!(mime_type_of("webp"), "image/webp");
    assert_eq!(mime_type_of("gif"), "image/png");
}

#[test]
fn data_url_is_assembled() {
    assert_eq!(data_url_of("webp", "AAAA"), "data:image/webp;base64,AAAA");
}

#[test]
fn media_data_url_encodes_and_lowercases() {
    assert_eq!(media_data_url("JPG", b"hello"), "data:image/jpeg;base64,aGVsbG8=");
    assert_eq!(media_data_url("Png", &[0u8, 1, 2]), "data:image/png;base64,AAEC");
    assert_eq!(media_data_url("bmp", b""), "data:image/png;base64,");
}

#[test]
fn photo_names() {
    assert_eq!(
        photo_file_name(1700000000, "0123abcd-9999-4000-8000-000000000000", "jpg"),
        "farm_1700000000_0123abcd.jpg"
    );
    let fresh = new_photo_file_name("png");
    assert!(fresh.starts_with("farm_"));
    assert!(fresh.ends_with(".png"));
    let middle = &fresh["farm_".len()..fresh.len() - ".png".len()];
    let (stamp, unique) = middle.split_once('_').unwrap();
    assert!(stamp.parse::<i64>().unwrap() > 1_600_000_000);
    assert_eq!(unique.len(), 8);
}
