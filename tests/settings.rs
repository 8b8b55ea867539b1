use mycelium::account::MyceliumError;
use mycelium::settings::{
    api_key_from, check_mall_key, database_url_from, mall_key_field, non_blank_or_empty,
    SmsConfig,
};

#[test]
fn database_url_is_trimmed_or_refused() {
    assert_eq!(database_url_from(Some("  postgres://x  ")), Ok("postgres://x".to_string()));
    let missing = Err("Configuration file (config.json) missing or database_url not set".to_string());
    assert_eq!(database_url_from(Some("   ")), missing);
    assert_eq!(database_url_from(None), missing);
}

#[test]
fn api_key_loses_quotes_and_space() {
    assert_eq!(api_key_from(Some(" \"abc123\"\r\n")), Some("abc123".to_string()));
    assert_eq!(api_key_from(Some("'k'")), Some("k".to_string()));
    assert_eq!(api_key_from(Some(" \"\" ")), None);
    assert_eq!(api_key_from(None), None);
}

#[test]
fn blank_values_become_empty() {
    assert_eq!(non_blank_or_empty(Some(" id ")), " id ");
    assert_eq!(non_blank_or_empty(Some("  ")), "");
    assert_eq!(non_blank_or_empty(None), "");
}

#[test]
fn sms_config_defaults() {
    let c = SmsConfig::from_stored(None, Some("010".to_string()), None);
    assert_eq!(c.api_key, "");
    assert_eq!(c.sender_number, "010");
    assert_eq!(c.provider, None);
}

#[test]
fn mall_keys() {
    assert_eq!(mall_key_field("naver"), "naver_commerce_id");
    assert_eq!(mall_key_field("coupang"), "coupang_access_key");
    assert_eq!(mall_key_field("other"), "");
    assert!(check_mall_key("naver", "id").is_ok());
    match check_mall_key("coupang", "") {
        Err(MyceliumError::Internal(m)) => assert_eq!(m, "coupang 연동 키가 설정되지 않았습니다."),
        other => panic!("{:?}", other),
    }
}
