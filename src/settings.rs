//! Stored settings: how the values read from the configuration file are
//! cleaned and checked before use. Reading and writing the file is the
//! caller's part.

use vstd::prelude::*;

use crate::account::MyceliumError;
use crate::text::{blank, is_blank, stripped, trim_text};

verus! {

/// The text-message settings as the settings screen shows them.
#[derive(Clone, Debug)]
pub struct SmsConfig {
    pub api_key: String,
    pub sender_number: String,
    pub provider: Option<String>,
}

/// One order fetched from an online shop.
#[derive(Clone, Debug)]
pub struct MallOrderItem {
    pub order_id: String,
    pub customer_name: String,
    pub receiver_name: String,
    pub mobile: String,
    pub zip: String,
    pub address: String,
    pub mall_product_name: String,
    pub qty: i32,
    pub unit_price: i32,
}

pub open spec fn text_or_empty(t: Option<String>) -> Seq<char> {
    match t {
        Some(s) => s@,
        None => Seq::empty(),
    }
}

fn or_empty(t: Option<String>) -> (r: String)
    ensures
        r@ == text_or_empty(t),
{
    match t {
        Some(s) => s,
        None => String::new(),
    }
}

impl SmsConfig {
    /// The settings from the stored values; a missing key or sender number
    /// shows as empty, a missing provider stays absent.
    pub fn from_stored(
        api_key: Option<String>,
        sender_number: Option<String>,
        provider: Option<String>,
    ) -> (r: SmsConfig)
        ensures
            r.api_key@ == text_or_empty(api_key),
            r.sender_number@ == text_or_empty(sender_number),
            r.provider == provider,
    {
        SmsConfig { api_key: or_empty(api_key), sender_number: or_empty(sender_number), provider }
    }
}

/// The stored database address, trimmed; refused when there is none or it
/// is blank.
pub fn database_url_from(stored: Option<&str>) -> (r: Result<String, String>)
    ensures
        match stored {
            Some(s) if stripped(s@, false).len() > 0 => r matches Ok(u) && u@ == stripped(
                s@,
                false,
            ),
            _ => r matches Err(m) && m@
                == "Configuration file (config.json) missing or database_url not set"@,
        },
{
    if let Some(s) = stored {
        let trimmed = trim_text(s, false);
        if trimmed.as_str().unicode_len() > 0 {
            return Ok(trimmed);
        }
    }
    Err("Configuration file (config.json) missing or database_url not set".to_owned())
}

/// The stored Gemini API key without surrounding white space or quotes;
/// none when nothing is left.
pub fn api_key_from(stored: Option<&str>) -> (r: Option<String>)
    ensures
        match stored {
            Some(s) if stripped(s@, true).len() > 0 => r matches Some(k) && k@ == stripped(
                s@,
                true,
            ),
            _ => r is None,
        },
{
    if let Some(s) = stored {
        let trimmed = trim_text(s, true);
        if trimmed.as_str().unicode_len() > 0 {
            return Some(trimmed);
        }
    }
    None
}

/// A stored value kept as it is when it holds more than white space, and
/// empty otherwise.
pub fn non_blank_or_empty(stored: Option<&str>) -> (r: String)
    ensures
        match stored {
            Some(s) if !blank(s@) => r@ == s@,
            _ => r@ == Seq::<char>::empty(),
        },
{
    match stored {
        Some(s) => if is_blank(s) {
            String::new()
        } else {
            s.to_owned()
        },
        None => String::new(),
    }
}

/// The configuration key that holds the access key of a shop.
pub open spec fn mall_key_field_spec(mall_type: Seq<char>) -> Seq<char> {
    if mall_type == "naver"@ {
        "naver_commerce_id"@
    } else if mall_type == "coupang"@ {
        "coupang_access_key"@
    } else {
        Seq::empty()
    }
}

/// The configuration key that holds the access key of `mall_type`; empty
/// for a shop that is not supported.
pub fn mall_key_field(mall_type: &str) -> (r: String)
    ensures
        r@ == mall_key_field_spec(mall_type@),
{
    if mall_type.to_owned() == "naver".to_owned() {
        "naver_commerce_id".to_owned()
    } else if mall_type.to_owned() == "coupang".to_owned() {
        "coupang_access_key".to_owned()
    } else {
        String::new()
    }
}

/// Refuses to fetch orders from `mall_type` when its access key is empty.
pub fn check_mall_key(mall_type: &str, key: &str) -> (r: Result<(), MyceliumError>)
    ensures
        key@.len() == 0 ==> (r matches Err(MyceliumError::Internal(m)) && m@ == mall_type@
            + " 연동 키가 설정되지 않았습니다."@),
        key@.len() > 0 ==> r is Ok,
{
    if key.is_empty() {
        let mut msg = mall_type.to_owned();
        msg.append(" 연동 키가 설정되지 않았습니다.");
        return Err(MyceliumError::Internal(msg));
    }
    Ok(())
}

} // verus!
