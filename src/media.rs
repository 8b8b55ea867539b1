//! Farm photos: the names they are stored under, and the data addresses
//! they are shown through. Copying and reading the files is the caller's
//! part.

use base64::Engine;
use vstd::prelude::*;

use crate::backup::decimal;

verus! {

/// What lowercasing a text gives.
pub uninterp spec fn lower_of(s: Seq<char>) -> Seq<char>;

/// The standard, padded base64 text of some bytes.
pub uninterp spec fn base64_of(b: Seq<u8>) -> Seq<char>;

/// Relies on `str::to_lowercase`; the result depends on the text alone.
#[verifier::external_body]
fn lowercase(s: &str) -> (r: String)
    ensures
        r@ == lower_of(s@),
{
    s.to_lowercase()
}

/// Relies on base64's `general_purpose::STANDARD.encode`.
#[verifier::external_body]
fn encode_base64(bytes: &[u8]) -> (r: String)
    ensures
        r@ == base64_of(bytes@),
{
    base64::engine::general_purpose::STANDARD.encode(bytes)
}

/// Relies on `uuid::Uuid::new_v4`, a random identifier, shown through its
/// `Display`, which writes the hyphenated form of 36 characters.
#[verifier::external_body]
fn random_identifier() -> (r: String)
    ensures
        r@.len() == 36,
{
    uuid::Uuid::new_v4().to_string()
}

/// Relies on `chrono::Utc::now().timestamp()`: the seconds since the Unix
/// epoch, at the time of the call.
#[verifier::external_body]
fn seconds_now() -> (r: i64) {
    chrono::Utc::now().timestamp()
}

/// The MIME type shown for a lowercased file extension; unknown ones are
/// shown as PNG.
pub open spec fn mime_for(lower_ext: Seq<char>) -> Seq<char> {
    if lower_ext == "jpg"@ || lower_ext == "jpeg"@ {
        "image/jpeg"@
    } else if lower_ext == "png"@ {
        "image/png"@
    } else if lower_ext == "webp"@ {
        "image/webp"@
    } else {
        "image/png"@
    }
}

fn same(a: &str, b: &str) -> (r: bool)
    ensures
        r == (a@ == b@),
{
    a.to_owned() == b.to_owned()
}

/// The MIME type for an already lowercased extension.
pub fn mime_type_of(lower_ext: &str) -> (r: &'static str)
    ensures
        r@ == mime_for(lower_ext@),
{
    if same(lower_ext, "jpg") || same(lower_ext, "jpeg") {
        "image/jpeg"
    } else if same(lower_ext, "png") {
        "image/png"
    } else if same(lower_ext, "webp") {
        "image/webp"
    } else {
        "image/png"
    }
}

/// `data:<mime>;base64,<encoded>` for an already lowercased extension and
/// already encoded contents.
pub fn data_url_of(lower_ext: &str, encoded: &str) -> (r: String)
    ensures
        r@ == "data:"@ + mime_for(lower_ext@) + ";base64,"@ + encoded@,
{
    let mut url = "data:".to_owned();
    url.append(mime_type_of(lower_ext));
    url.append(";base64,");
    url.append(encoded);
    url
}

/// The data address that shows a media file with extension `extension`
/// (of any case) and contents `bytes`.
pub fn media_data_url(extension: &str, bytes: &[u8]) -> (r: String)
    ensures
        r@ == "data:"@ + mime_for(lower_of(extension@)) + ";base64,"@ + base64_of(bytes@),
{
    let lower = lowercase(extension);
    let encoded = encode_base64(bytes);
    data_url_of(lower.as_str(), encoded.as_str())
}

/// The name a copied photo is stored under:
/// `farm_<timestamp>_<first 8 characters of unique>.<extension>`.
pub fn photo_file_name(timestamp: i64, unique: &str, extension: &str) -> (r: String)
    requires
        unique@.len() >= 8,
    ensures
        r@ == "farm_"@ + decimal(timestamp as int) + "_"@ + unique@.subrange(0, 8) + "."@
            + extension@,
{
    let mut name = "farm_".to_owned();
    let stamp = crate::backup::decimal_text(timestamp);
    name.append(stamp.as_str());
    name.append("_");
    name.append(unique.substring_char(0, 8));
    name.append(".");
    name.append(extension);
    name
}

/// A fresh name for a photo with extension `extension`, from the current
/// time and a random identifier.
pub fn new_photo_file_name(extension: &str) -> (r: String)
    ensures
        exists|t: i64, u: Seq<char>|
            u.len() == 8 && r@ == "farm_"@ + decimal(t as int) + "_"@ + u + "."@ + extension@,
{
    let timestamp = seconds_now();
    let unique = random_identifier();
    let r = photo_file_name(timestamp, unique.as_str(), extension);
    assert(unique@.subrange(0, 8).len() == 8);
    r
}

} // verus!
