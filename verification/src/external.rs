//! Trusted bridges to the outside crates the core leans on.
//!
//! Each function here wraps exactly one call into an outside crate, and
//! Verus believes the stated contract; nothing else in the library is
//! taken on trust.

use vstd::prelude::*;

verus! {

/// The hyphenated text form of a 128-bit id, as uuid renders it.  The text is
/// a pure function of the id's bits, so it gets a name rather than a
/// definition.
pub uninterp spec fn uuid_text_of(id: u128) -> Seq<char>;

/// Relies on uuid::Uuid::new_v4: a freshly generated random id.  Nothing can
/// be promised about a random value.
#[verifier::external_body]
pub(crate) fn new_uuid() -> u128 {
    uuid::Uuid::new_v4().as_u128()
}

/// Relies on uuid::Uuid::from_u128 and uuid::fmt::Hyphenated: the hyphenated
/// form is 36 characters and depends on the id's bits alone.
#[verifier::external_body]
pub(crate) fn uuid_text(id: u128) -> (r: String)
    ensures
        r@ == uuid_text_of(id),
        r@.len() == 36,
{
    uuid::Uuid::from_u128(id).to_string()
}

/// Relies on chrono::Utc::now: the current wall-clock time in milliseconds
/// since the epoch.  Nothing can be promised about the clock's reading.
#[verifier::external_body]
pub(crate) fn now_millis() -> i64 {
    chrono::Utc::now().timestamp_millis()
}

/// A JSON value, carried opaquely through the library.
#[verifier::external_type_specification]
#[verifier::external_body]
pub struct ExValue(serde_json::Value);

/// A JSON error, carried opaquely until its message is taken.
#[verifier::external_type_specification]
#[verifier::external_body]
pub struct ExJsonError(serde_json::Error);

/// Relies on serde_json::Map::new and the Value::Object constructor: an
/// empty JSON object.
#[verifier::external_body]
pub(crate) fn empty_json_object() -> serde_json::Value {
    serde_json::Value::Object(serde_json::Map::new())
}

/// Relies on serde_json::Error's Display rendering: the error's message.
#[verifier::external_body]
pub(crate) fn json_error_text(e: &serde_json::Error) -> String {
    format!("{}", e)
}

/// The view of an optional string.
pub open spec fn opt_text(o: Option<String>) -> Option<Seq<char>> {
    match o {
        Some(s) => Some(s@),
        None => None,
    }
}

/// What the extractor's response bytes hold: nothing when they are not JSON,
/// else the string values (when present and strings) of `title`, `content`,
/// and of `author`, `site_name`, `description`, `image_url` under
/// `metadata`.  JSON decoding and object lookup depend on the bytes alone,
/// so the fields get a name rather than a definition.
pub uninterp spec fn extraction_fields_of(bytes: Seq<u8>) -> Option<
    (
        Option<Seq<char>>,
        Option<Seq<char>>,
        Option<Seq<char>>,
        Option<Seq<char>>,
        Option<Seq<char>>,
        Option<Seq<char>>,
    ),
>;

/// What the summarizer's response bytes hold: nothing when they are not
/// JSON, else the string value of `summary` when present and a string.
pub uninterp spec fn summary_field_of(bytes: Seq<u8>) -> Option<Option<Seq<char>>>;

/// Relies on serde_json::from_slice, Value::get and Value::as_str: reads the
/// extractor's fields out of its response bytes, exactly the fields that
/// `extraction_fields_of` names, or the decoder's error when the bytes are
/// not JSON.
#[verifier::external_body]
pub(crate) fn read_extraction_fields(bytes: &Vec<u8>) -> (r: Result<
    (
        Option<String>,
        Option<String>,
        Option<String>,
        Option<String>,
        Option<String>,
        Option<String>,
    ),
    serde_json::Error,
>)
    ensures
        r is Ok <==> extraction_fields_of(bytes@) is Some,
        r matches Ok(g) ==> extraction_fields_of(bytes@) matches Some(f) && opt_text(g.0) == f.0
            && opt_text(g.1) == f.1 && opt_text(g.2) == f.2 && opt_text(g.3) == f.3 && opt_text(
            g.4,
        ) == f.4 && opt_text(g.5) == f.5,
{
    let v: serde_json::Value = match serde_json::from_slice(bytes) {
        Ok(v) => v,
        Err(e) => return Err(e),
    };
    let g = |o: Option<&serde_json::Value>, k| {
        o.and_then(|x| x.get(k)).and_then(|x| x.as_str()).map(str::to_owned)
    };
    let m = v.get("metadata");
    let r = Some(&v);
    Ok((g(r, "title"), g(r, "content"), g(m, "author"), g(m, "site_name"), g(m, "description"), g(m, "image_url")))
}

/// Relies on serde_json::from_slice, Value::get and Value::as_str: reads the
/// summarizer's `summary` field out of its response bytes, exactly the field
/// that `summary_field_of` names, or the decoder's error when the bytes are
/// not JSON.
#[verifier::external_body]
pub(crate) fn read_summary_field(bytes: &Vec<u8>) -> (r: Result<Option<String>, serde_json::Error>)
    ensures
        r is Ok <==> summary_field_of(bytes@) is Some,
        r matches Ok(g) ==> summary_field_of(bytes@) matches Some(f) && opt_text(g) == f,
{
    match serde_json::from_slice::<serde_json::Value>(bytes) {
        Ok(v) => Ok(v.get("summary").and_then(|x| x.as_str()).map(str::to_owned)),
        Err(e) => Err(e),
    }
}

} // verus!
