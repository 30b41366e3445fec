//! JSON text handled by the `serde_json` crate.
use vstd::prelude::*;

verus! {

/// A JSON value as far as this library reads one.
pub enum JsonScalar {
    /// A string.
    Text(String),
    /// A number that `Value::as_u64` reads as a `u64`.
    Unsigned(u64),
    /// Any other value.
    Other,
}

/// The mathematical value of a [`JsonScalar`].
pub enum JsonScalarModel {
    Text(Seq<char>),
    Unsigned(u64),
    Other,
}

impl View for JsonScalar {
    type V = JsonScalarModel;

    open spec fn view(&self) -> JsonScalarModel {
        match self {
            JsonScalar::Text(t) => JsonScalarModel::Text(t@),
            JsonScalar::Unsigned(n) => JsonScalarModel::Unsigned(*n),
            JsonScalar::Other => JsonScalarModel::Other,
        }
    }
}

/// What `serde_json::from_str::<serde_json::Value>` followed by `Value::get`
/// for each key in turn gives for the JSON text: `Err` when the text is not
/// JSON, `Ok(None)` when a key is missing.
pub uninterp spec fn json_value_at(text: Seq<char>, keys: Seq<Seq<char>>) -> Result<Option<JsonScalarModel>, ()>;

/// The string found at the keys (as `Value::as_str` reads it).
pub open spec fn json_text_at(text: Seq<char>, keys: Seq<Seq<char>>) -> Result<Option<Seq<char>>, ()> {
    match json_value_at(text, keys) {
        Ok(Some(JsonScalarModel::Text(t))) => Ok(Some(t)),
        Ok(_) => Ok(None),
        Err(e) => Err(e),
    }
}

/// The unsigned number found at the keys (as `Value::as_u64` reads it).
pub open spec fn json_unsigned_at(text: Seq<char>, keys: Seq<Seq<char>>) -> Result<Option<u64>, ()> {
    match json_value_at(text, keys) {
        Ok(Some(JsonScalarModel::Unsigned(n))) => Ok(Some(n)),
        Ok(_) => Ok(None),
        Err(e) => Err(e),
    }
}

/// Calls `serde_json::from_str::<serde_json::Value>`, then `Value::get` for
/// each key; a string found is read with `Value::as_str`, a number with
/// `Value::as_u64`. The contract claims that the outcome is the named one for
/// the text and keys.
#[verifier::external_body]
pub(crate) fn json_value(text: &str, keys: &[&str]) -> (r: Result<Option<JsonScalar>, ()>)
    ensures
        match r {
            Ok(Some(v)) => json_value_at(text@, keys@.map_values(|k: &str| k@)) == Ok::<
                Option<JsonScalarModel>,
                (),
            >(Some(v@)),
            Ok(None) => json_value_at(text@, keys@.map_values(|k: &str| k@)) == Ok::<
                Option<JsonScalarModel>,
                (),
            >(None),
            Err(_) => json_value_at(text@, keys@.map_values(|k: &str| k@)) is Err,
        },
{
    let value: serde_json::Value = serde_json::from_str(text).map_err(|_| ())?;
    let mut found = &value;
    for key in keys {
        match found.get(*key) {
            Some(v) => found = v,
            None => return Ok(None),
        }
    }
    Ok(Some(match found {
        serde_json::Value::String(s) => JsonScalar::Text(s.clone()),
        other => other.as_u64().map_or(JsonScalar::Other, JsonScalar::Unsigned),
    }))
}

/// The string found at the keys of the JSON text.
pub(crate) fn json_string_at(text: &str, keys: &[&str]) -> (r: Result<Option<String>, ()>)
    ensures
        match r {
            Ok(found) => json_text_at(text@, keys@.map_values(|k: &str| k@)) == Ok::<
                Option<Seq<char>>,
                (),
            >(crate::text::option_text(found)),
            Err(_) => json_text_at(text@, keys@.map_values(|k: &str| k@)) is Err,
        },
{
    match json_value(text, keys) {
        Ok(Some(JsonScalar::Text(t))) => Ok(Some(t)),
        Ok(_) => Ok(None),
        Err(e) => Err(e),
    }
}

/// The unsigned number found at the keys of the JSON text.
pub(crate) fn json_unsigned_at_keys(text: &str, keys: &[&str]) -> (r: Result<Option<u64>, ()>)
    ensures
        match r {
            Ok(found) => json_unsigned_at(text@, keys@.map_values(|k: &str| k@)) == Ok::<
                Option<u64>,
                (),
            >(found),
            Err(_) => json_unsigned_at(text@, keys@.map_values(|k: &str| k@)) is Err,
        },
{
    match json_value(text, keys) {
        Ok(Some(JsonScalar::Unsigned(n))) => Ok(Some(n)),
        Ok(_) => Ok(None),
        Err(e) => Err(e),
    }
}

/// The JSON text that `serde_json::to_string` writes for the pair of strings.
pub uninterp spec fn json_pair_text(first: Seq<char>, second: Seq<char>) -> Seq<char>;

/// What `serde_json::from_str::<(PathBuf, String)>` reads from the text, the
/// path taken as its text; `None` when the text is not such a pair.
pub uninterp spec fn json_pair_parsed(text: Seq<char>) -> Option<(Seq<char>, Seq<char>)>;

/// Calls `serde_json::to_string` on the pair `(first, second)`. Serialising two
/// strings cannot fail, so the `Err` arm is unreachable. The contract claims
/// the named text, and that `serde_json` reads that text back as the same pair
/// (a JSON string keeps every character of a Rust string).
#[verifier::external_body]
pub(crate) fn json_pair(first: &str, second: &str) -> (r: String)
    ensures
        r@ == json_pair_text(first@, second@),
        json_pair_parsed(r@) == Some((first@, second@)),
{
    match serde_json::to_string(&(first, second)) {
        Ok(text) => text,
        Err(_) => String::new(),
    }
}

/// Calls `serde_json::from_str::<(std::path::PathBuf, String)>`; the contract
/// claims the named outcome, the path taken as its text.
#[verifier::external_body]
pub(crate) fn parse_json_pair(text: &str) -> (r: Option<(String, String)>)
    ensures
        match r {
            Some((first, second)) => json_pair_parsed(text@) == Some((first@, second@)),
            None => json_pair_parsed(text@) is None,
        },
{
    serde_json::from_str::<(std::path::PathBuf, String)>(text)
        .ok()
        .map(|(path, id)| (path.to_string_lossy().into_owned(), id))
}

} // verus!
