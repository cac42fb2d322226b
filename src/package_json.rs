use crate::error::AppError;
use vstd::prelude::*;

verus! {

#[verifier::external_type_specification]
#[verifier::external_body]
pub struct ExJsonValue(serde_json::Value);

#[verifier::external_type_specification]
#[verifier::external_body]
pub struct ExJsonError(serde_json::Error);

/// Whether `serde_json::from_str` accepts the text as a JSON value.
pub uninterp spec fn json_accepts(text: Seq<char>) -> bool;

/// Relies on serde_json::from_str: whether the text parses as a JSON value
/// depends on the text alone.
#[verifier::external_body]
fn parse_json(text: &str) -> (r: Result<serde_json::Value, serde_json::Error>)
    ensures
        r.is_ok() == json_accepts(text@),
{
    serde_json::from_str::<serde_json::Value>(text)
}

/// Relies on serde_json::Error's `Display`: the parser's message.
#[verifier::external_body]
fn json_error_text(e: &serde_json::Error) -> String {
    e.to_string()
}

/// Relies on serde_json::Value::get: the member of an object under a key;
/// nothing for other values.
#[verifier::external_body]
fn json_member(v: &serde_json::Value, key: &str) -> Option<serde_json::Value> {
    v.get(key).cloned()
}

pub open spec fn invalid_json_prefix() -> Seq<char> {
    "Invalid JSON in package.json: "@
}

pub open spec fn missing_section_text() -> Seq<char> {
    "No 'fast-staged' section found in package.json"@
}

/// The `fast-staged` section of the text of a package.json at `path`. Text
/// that is not JSON is reported with the parser's message; a document
/// without the section is reported as such.
pub fn package_json_section(path: &str, content: &str) -> (r: Result<serde_json::Value, AppError>)
    ensures
        !json_accepts(content@) ==> (match r {
            Err(AppError::ConfigInvalid { path: p, details }) => p@ == path@ && details@.len()
                >= invalid_json_prefix().len() && details@.subrange(
                0,
                invalid_json_prefix().len() as int,
            ) == invalid_json_prefix(),
            _ => false,
        }),
        json_accepts(content@) ==> (match r {
            Ok(_) => true,
            Err(AppError::ConfigInvalid { path: p, details }) => p@ == path@ && details@
                == missing_section_text(),
            _ => false,
        }),
{
    match parse_json(content) {
        Err(e) => {
            let mut details = String::from_str("Invalid JSON in package.json: ");
            let text = json_error_text(&e);
            details.append(text.as_str());
            proof {
                assert(details@.subrange(0, invalid_json_prefix().len() as int) =~= invalid_json_prefix());
            }
            Err(AppError::ConfigInvalid { path: String::from_str(path), details })
        },
        Ok(json) => match json_member(&json, "fast-staged") {
            Some(section) => Ok(section),
            None => Err(
                AppError::ConfigInvalid {
                    path: String::from_str(path),
                    details: String::from_str("No 'fast-staged' section found in package.json"),
                },
            ),
        },
    }
}

} // verus!
