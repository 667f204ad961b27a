//! Settings are stored as texts and shown as JSON values.

use vstd::prelude::*;
use crate::models::Setting;

verus! {

/// The text can be read as a JSON value.
pub uninterp spec fn is_json_text(text: Seq<char>) -> bool;

/// The text written as a JSON string: in quotation marks, with what JSON
/// requires to be escaped, escaped.
pub uninterp spec fn json_quoted(text: Seq<char>) -> Seq<char>;

/// Calls `serde_json::from_str` for a JSON value and tells whether it
/// accepted the text.
#[verifier::external_body]
fn is_json(text: &str) -> (r: bool)
    ensures
        r == is_json_text(text@),
{
    serde_json::from_str::<serde_json::Value>(text).is_ok()
}

/// Writes the text as the JSON string `serde_json::Value::String` of it.
#[verifier::external_body]
fn quote_json(text: &str) -> (r: String)
    ensures
        r@ == json_quoted(text@),
{
    serde_json::Value::String(text.to_string()).to_string()
}

/// The JSON text that a stored value is shown as: the value itself if it
/// is JSON, the value as a JSON string if it is not.
pub open spec fn shown_json(value: Seq<char>) -> Seq<char> {
    if is_json_text(value) {
        value
    } else {
        json_quoted(value)
    }
}

/// The JSON text that a stored value is shown as.
pub fn stored_value_as_json(value: &str) -> (r: String)
    ensures
        r@ == shown_json(value@),
{
    if is_json(value) {
        String::from_str(value)
    } else {
        quote_json(value)
    }
}

/// The settings as they are shown: each key with the JSON text of its
/// value, in the order given.
pub fn settings_as_json(settings: &Vec<Setting>) -> (r: Vec<(String, String)>)
    ensures
        r@.len() == settings@.len(),
        forall|i: int|
            0 <= i < settings@.len() ==> (#[trigger] r@[i]).0@ == settings@[i].key@ && r@[i].1@
                == shown_json(settings@[i].value@),
{
    let mut out: Vec<(String, String)> = Vec::new();
    let mut i: usize = 0;
    while i < settings.len()
        invariant
            i <= settings@.len(),
            out@.len() == i,
            forall|j: int|
                0 <= j < i ==> (#[trigger] out@[j]).0@ == settings@[j].key@ && out@[j].1@
                    == shown_json(settings@[j].value@),
        decreases settings@.len() - i,
    {
        let shown: String = stored_value_as_json(settings[i].value.as_str());
        out.push((settings[i].key.clone(), shown));
        i += 1;
    }
    out
}

} // verus!
