//! Payloads as they are given on the command line.
use vstd::prelude::*;

verus! {

/// `serde_json::from_str` into a `serde_json::Value`: the value that a text of JSON stands
/// for, or the words for what is wrong with it.
pub uninterp spec fn json_value(text: Seq<char>) -> Result<serde_json::Value, Seq<char>>;

/// `serde_json::from_str`: reads a text as JSON. The result depends on the text alone; which
/// texts are read, and as what value, is left to `serde_json`.
#[verifier::external_body]
fn read_json(text: &str) -> (r: Result<serde_json::Value, String>)
    ensures
        match r {
            Ok(value) => json_value(text@) == Ok::<_, Seq<char>>(value),
            Err(message) => json_value(text@) == Err::<serde_json::Value, _>(message@),
        },
{
    serde_json::from_str(text).map_err(|e: serde_json::Error| e.to_string())
}

/// Why a text is no payload.
#[derive(Debug)]
pub struct PayloadError {
    pub message: String,
}

/// Reads the payload of a job.
pub fn parse_payload(text: &str) -> (r: Result<serde_json::Value, PayloadError>)
    ensures
        match r {
            Ok(payload) => json_value(text@) == Ok::<_, Seq<char>>(payload),
            Err(e) => json_value(text@) == Err::<serde_json::Value, _>(e.message@),
        },
{
    match read_json(text) {
        Ok(payload) => Ok(payload),
        Err(message) => Err(PayloadError { message }),
    }
}

} // verus!
