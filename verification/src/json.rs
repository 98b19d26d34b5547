//! JSON encoding of string lists (recipe instructions and section names),
//! through `serde_json`.

use vstd::prelude::*;
use crate::errors::{api_error, ApiError, ApiErrorView, STATUS_INTERNAL};
use crate::text::{concat, is_blank_seq, is_ws, lemma_blank_iff_all_ws};

verus! {

/// What `serde_json::from_str::<Vec<String>>` gives for a text: the list, or
/// the error's display text.
pub uninterp spec fn json_decode_strings(text: Seq<char>) -> Result<Seq<Seq<char>>, Seq<char>>;

/// What `serde_json::to_string` gives for a list of strings: the JSON text,
/// or the error's display text.
pub uninterp spec fn json_encode_strings(list: Seq<Seq<char>>) -> Result<Seq<char>, Seq<char>>;

/// Calls `serde_json::from_str::<Vec<String>>`. Trusted: the result, with a
/// failure given by its display text, is the named value of the text.
#[verifier::external_body]
fn decode_strings(text: &str) -> (r: Result<Vec<String>, String>)
    ensures
        match r {
            Ok(v) => json_decode_strings(text@) == Ok::<Seq<Seq<char>>, Seq<char>>(v.deep_view()),
            Err(e) => json_decode_strings(text@) == Err::<Seq<Seq<char>>, Seq<char>>(e@),
        },
{
    serde_json::from_str::<Vec<String>>(text).map_err(|e| e.to_string())
}

/// Calls `serde_json::to_string` on a list of strings. Trusted: the result is
/// the named value of the list; it succeeds (a string list holds no map with
/// non-string keys and no `Serialize` impl that fails, the only causes of
/// failure the crate names, and its writer is a `Vec`); the text starts with
/// the `[` that opens a JSON array (`Formatter::begin_array`); and parsing
/// the text back gives the list (every string is written escaped and read
/// unescaped).
#[verifier::external_body]
fn encode_strings(list: &Vec<String>) -> (r: Result<String, String>)
    ensures
        match r {
            Ok(s) => json_encode_strings(list.deep_view()) == Ok::<Seq<char>, Seq<char>>(s@)
                && s@.len() > 0 && s@[0] == '['
                && json_decode_strings(s@) == Ok::<Seq<Seq<char>>, Seq<char>>(list.deep_view()),
            Err(e) => json_encode_strings(list.deep_view()) == Err::<Seq<char>, Seq<char>>(e@),
        },
        r is Ok,
{
    serde_json::to_string(list).map_err(|e| e.to_string())
}

/// `"failed to encode instructions"`.
pub open spec fn encode_failure_text() -> Seq<char> {
    seq!['f', 'a', 'i', 'l', 'e', 'd', ' ', 't', 'o', ' ', 'e', 'n', 'c', 'o', 'd', 'e', ' ', 'i', 'n', 's', 't', 'r', 'u', 'c', 't', 'i', 'o', 'n', 's']
}

/// The JSON text stored for a list of instructions. Encoding a string list
/// does not fail; were it to, the error would be internal.
pub fn encode_instructions(list: &Vec<String>) -> (r: Result<String, ApiError>)
    ensures
        r is Ok,
        r matches Ok(s) ==> json_encode_strings(list.deep_view()) == Ok::<Seq<char>, Seq<char>>(s@),
        r matches Ok(s) ==> json_decode_strings(s@) == Ok::<Seq<Seq<char>>, Seq<char>>(list.deep_view()),
{
    match encode_strings(list) {
        Ok(s) => Ok(s),
        Err(_) => {
            let text = "failed to encode instructions".to_owned();
            proof {
                reveal_strlit("failed to encode instructions");
                assert(text@ =~= encode_failure_text());
            }
            Err(ApiError::internal(text))
        },
    }
}

/// The JSON text of a list of strings (a JSON array, so never blank), which
/// parses back to the list.
pub fn encode_string_list(list: &Vec<String>) -> (r: String)
    ensures
        json_encode_strings(list.deep_view()) == Ok::<Seq<char>, Seq<char>>(r@),
        json_decode_strings(r@) == Ok::<Seq<Seq<char>>, Seq<char>>(list.deep_view()),
        r@.len() > 0 && r@[0] == '[',
        !is_blank_seq(r@),
{
    let r = match encode_strings(list) {
        Ok(s) => s,
        Err(e) => e,
    };
    proof {
        lemma_blank_iff_all_ws(r@);
        assert(!is_ws(r@[0]));
    }
    r
}

/// Parses a JSON list of strings; a failure is the parser's message.
pub fn decode_string_list(text: &str) -> (r: Result<Vec<String>, String>)
    ensures
        match r {
            Ok(v) => json_decode_strings(text@) == Ok::<Seq<Seq<char>>, Seq<char>>(v.deep_view()),
            Err(e) => json_decode_strings(text@) == Err::<Seq<Seq<char>>, Seq<char>>(e@),
        },
{
    decode_strings(text)
}

/// `"bad instructions JSON: "`.
pub open spec fn bad_instructions_prefix() -> Seq<char> {
    seq!['b', 'a', 'd', ' ', 'i', 'n', 's', 't', 'r', 'u', 'c', 't', 'i', 'o', 'n', 's', ' ', 'J', 'S', 'O', 'N', ':', ' ']
}

/// What the instructions column decodes to: nothing stored is no
/// instructions; stored JSON is parsed, and a parse failure is an internal
/// error.
pub open spec fn decoded_instructions(stored: Option<Seq<char>>) -> Result<Seq<Seq<char>>, ApiErrorView> {
    match stored {
        None => Ok(Seq::empty()),
        Some(json) => match json_decode_strings(json) {
            Ok(list) => Ok(list),
            Err(e) => Err(api_error(STATUS_INTERNAL, bad_instructions_prefix() + e)),
        },
    }
}

/// Decode the instructions JSON column.
pub fn decode_instructions(stored: Option<String>) -> (r: Result<Vec<String>, ApiError>)
    ensures
        match (r, decoded_instructions(stored.deep_view())) {
            (Ok(v), Ok(list)) => v.deep_view() == list,
            (Err(e), Err(ev)) => e.deep_view() == ev,
            _ => false,
        },
{
    match stored {
        None => Ok(Vec::new()),
        Some(json) => match decode_string_list(json.as_str()) {
            Ok(v) => Ok(v),
            Err(e) => {
                let prefix = "bad instructions JSON: ";
                proof {
                    reveal_strlit("bad instructions JSON: ");
                    assert(prefix@ =~= bad_instructions_prefix());
                }
                Err(ApiError::internal(concat(prefix, e.as_str())))
            },
        },
    }
}

} // verus!
