//! Lists of texts as JSON, the form in which a definition's examples and
//! tags are stored.

use vstd::prelude::*;

verus! {

/// What went wrong while a JSON text was written or read.
#[verifier::external_type_specification]
#[verifier::external_body]
pub struct ExJsonError(serde_json::Error);

/// The character sequences of `items`.
pub open spec fn texts_of(items: Seq<String>) -> Seq<Seq<char>> {
    items.map_values(|s: String| s@)
}

/// The JSON text that `serde_json::to_string` writes for a list of texts, or
/// nothing where it fails.
pub uninterp spec fn json_of_texts(items: Seq<Seq<char>>) -> Option<Seq<char>>;

/// The list of texts that `serde_json::from_str` reads from a JSON text, or
/// nothing where the text is no JSON array of strings.
pub uninterp spec fn texts_of_json(json: Seq<char>) -> Option<Seq<Seq<char>>>;

/// `serde_json::to_string` writes `items` as a JSON array of strings. The
/// text it writes depends on `items` alone.
#[verifier::external_body]
pub(crate) fn to_json(items: &[String]) -> (r: Result<String, serde_json::Error>)
    ensures
        match r {
            Ok(json) => json_of_texts(texts_of(items@)) == Some(json@),
            Err(_) => json_of_texts(texts_of(items@)) is None,
        },
{
    serde_json::to_string(items)
}

/// `serde_json::from_str` reads a list of texts from `json`, and fails where
/// `json` is no JSON array of strings. What it reads depends on `json` alone.
#[verifier::external_body]
pub(crate) fn from_json(json: &str) -> (r: Result<Vec<String>, serde_json::Error>)
    ensures
        match r {
            Ok(items) => texts_of_json(json@) == Some(texts_of(items@)),
            Err(_) => texts_of_json(json@) is None,
        },
{
    serde_json::from_str(json)
}

/// The list of texts stored as `json`: empty where nothing is stored or
/// where what is stored cannot be read.
pub open spec fn stored_texts(json: Option<Seq<char>>) -> Seq<Seq<char>> {
    match json {
        Some(text) => match texts_of_json(text) {
            Some(items) => items,
            None => Seq::empty(),
        },
        None => Seq::empty(),
    }
}

/// The list of texts stored as `json`.
pub fn read_stored_texts(json: &Option<String>) -> (items: Vec<String>)
    ensures
        texts_of(items@) == stored_texts(
            match *json {
                Some(text) => Some(text@),
                None => None,
            },
        ),
{
    match json {
        Some(text) => match from_json(text.as_str()) {
            Ok(items) => items,
            Err(_) => {
                let items: Vec<String> = Vec::new();
                proof {
                    assert(texts_of(items@) =~= Seq::empty());
                }
                items
            },
        },
        None => {
            let items: Vec<String> = Vec::new();
            proof {
                assert(texts_of(items@) =~= Seq::empty());
            }
            items
        },
    }
}

} // verus!
