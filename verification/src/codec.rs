//! Lists of strings as they are kept in text columns: encoded as JSON, and
//! read back so that a damaged column never blocks access to a record.

use vstd::prelude::*;
use vstd::string::StringExecFns;

verus! {

/// What `serde_json::from_str` makes of a text that is to hold a list of
/// strings: the list, or nothing if the text is not such a list.
pub uninterp spec fn json_string_list(text: Seq<char>) -> Option<Seq<Seq<char>>>;

/// What `serde_json::to_string` makes of a list of strings: its JSON text.
/// It reports no error for a list of strings.
pub uninterp spec fn string_list_json(list: Seq<Seq<char>>) -> Option<Seq<char>>;

/// What `serde_json::from_str` makes of a text that is to hold a document:
/// whether the text is a JSON value.
pub uninterp spec fn is_json_document(text: Seq<char>) -> bool;

/// `serde_json::from_str::<serde_json::Value>`, with only its success kept.
/// The claim is only that the result is the function of the text that bears
/// the name above.
#[verifier::external_body]
fn parses_as_document(text: &str) -> (r: bool)
    ensures
        r == is_json_document(text@),
{
    serde_json::from_str::<serde_json::Value>(text).is_ok()
}

/// `serde_json::from_str::<Vec<String>>`, with its error dropped. The claim
/// is only that the result is the function of the text that bears the name
/// above.
#[verifier::external_body]
fn parse_string_list(text: &str) -> (r: Option<Vec<String>>)
    ensures
        r.deep_view() == json_string_list(text@),
{
    serde_json::from_str::<Vec<String>>(text).ok()
}

/// `serde_json::to_string` on a list of strings, with its error dropped. The
/// claim is that the result is the function of the list that bears the name
/// above, and that there is one: the serializer fails only where its writer
/// does, or where the value refuses to be written, and it writes a list of
/// strings into a vector of bytes, where neither can happen.
#[verifier::external_body]
fn print_string_list(list: &Vec<String>) -> (r: Option<String>)
    ensures
        r.deep_view() == string_list_json(list.deep_view()),
        r is Some,
{
    serde_json::to_string(list).ok()
}

/// The document that stands for one that cannot be read: the JSON value
/// `null`.
pub const DEFAULT_DOCUMENT: &'static str = "null";

/// The document that a column holds: its text where that is a JSON value,
/// the default document where it is damaged.
pub open spec fn document_or_default(stored: Seq<char>) -> Seq<char> {
    if is_json_document(stored) {
        stored
    } else {
        DEFAULT_DOCUMENT@
    }
}

/// Reads a document from the text of a column. A text that is not a JSON
/// value gives the default document, never an error: damaged content does not
/// block access to the record that holds it.
pub fn decode_document(stored: String) -> (document: String)
    ensures
        document@ == document_or_default(stored@),
{
    if parses_as_document(stored.as_str()) {
        stored
    } else {
        String::from_str(DEFAULT_DOCUMENT)
    }
}

/// The list that a column holds: what was parsed, or the empty list where
/// nothing could be parsed.
pub open spec fn list_or_empty(parsed: Option<Seq<Seq<char>>>) -> Seq<Seq<char>> {
    match parsed {
        Some(list) => list,
        None => Seq::empty(),
    }
}

/// The list that a column holds which may be without a value: nothing where
/// the column is empty or cannot be parsed.
pub open spec fn stored_optional_list(stored: Option<Seq<char>>) -> Option<Seq<Seq<char>>> {
    match stored {
        Some(text) => json_string_list(text),
        None => None,
    }
}

/// What was parsed, or the empty list where nothing could be parsed.
pub fn string_list_or_empty(parsed: Option<Vec<String>>) -> (list: Vec<String>)
    ensures
        list.deep_view() == list_or_empty(parsed.deep_view()),
{
    match parsed {
        Some(list) => list,
        None => {
            let list: Vec<String> = Vec::new();
            assert(list.deep_view() =~= Seq::<Seq<char>>::empty());
            list
        },
    }
}

/// Reads a list of strings from the text of a column. A text that is not the
/// JSON of a list of strings gives the empty list, never an error.
pub fn decode_string_list(stored: &str) -> (list: Vec<String>)
    ensures
        list.deep_view() == list_or_empty(json_string_list(stored@)),
{
    string_list_or_empty(parse_string_list(stored))
}

/// Reads a list of strings from a column that may be without a value: the
/// empty list where it is, or where its text cannot be parsed.
pub fn decode_string_list_column(stored: &Option<String>) -> (list: Vec<String>)
    ensures
        list.deep_view() == list_or_empty(stored_optional_list(stored.deep_view())),
{
    match stored {
        Some(text) => decode_string_list(text.as_str()),
        None => string_list_or_empty(None),
    }
}

/// Reads an optional list of strings from a column that may be without a
/// value: nothing where it is, or where its text cannot be parsed.
pub fn decode_optional_string_list(stored: &Option<String>) -> (list: Option<Vec<String>>)
    ensures
        list.deep_view() == stored_optional_list(stored.deep_view()),
{
    match stored {
        Some(text) => parse_string_list(text.as_str()),
        None => None,
    }
}

/// The text to keep in a column for a list of strings. Every list of strings
/// can be encoded.
pub fn encode_string_list(list: &Vec<String>) -> (text: Option<String>)
    ensures
        text is Some,
        text.deep_view() == string_list_json(list.deep_view()),
{
    print_string_list(list)
}

/// The text to keep in a column for an optional list of strings: no value for
/// no list. Every optional list of strings can be encoded.
pub fn encode_optional_string_list(list: &Option<Vec<String>>) -> (text: Option<Option<String>>)
    ensures
        text is Some,
        text.deep_view() == match list.deep_view() {
            Some(l) => match string_list_json(l) {
                Some(t) => Some(Some(t)),
                None => None,
            },
            None => Some(None),
        },
{
    match list {
        Some(l) => match print_string_list(l) {
            Some(t) => Some(Some(t)),
            None => None,
        },
        None => Some(None),
    }
}

} // verus!
