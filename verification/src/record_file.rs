//! Reading the file of saved records: a JSON list whose entries hold the
//! strings `steamid`, `player_type` and `notes`.

use vstd::prelude::*;

verus! {

/// `serde_json::Error`, the parser's error: handed on unread.
#[verifier::external_type_specification]
#[verifier::external_body]
pub struct ExJsonError(serde_json::Error);

/// What one entry holds under the three names; a field is `None` where the
/// entry holds no string under that name.
pub type RawFields = (Option<Seq<char>>, Option<Seq<char>>, Option<Seq<char>>);

/// One entry of a record file as it was read.
#[derive(Debug)]
pub struct RawRecord {
    pub steamid: Option<String>,
    pub player_type: Option<String>,
    pub notes: Option<String>,
}

/// The text of a field that may be absent.
pub open spec fn field_text(field: Option<String>) -> Option<Seq<char>> {
    match field {
        Some(text) => Some(text@),
        None => None,
    }
}

impl View for RawRecord {
    type V = RawFields;

    open spec fn view(&self) -> RawFields {
        (field_text(self.steamid), field_text(self.player_type), field_text(self.notes))
    }
}

/// The fields of the entries of a list.
pub open spec fn entries_of(list: Seq<RawRecord>) -> Seq<RawFields> {
    list.map_values(|entry: RawRecord| entry@)
}

/// What was read of a file: no list where the file holds another JSON value.
pub open spec fn list_of(read: Option<Vec<RawRecord>>) -> Option<Seq<RawFields>> {
    match read {
        Some(list) => Some(entries_of(list@)),
        None => None,
    }
}

/// What `serde_json::from_str` makes of `contents`, as far as three named
/// fields go: `None` where `contents` is no JSON; `Some(None)` where it is
/// JSON but no array; else, for each item of the array in order, the strings
/// that the item holds under the names `first`, `second` and `third`.
pub uninterp spec fn json_list_fields(
    contents: Seq<char>,
    first: Seq<char>,
    second: Seq<char>,
    third: Seq<char>,
) -> Option<Option<Seq<RawFields>>>;

/// What a record file holds: the fields `steamid`, `player_type` and `notes`
/// of the entries of its list.
pub open spec fn json_record_fields(contents: Seq<char>) -> Option<Option<Seq<RawFields>>> {
    json_list_fields(contents, "steamid"@, "player_type"@, "notes"@)
}

/// Calls `serde_json::from_str` for a `serde_json::Value` and hands out, for
/// each item of the array, what `Value`'s index by name and `as_str` give for
/// the three names. The error is the parser's own.
#[verifier::external_body]
fn parse_list_fields(contents: &str, first: &str, second: &str, third: &str) -> (r: Result<
    Option<Vec<RawRecord>>,
    serde_json::Error,
>)
    ensures
        r is Ok <==> json_list_fields(contents@, first@, second@, third@) is Some,
        r matches Ok(read) ==> json_list_fields(contents@, first@, second@, third@) == Some(
            list_of(read),
        ),
{
    let json: serde_json::Value = serde_json::from_str(contents)?;
    Ok(match json {
        serde_json::Value::Array(items) => Some(items.iter().map(|item| RawRecord {
            steamid: item[first].as_str().map(String::from),
            player_type: item[second].as_str().map(String::from),
            notes: item[third].as_str().map(String::from),
        }).collect()),
        _ => None,
    })
}

/// Reads the entries of a record file: for each entry of the list the
/// strings under `steamid`, `player_type` and `notes`. `Ok(None)` where the
/// file is JSON but no list.
pub(crate) fn parse_record_list(contents: &str) -> (r: Result<
    Option<Vec<RawRecord>>,
    serde_json::Error,
>)
    ensures
        r is Ok <==> json_record_fields(contents@) is Some,
        r matches Ok(read) ==> json_record_fields(contents@) == Some(list_of(read)),
{
    parse_list_fields(contents, "steamid", "player_type", "notes")
}

/// The message of a `serde_json::Error`, as its `Display` writes it.
#[verifier::external_body]
pub(crate) fn json_error_message(error: &serde_json::Error) -> (message: String) {
    error.to_string()
}

/// The file is no JSON.
#[derive(Debug)]
pub struct ParseError {
    /// What the parser said.
    pub message: String,
}

} // verus!
