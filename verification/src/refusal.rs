//! What is said of a value that is no configuration.
use crate::canonical::{integer_text, number_text};
use crate::json::{lemma_value_view, Json, JsonNumber, JsonValue};
use vstd::prelude::*;

verus! {

/// A string as `{:?}` writes it.
pub uninterp spec fn debug_text(s: Seq<char>) -> Seq<char>;

/// `Debug` of a string, by `format!`: the text that stands for the string in messages. Which
/// characters it escapes, and how, is not stated; it depends on the string alone.
#[verifier::external_body]
fn debug_of(s: &str) -> (text: String)
    ensures
        text@ == debug_text(s@),
{
    format!("{:?}", s)
}

/// The value, as a message names it.
pub open spec fn unexpected(value: Json) -> Seq<char> {
    match value {
        Json::Null => "null"@,
        Json::Bool(b) => if b {
            "boolean `true`"@
        } else {
            "boolean `false`"@
        },
        Json::Integer(i) => "integer `"@ + integer_text(i) + "`"@,
        Json::Decimal(text) => "floating point `"@ + text + "`"@,
        Json::Text(s) => "string "@ + debug_text(s),
        Json::Array(_) => "sequence"@,
        Json::Object(_) => "map"@,
    }
}

/// The value is of another type than the expected one.
pub open spec fn invalid_type(value: Json, expected: Seq<char>) -> Seq<char> {
    "invalid type: "@ + unexpected(value) + ", expected "@ + expected
}

/// The value is of the expected type, but out of its range.
pub open spec fn invalid_value(value: Json, expected: Seq<char>) -> Seq<char> {
    "invalid value: "@ + unexpected(value) + ", expected "@ + expected
}

/// A list of that length stands where another one is expected.
pub open spec fn invalid_length(len: nat, expected: Seq<char>) -> Seq<char> {
    "invalid length "@ + integer_text(len as int) + ", expected "@ + expected
}

/// A field that has to be there is not.
pub open spec fn missing_field(name: Seq<char>) -> Seq<char> {
    "missing field `"@ + name + "`"@
}

/// A name in backquotes.
pub open spec fn ticked(name: Seq<char>) -> Seq<char> {
    "`"@ + name + "`"@
}

/// Names in backquotes, with a comma and a space between neighbours.
pub open spec fn ticked_list(names: Seq<Seq<char>>) -> Seq<char>
    decreases names.len(),
{
    if names.len() == 0 {
        seq![]
    } else if names.len() == 1 {
        ticked(names[0])
    } else {
        ticked_list(names.drop_last()) + ", "@ + ticked(names.last())
    }
}

/// The choice between names.
pub open spec fn one_of(names: Seq<Seq<char>>) -> Seq<char> {
    if names.len() == 1 {
        ticked(names[0])
    } else if names.len() == 2 {
        ticked(names[0]) + " or "@ + ticked(names[1])
    } else {
        "one of "@ + ticked_list(names)
    }
}

/// A member of that name is none of the fields.
pub open spec fn unknown_field(name: Seq<char>, fields: Seq<Seq<char>>) -> Seq<char> {
    "unknown field `"@ + name + "`, expected "@ + one_of(fields)
}

/// The value, as a message names it.
fn unexpected_text(value: &JsonValue) -> (text: String)
    ensures
        text@ == unexpected(value@),
{
    broadcast use lemma_value_view;

    match value {
        JsonValue::Null => "null".to_owned(),
        JsonValue::Bool(true) => "boolean `true`".to_owned(),
        JsonValue::Bool(false) => "boolean `false`".to_owned(),
        JsonValue::Number(JsonNumber::Unsigned(u)) => "integer `".to_owned().concat(
            number_text(*u as i128).as_str(),
        ).concat("`"),
        JsonValue::Number(JsonNumber::Signed(i)) => "integer `".to_owned().concat(
            number_text(*i as i128).as_str(),
        ).concat("`"),
        JsonValue::Number(JsonNumber::Decimal(d)) => "floating point `".to_owned().concat(
            d.as_str(),
        ).concat("`"),
        JsonValue::String(s) => "string ".to_owned().concat(debug_of(s.as_str()).as_str()),
        JsonValue::Array(_) => "sequence".to_owned(),
        JsonValue::Object(_) => "map".to_owned(),
    }
}

/// The message on a value of another type.
pub(crate) fn invalid_type_text(value: &JsonValue, expected: &str) -> (text: String)
    ensures
        text@ == invalid_type(value@, expected@),
{
    "invalid type: ".to_owned().concat(unexpected_text(value).as_str()).concat(
        ", expected ",
    ).concat(expected)
}

/// The message on a value out of range.
pub(crate) fn invalid_value_text(value: &JsonValue, expected: &str) -> (text: String)
    ensures
        text@ == invalid_value(value@, expected@),
{
    "invalid value: ".to_owned().concat(unexpected_text(value).as_str()).concat(
        ", expected ",
    ).concat(expected)
}

/// The message on a list of another length.
pub(crate) fn invalid_length_text(len: usize, expected: &str) -> (text: String)
    ensures
        text@ == invalid_length(len as nat, expected@),
{
    "invalid length ".to_owned().concat(number_text(len as i128).as_str()).concat(
        ", expected ",
    ).concat(expected)
}

/// The message on a field that is not there.
pub(crate) fn missing_field_text(name: &str) -> (text: String)
    ensures
        text@ == missing_field(name@),
{
    "missing field `".to_owned().concat(name).concat("`")
}

fn ticked_text(name: &str) -> (text: String)
    ensures
        text@ == ticked(name@),
{
    "`".to_owned().concat(name).concat("`")
}

/// The names of fields, as texts.
pub open spec fn names_of(fields: Seq<&str>) -> Seq<Seq<char>> {
    fields.map_values(|f: &str| f@)
}

/// The message on a member that is none of the fields.
pub(crate) fn unknown_field_text(name: &str, fields: &Vec<&str>) -> (text: String)
    requires
        fields@.len() > 0,
    ensures
        text@ == unknown_field(name@, names_of(fields@)),
{
    let ghost names = names_of(fields@);
    let choice = if fields.len() == 1 {
        ticked_text(fields[0])
    } else if fields.len() == 2 {
        ticked_text(fields[0]).concat(" or ").concat(ticked_text(fields[1]).as_str())
    } else {
        let mut list = ticked_text(fields[0]);
        let mut i: usize = 1;
        assert(names.take(1) =~= seq![names[0]]);
        while i < fields.len()
            invariant
                1 <= i <= fields@.len(),
                names == names_of(fields@),
                list@ == ticked_list(names.take(i as int)),
            decreases fields@.len() - i,
        {
            assert(names.take(i + 1).drop_last() =~= names.take(i as int));
            list = list.concat(", ").concat(ticked_text(fields[i]).as_str());
            i += 1;
        }
        assert(names.take(names.len() as int) =~= names);
        "one of ".to_owned().concat(list.as_str())
    };
    "unknown field `".to_owned().concat(name).concat("`, expected ").concat(choice.as_str())
}

} // verus!
