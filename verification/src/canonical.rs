//! Canonical JSON text: one text per value, whatever the order of its members.
use crate::json::{
    lemma_object_view, lemma_value_view, name_index, spellable, Json, JsonNumber, JsonObject,
    JsonValue,
};
use crate::text::{
    ascending, chars_le, chars_of, lemma_ascending_unique, lemma_text_le_total,
    lemma_text_le_transitive, text_le,
};
use vstd::prelude::*;

verus! {

/// The digit for a number below sixteen.
pub open spec fn hex_digit(d: int) -> char {
    seq!['0', '1', '2', '3', '4', '5', '6', '7', '8', '9', 'a', 'b', 'c', 'd', 'e', 'f'][d]
}

/// A number in decimal digits, without leading zeros.
pub open spec fn natural_text(n: nat) -> Seq<char>
    decreases n,
{
    if n < 10 {
        seq![hex_digit(n as int)]
    } else {
        natural_text(n / 10).push(hex_digit((n % 10) as int))
    }
}

/// An integer in decimal digits, behind a minus sign where it is negative.
pub open spec fn integer_text(i: int) -> Seq<char> {
    if i < 0 {
        seq!['-'] + natural_text((-i) as nat)
    } else {
        natural_text(i as nat)
    }
}

/// How a character is written inside a JSON string.
pub open spec fn escaped(c: char) -> Seq<char> {
    if c == '"' {
        seq!['\\', '"']
    } else if c == '\\' {
        seq!['\\', '\\']
    } else if c == '\u{8}' {
        seq!['\\', 'b']
    } else if c == '\t' {
        seq!['\\', 't']
    } else if c == '\n' {
        seq!['\\', 'n']
    } else if c == '\u{c}' {
        seq!['\\', 'f']
    } else if c == '\r' {
        seq!['\\', 'r']
    } else if (c as int) < 0x20 {
        seq!['\\', 'u', '0', '0', hex_digit(c as int / 16), hex_digit(c as int % 16)]
    } else {
        seq![c]
    }
}

/// The inside of a JSON string: each character escaped.
pub open spec fn escaped_text(s: Seq<char>) -> Seq<char> {
    s.map_values(|c: char| escaped(c)).flatten()
}

/// A JSON string: each character escaped, in double quotes.
pub open spec fn quoted(s: Seq<char>) -> Seq<char> {
    seq!['"'] + escaped_text(s) + seq!['"']
}

/// The parts with a comma between neighbours.
pub open spec fn comma_list(parts: Seq<Seq<char>>) -> Seq<char>
    decreases parts.len(),
{
    if parts.len() == 0 {
        seq![]
    } else if parts.len() == 1 {
        parts[0]
    } else {
        comma_list(parts.drop_last()) + seq![','] + parts.last()
    }
}

/// The names, each once, in ascending order.
pub open spec fn sorted_names(names: Set<Seq<char>>) -> Seq<Seq<char>> {
    choose|listing: Seq<Seq<char>>| ascending(listing) && #[trigger] listing.to_set() == names
}

/// The canonical text of a value: no white space, the members of every object in ascending
/// order of their names.
pub open spec fn canonical_text(value: Json) -> Seq<char>
    decreases value,
{
    match value {
        Json::Null => seq!['n', 'u', 'l', 'l'],
        Json::Bool(b) => if b {
            seq!['t', 'r', 'u', 'e']
        } else {
            seq!['f', 'a', 'l', 's', 'e']
        },
        Json::Integer(i) => integer_text(i),
        Json::Decimal(text) => text,
        Json::Text(s) => quoted(s),
        Json::Array(items) => seq!['['] + comma_list(item_texts(items)) + seq![']'],
        Json::Object(members) => seq!['{'] + comma_list(member_texts(members)) + seq!['}'],
    }
}

/// The canonical texts of the items of an array.
pub open spec fn item_texts(items: Seq<Json>) -> Seq<Seq<char>>
    decreases items,
{
    Seq::new(
        items.len(),
        |i: int|
            if 0 <= i < items.len() {
                canonical_text(items[i])
            } else {
                seq![]
            },
    )
}

/// The canonical texts of the members of an object, in ascending order of their names: the
/// name as a JSON string, a colon, the value.
pub open spec fn member_texts(members: Map<Seq<char>, Json>) -> Seq<Seq<char>>
    decreases members,
{
    let names = sorted_names(members.dom());
    Seq::new(
        names.len(),
        |i: int|
            if members.dom().finite() && members.dom().contains(names[i]) {
                quoted(names[i]) + seq![':'] + canonical_text(members[names[i]])
            } else {
                seq![]
            },
    )
}

/// `serde_json::to_string` of a string: the string in double quotes, with the quote, the
/// backslash and the control characters below a space escaped. It does not fail.
#[verifier::external_body]
fn string_text(s: &str) -> (text: String)
    ensures
        text@ == quoted(s@),
{
    serde_json::to_string(s).unwrap_or_default()
}

/// `serde_json::to_string` of an integer: its decimal digits, behind a minus sign where it is
/// negative. It does not fail.
#[verifier::external_body]
pub(crate) fn number_text(i: i128) -> (text: String)
    ensures
        text@ == integer_text(i as int),
{
    serde_json::to_string(&i).unwrap_or_default()
}

/// The texts with a comma between neighbours.
fn join_with_commas(parts: &Vec<String>) -> (text: String)
    ensures
        text@ == comma_list(parts@.map_values(|p: String| p@)),
{
    proof {
        reveal_strlit(",");
    }
    let ghost texts = parts@.map_values(|p: String| p@);
    let mut text = String::new();
    let mut i: usize = 0;
    while i < parts.len()
        invariant
            0 <= i <= parts@.len(),
            ","@ == seq![','],
            texts == parts@.map_values(|p: String| p@),
            text@ == comma_list(texts.take(i as int)),
        decreases parts@.len() - i,
    {
        if i > 0 {
            text.append(",");
        }
        text.append(parts[i].as_str());
        proof {
            assert(texts.take(i + 1).drop_last() =~= texts.take(i as int));
        }
        i += 1;
    }
    assert(texts.take(texts.len() as int) =~= texts);
    text
}

/// The canonical text of a value: its JSON text with object keys sorted recursively.
///
/// Every value is one that JSON text can spell, so its canonical text tells it from all others.
pub fn canonical_json(value: &JsonValue) -> (text: String)
    ensures
        text@ == canonical_text(value@),
        spellable(value@),
    decreases value,
{
    broadcast use lemma_value_view;

    match value {
        JsonValue::Null => {
            proof {
                reveal_strlit("null");
            }
            assert("null"@ =~= seq!['n', 'u', 'l', 'l']);
            "null".to_owned()
        },
        JsonValue::Bool(true) => {
            proof {
                reveal_strlit("true");
            }
            assert("true"@ =~= seq!['t', 'r', 'u', 'e']);
            "true".to_owned()
        },
        JsonValue::Bool(false) => {
            proof {
                reveal_strlit("false");
            }
            assert("false"@ =~= seq!['f', 'a', 'l', 's', 'e']);
            "false".to_owned()
        },
        JsonValue::Number(JsonNumber::Unsigned(u)) => number_text(*u as i128),
        JsonValue::Number(JsonNumber::Signed(i)) => number_text(*i as i128),
        JsonValue::Number(JsonNumber::Decimal(d)) => d.as_str().to_owned(),
        JsonValue::String(s) => string_text(s.as_str()),
        JsonValue::Array(items) => {
            let mut parts: Vec<String> = Vec::new();
            let mut i: usize = 0;
            while i < items.len()
                invariant
                    0 <= i <= items@.len(),
                    *value is Array,
                    value->Array_0 == *items,
                    parts@.len() == i,
                    forall|j: int|
                        0 <= j < i ==> #[trigger] parts@[j]@ == canonical_text(items@[j]@)
                            && spellable(items@[j]@),
                decreases items@.len() - i,
            {
                let part = canonical_json(&items[i]);
                parts.push(part);
                i += 1;
            }
            let list = join_with_commas(&parts);
            proof {
                reveal_strlit("[");
                reveal_strlit("]");
                assert(parts@.map_values(|p: String| p@) =~= item_texts(value@->Array_0));
                let models = value@->Array_0;
                assert forall|j: int| 0 <= j < models.len() implies spellable(
                    #[trigger] models[j],
                ) by {
                    assert(parts@[j]@ == canonical_text(items@[j]@));
                }
                assert("["@ =~= seq!['[']);
                assert("]"@ =~= seq![']']);
            }
            "[".to_owned().concat(list.as_str()).concat("]")
        },
        JsonValue::Object(object) => canonical_object(object),
    }
}

/// The text of one member of an object.
spec fn member_text(members: Map<Seq<char>, Json>, name: Seq<char>) -> Seq<char> {
    quoted(name) + seq![':'] + canonical_text(members[name])
}

/// The names of the first `n` entries.
spec fn first_names(object: JsonObject, n: int) -> Set<Seq<char>> {
    object.entries@.take(n).map_values(|e: (String, JsonValue)| e.0@).to_set()
}

spec fn listed_names(listed: Seq<(Vec<char>, String)>) -> Seq<Seq<char>> {
    listed.map_values(|m: (Vec<char>, String)| m.0@)
}

/// The canonical text of an object.
fn canonical_object(object: &JsonObject) -> (text: String)
    ensures
        text@ == canonical_text(Json::Object(object@)),
        spellable(Json::Object(object@)),
    decreases object,
{
    proof {
        use_type_invariant(object);
        lemma_object_view(*object);
        reveal_strlit(":");
        reveal_strlit("{");
        reveal_strlit("}");
        assert(":"@ =~= seq![':']);
        assert("{"@ =~= seq!['{']);
        assert("}"@ =~= seq!['}']);
        assert(listed_names(Seq::empty()).to_set() =~= first_names(*object, 0));
    }
    let mut listed: Vec<(Vec<char>, String)> = Vec::new();
    let mut i: usize = 0;
    while i < object.entries.len()
        invariant
            0 <= i <= object.entries@.len(),
            ":"@ == seq![':'],
            object.inv(),
            forall|j: int|
                0 <= j < object.entries@.len() ==> object@.dom().contains(
                    #[trigger] object.entries@[j].0@,
                ) && object@[object.entries@[j].0@] == object.entries@[j].1@,
            forall|j: int| 0 <= j < i ==> spellable((#[trigger] object.entries@[j]).1@),
            ascending(listed_names(listed@)),
            listed_names(listed@).to_set() == first_names(*object, i as int),
            forall|j: int|
                0 <= j < listed@.len() ==> #[trigger] listed@[j].1@ == member_text(
                    object@,
                    listed@[j].0@,
                ),
        decreases object.entries@.len() - i,
    {
        let entry = &object.entries[i];
        let name = chars_of(entry.0.as_str());
        let text = string_text(entry.0.as_str()).concat(":").concat(
            canonical_json(&entry.1).as_str(),
        );
        let ghost before = listed@;
        proof {
            lemma_next_name(*object, i as int);
            assert(listed_names(before).contains(name@) ==> listed_names(before).to_set().contains(
                name@,
            ));
            assert(text@ =~= member_text(object@, name@));
        }
        let at = place_of(&listed, &name);
        listed.insert(at, (name, text));
        proof {
            let names = listed_names(before);
            assert(listed_names(listed@) =~= names.insert(at as int, name@));
            assert forall|k: Seq<char>| #[trigger]
                listed_names(listed@).to_set().contains(k) <==> first_names(
                    *object,
                    i + 1,
                ).contains(k) by {
                lemma_insert_to_set(names, at as int, name@, k);
            }
            assert(listed_names(listed@).to_set() =~= first_names(*object, i + 1));
        }
        i += 1;
    }
    let ghost names = listed_names(listed@);
    proof {
        lemma_object_view(*object);
        assert forall|name: Seq<char>| #[trigger] object@.dom().contains(name) implies spellable(
            object@[name],
        ) by {
            let j = name_index(object.entries@, name);
            assert(object.entries@[j].0@ == name);
        }
        assert(object.entries@.take(i as int) =~= object.entries@);
        assert(names.to_set() == object@.dom());
        let canonical = sorted_names(object@.dom());
        assert(ascending(canonical) && canonical.to_set() == object@.dom());
        lemma_ascending_unique(names, canonical);
    }
    let mut parts: Vec<String> = Vec::new();
    let mut j: usize = 0;
    while j < listed.len()
        invariant
            0 <= j <= listed@.len(),
            parts@.len() == j,
            forall|k: int|
                0 <= k < listed@.len() ==> #[trigger] listed@[k].1@ == member_text(
                    object@,
                    listed@[k].0@,
                ),
            forall|k: int|
                0 <= k < j ==> #[trigger] parts@[k]@ == member_text(object@, listed@[k].0@),
        decreases listed@.len() - j,
    {
        parts.push(listed[j].1.clone());
        j += 1;
    }
    let list = join_with_commas(&parts);
    proof {
        let texts = member_texts(object@);
        assert forall|k: int| 0 <= k < names.len() implies #[trigger] texts[k] == parts@[k]@ by {
            assert(names.to_set().contains(names[k]));
            assert(names[k] == listed@[k].0@);
        }
        assert(parts@.map_values(|p: String| p@) =~= texts);
    }
    "{".to_owned().concat(list.as_str()).concat("}")
}

/// The name of entry `n` is new among the first `n`, and completes the first `n + 1`.
proof fn lemma_next_name(object: JsonObject, n: int)
    requires
        object.inv(),
        0 <= n < object.entries@.len(),
    ensures
        !first_names(object, n).contains(object.entries@[n].0@),
        forall|k: Seq<char>| #[trigger]
            first_names(object, n + 1).contains(k) <==> first_names(object, n).contains(k) || k
                == object.entries@[n].0@,
{
    let e = object.entries@;
    let few = e.take(n).map_values(|e: (String, JsonValue)| e.0@);
    let more = e.take(n + 1).map_values(|e: (String, JsonValue)| e.0@);
    if few.to_set().contains(e[n].0@) {
        let i = choose|i: int| 0 <= i < few.len() && few[i] == e[n].0@;
        assert(e[i].0@ == e[n].0@);
    }
    assert forall|k: Seq<char>| #[trigger] more.to_set().contains(k) <==> few.to_set().contains(k)
        || k == e[n].0@ by {
        if more.to_set().contains(k) {
            let i = choose|i: int| 0 <= i < more.len() && more[i] == k;
            if i < n {
                assert(few[i] == k);
            }
        }
        if few.to_set().contains(k) {
            let i = choose|i: int| 0 <= i < few.len() && few[i] == k;
            assert(more[i] == k);
        }
        assert(more[n] == e[n].0@);
    }
}

proof fn lemma_insert_to_set(names: Seq<Seq<char>>, at: int, name: Seq<char>, k: Seq<char>)
    requires
        0 <= at <= names.len(),
    ensures
        names.insert(at, name).to_set().contains(k) <==> names.to_set().contains(k) || k == name,
{
    let more = names.insert(at, name);
    if more.to_set().contains(k) {
        let i = choose|i: int| 0 <= i < more.len() && more[i] == k;
        if i < at {
            assert(names[i] == k);
        } else if i > at {
            assert(names[i - 1] == k);
        }
    }
    if names.to_set().contains(k) {
        let i = choose|i: int| 0 <= i < names.len() && names[i] == k;
        if i < at {
            assert(more[i] == k);
        } else {
            assert(more[i + 1] == k);
        }
    }
    assert(more[at] == name);
}

/// Where a new name belongs among names in ascending order.
fn place_of(listed: &Vec<(Vec<char>, String)>, name: &Vec<char>) -> (at: usize)
    requires
        ascending(listed_names(listed@)),
        !listed_names(listed@).contains(name@),
    ensures
        at <= listed@.len(),
        ascending(listed_names(listed@).insert(at as int, name@)),
{
    let ghost names = listed_names(listed@);
    let mut at: usize = 0;
    while at < listed.len() && chars_le(&listed[at].0, name)
        invariant
            at <= listed@.len(),
            names == listed_names(listed@),
            forall|i: int| 0 <= i < at ==> text_le(#[trigger] names[i], name@),
        decreases listed@.len() - at,
    {
        assert(names[at as int] == listed@[at as int].0@);
        at += 1;
    }
    proof {
        let more = names.insert(at as int, name@);
        assert forall|i: int| at <= i < names.len() implies text_le(name@, #[trigger] names[i]) by {
            assert(names[at as int] == listed@[at as int].0@);
            lemma_text_le_total(name@, names[at as int]);
            if i > at {
                assert(text_le(names[at as int], names[i]));
                lemma_text_le_transitive(name@, names[at as int], names[i]);
            }
        }
        assert forall|i: int, j: int| 0 <= i < j < more.len() implies #[trigger] text_le(
            more[i],
            more[j],
        ) && more[i] != more[j] by {
            let i0 = if i < at { i } else { i - 1 };
            let j0 = if j < at { j } else { j - 1 };
            if i == at {
                assert(more[j] == names[j0]);
            } else if j == at {
                assert(more[i] == names[i0]);
            } else {
                assert(text_le(names[i0], names[j0]));
            }
        }
    }
    at
}

} // verus!
