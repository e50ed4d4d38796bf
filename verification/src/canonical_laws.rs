//! Canonical text is JSON text that tells values apart, and nothing else.
use crate::canonical::{
    canonical_text, comma_list, escaped, integer_text, item_texts, member_texts, quoted,
    sorted_names,
};
use crate::grammar::{
    denotes, denotes_char, denotes_chars, denotes_string, hex_value, law_text_denotes_one_value,
    lemma_hex_digit, names_keys, pairs,
};
use crate::json::{spellable, Json};
use crate::text::{
    ascending, lemma_ascending_unique, lemma_text_le_total, lemma_text_le_transitive, text_le,
};
use vstd::prelude::*;

verus! {

/// Puts a new name where it belongs among names in ascending order.
proof fn lemma_insert_name(listing: Seq<Seq<char>>, name: Seq<char>) -> (longer: Seq<Seq<char>>)
    requires
        ascending(listing),
        !listing.to_set().contains(name),
    ensures
        ascending(longer),
        longer.to_set() == listing.to_set().insert(name),
    decreases listing.len(),
{
    if listing.len() == 0 {
        let longer = seq![name];
        assert(longer[0] == name);
        assert(longer.to_set() =~= listing.to_set().insert(name));
        longer
    } else {
        let last = listing.last();
        let shorter = listing.drop_last();
        assert(listing[listing.len() - 1] == last);
        assert(listing.to_set().contains(last));
        assert forall|k: Seq<char>| #[trigger]
            listing.to_set().contains(k) <==> shorter.to_set().contains(k) || k == last by {
            if listing.to_set().contains(k) {
                let i = choose|i: int| 0 <= i < listing.len() && listing[i] == k;
                if i < shorter.len() {
                    assert(shorter[i] == k);
                }
            }
            if shorter.to_set().contains(k) {
                let i = choose|i: int| 0 <= i < shorter.len() && shorter[i] == k;
                assert(listing[i] == k);
            }
        }
        assert forall|i: int, j: int| 0 <= i < j < shorter.len() implies #[trigger] text_le(
            shorter[i],
            shorter[j],
        ) && shorter[i] != shorter[j] by {
            assert(text_le(listing[i], listing[j]));
        }
        if text_le(last, name) {
            let longer = listing.push(name);
            assert forall|i: int, j: int| 0 <= i < j < longer.len() implies #[trigger] text_le(
                longer[i],
                longer[j],
            ) && longer[i] != longer[j] by {
                assert(listing.to_set().contains(listing[i]));
                if j < listing.len() {
                    assert(text_le(listing[i], listing[j]));
                } else if i < listing.len() - 1 {
                    assert(text_le(listing[i], listing[listing.len() - 1]));
                    lemma_text_le_transitive(listing[i], last, name);
                }
            }
            assert forall|k: Seq<char>| #[trigger]
                longer.to_set().contains(k) <==> listing.to_set().insert(name).contains(k) by {
                if longer.to_set().contains(k) {
                    let i = choose|i: int| 0 <= i < longer.len() && longer[i] == k;
                    if i < listing.len() {
                        assert(listing[i] == k);
                    }
                }
                if listing.to_set().contains(k) {
                    let i = choose|i: int| 0 <= i < listing.len() && listing[i] == k;
                    assert(longer[i] == k);
                }
                assert(longer[listing.len() as int] == name);
            }
            assert(longer.to_set() =~= listing.to_set().insert(name));
            longer
        } else {
            let inner = lemma_insert_name(shorter, name);
            let longer = inner.push(last);
            lemma_text_le_total(last, name);
            assert forall|i: int, j: int| 0 <= i < j < longer.len() implies #[trigger] text_le(
                longer[i],
                longer[j],
            ) && longer[i] != longer[j] by {
                if j < inner.len() {
                    assert(text_le(inner[i], inner[j]));
                } else {
                    assert(inner.to_set().contains(inner[i]));
                    if inner[i] != name {
                        let k = choose|k: int| 0 <= k < shorter.len() && shorter[k] == inner[i];
                        assert(text_le(listing[k], listing[listing.len() - 1]));
                    }
                }
            }
            assert forall|k: Seq<char>| #[trigger]
                longer.to_set().contains(k) <==> listing.to_set().insert(name).contains(k) by {
                if longer.to_set().contains(k) {
                    let i = choose|i: int| 0 <= i < longer.len() && longer[i] == k;
                    if i < inner.len() {
                        assert(inner.to_set().contains(inner[i]));
                    }
                }
                if inner.to_set().contains(k) {
                    let i = choose|i: int| 0 <= i < inner.len() && inner[i] == k;
                    assert(longer[i] == k);
                }
                assert(longer[inner.len() as int] == last);
            }
            assert(longer.to_set() =~= listing.to_set().insert(name));
            longer
        }
    }
}

proof fn lemma_listing(names: Set<Seq<char>>) -> (listing: Seq<Seq<char>>)
    requires
        names.finite(),
    ensures
        ascending(listing),
        listing.to_set() == names,
    decreases names.len(),
{
    if names.len() == 0 {
        let listing: Seq<Seq<char>> = seq![];
        assert(listing.to_set() =~= names);
        listing
    } else {
        let name = names.choose();
        let listing = lemma_listing(names.remove(name));
        let longer = lemma_insert_name(listing, name);
        assert(names.remove(name).insert(name) =~= names);
        longer
    }
}

/// Finitely many names can be listed in ascending order, and in one way only.
pub proof fn law_sorted_names(names: Set<Seq<char>>)
    requires
        names.finite(),
    ensures
        ascending(sorted_names(names)),
        sorted_names(names).to_set() == names,
        forall|listing: Seq<Seq<char>>|
            ascending(listing) && #[trigger] listing.to_set() == names ==> listing
                == sorted_names(names),
{
    let listing = lemma_listing(names);
    assert(ascending(listing) && listing.to_set() == names);
    assert forall|listing: Seq<Seq<char>>|
        ascending(listing) && #[trigger] listing.to_set() == names implies listing
        == sorted_names(names) by {
        lemma_ascending_unique(listing, sorted_names(names));
    }
}

/// An escaped character stands for the character.
proof fn lemma_escaped_denotes(c: char)
    ensures
        denotes_char(escaped(c), c),
{
    if (c as int) < 0x20 {
        let (h, l) = (c as int / 16, c as int % 16);
        lemma_hex_digit(0, 0);
        lemma_hex_digit(h, h);
        lemma_hex_digit(l, l);
        assert(hex_value('0') == 0);
    }
}

/// A quoted string stands for the string.
proof fn lemma_quoted_denotes(s: Seq<char>)
    ensures
        denotes_string(quoted(s), s),
{
    let pieces = s.map_values(|c: char| escaped(c));
    assert forall|i: int| 0 <= i < s.len() implies denotes_char(#[trigger] pieces[i], s[i]) by {
        lemma_escaped_denotes(s[i]);
    }
    assert(denotes_chars(pieces, s));
}

/// The canonical text of a value is JSON text, and stands for the value.
pub proof fn law_canonical_text_is_json(value: Json)
    requires
        spellable(value),
    ensures
        denotes(canonical_text(value), value),
    decreases value,
{
    match value {
        Json::Text(s) => {
            lemma_quoted_denotes(s);
        },
        Json::Array(items) => {
            let parts = item_texts(items);
            assert forall|i: int| 0 <= i < items.len() implies denotes(
                parts[i],
                #[trigger] items[i],
            ) by {
                assert(spellable(value->Array_0[i]));
                law_canonical_text_is_json(items[i]);
            }
            assert(canonical_text(value) == seq!['['] + comma_list(parts) + seq![']']);
        },
        Json::Object(members) => {
            let names = sorted_names(members.dom());
            law_sorted_names(members.dom());
            let keys = names.map_values(|n: Seq<char>| quoted(n));
            let texts = names.map_values(|n: Seq<char>| canonical_text(members[n]));
            assert forall|i: int| 0 <= i < names.len() implies denotes_string(
                keys[i],
                #[trigger] names[i],
            ) && members.dom().contains(names[i]) && denotes(texts[i], members[names[i]]) by {
                assert(names.to_set().contains(names[i]));
                lemma_quoted_denotes(names[i]);
                assert(spellable(members[names[i]]));
                assert(decreases_to!(members => members[names[i]]));
                law_canonical_text_is_json(members[names[i]]);
            }
            assert forall|i: int, j: int|
                0 <= i < names.len() && 0 <= j < names.len() && i != j implies names[i]
                != names[j] by {
                if i < j {
                    assert(text_le(names[i], names[j]));
                } else {
                    assert(text_le(names[j], names[i]));
                }
            }
            assert(names_keys(names, keys));
            assert(pairs(keys, texts) =~= member_texts(members));
            assert(canonical_text(value) == seq!['{'] + comma_list(pairs(keys, texts)) + seq!['}']);
        },
        _ => {},
    }
}

/// Read as JSON text, the canonical text of a value gives the value back, and canonicalising that
/// again changes nothing.
pub proof fn law_canonical_text_reads_back(value: Json, read: Json)
    requires
        spellable(value),
        denotes(canonical_text(value), read),
    ensures
        read == value,
        canonical_text(read) == canonical_text(value),
{
    law_canonical_text_is_json(value);
    law_text_denotes_one_value(canonical_text(value), value, read);
}

/// Different values have different canonical texts.
pub proof fn law_canonical_text_tells_values_apart(a: Json, b: Json)
    requires
        spellable(a),
        spellable(b),
        canonical_text(a) == canonical_text(b),
    ensures
        a == b,
{
    law_canonical_text_is_json(b);
    law_canonical_text_reads_back(a, b);
}

/// The canonical text of an object: its members, by whatever listing of their names in which each
/// stands before the next, the name as a JSON string, a colon, and the canonical text of the value.
pub proof fn law_object_text(members: Map<Seq<char>, Json>, names: Seq<Seq<char>>)
    requires
        members.dom().finite(),
        names.to_set() == members.dom(),
        forall|i: int, j: int|
            0 <= i < j < names.len() ==> #[trigger] text_le(names[i], names[j]) && names[i]
                != names[j],
    ensures
        canonical_text(Json::Object(members)) == seq!['{'] + comma_list(
            Seq::new(
                names.len(),
                |i: int| quoted(names[i]) + seq![':'] + canonical_text(members[names[i]]),
            ),
        ) + seq!['}'],
{
    assert(ascending(names));
    law_sorted_names(members.dom());
    let texts = Seq::new(
        names.len(),
        |i: int| quoted(names[i]) + seq![':'] + canonical_text(members[names[i]]),
    );
    assert forall|i: int| 0 <= i < names.len() implies #[trigger] texts[i] == member_texts(
        members,
    )[i] by {
        assert(names.to_set().contains(names[i]));
    }
    assert(texts =~= member_texts(members));
}

/// The canonical text of an array: that of its items, in order.
pub proof fn law_array_text(items: Seq<Json>)
    ensures
        canonical_text(Json::Array(items)) == seq!['['] + comma_list(
            Seq::new(items.len(), |i: int| canonical_text(items[i])),
        ) + seq![']'],
{
    assert(item_texts(items) =~= Seq::new(items.len(), |i: int| canonical_text(items[i])));
}

/// The canonical texts of the other values.
pub proof fn law_scalar_text(b: bool, i: int, s: Seq<char>)
    ensures
        canonical_text(Json::Null) == "null"@,
        canonical_text(Json::Bool(b)) == if b {
            "true"@
        } else {
            "false"@
        },
        canonical_text(Json::Integer(i)) == integer_text(i),
        canonical_text(Json::Decimal(s)) == s,
        canonical_text(Json::Text(s)) == quoted(s),
{
    reveal_strlit("null");
    reveal_strlit("true");
    reveal_strlit("false");
    assert("null"@ =~= seq!['n', 'u', 'l', 'l']);
    assert("true"@ =~= seq!['t', 'r', 'u', 'e']);
    assert("false"@ =~= seq!['f', 'a', 'l', 's', 'e']);
}

/// In a list of texts a comma stands between neighbours, and nowhere else.
pub proof fn law_comma_list(parts: Seq<Seq<char>>, more: Seq<char>)
    ensures
        comma_list(seq![]) == Seq::<char>::empty(),
        comma_list(seq![more]) == more,
        parts.len() > 0 ==> comma_list(parts.push(more)) == comma_list(parts) + seq![','] + more,
{
    assert(parts.push(more).drop_last() =~= parts);
}

/// The order in which members are given makes no difference to the canonical text, at any depth:
/// neither to that of the object, nor to that of a value that holds it.
pub proof fn law_member_order_is_immaterial(
    members: Map<Seq<char>, Json>,
    name1: Seq<char>,
    value1: Json,
    name2: Seq<char>,
    value2: Json,
    context: spec_fn(Json) -> Json,
)
    requires
        name1 != name2,
    ensures
        ({
            let one = Json::Object(members.insert(name1, value1).insert(name2, value2));
            let other = Json::Object(members.insert(name2, value2).insert(name1, value1));
            canonical_text(one) == canonical_text(other) && canonical_text(context(one))
                == canonical_text(context(other))
        }),
{
    assert(members.insert(name1, value1).insert(name2, value2) =~= members.insert(
        name2,
        value2,
    ).insert(name1, value1));
}

} // verus!
