//! JSON values as the cache sees them.
use crate::text::chars_of;
use vstd::prelude::*;

verus! {

/// What a JSON value is: the mathematical model that every contract speaks of.
///
/// An object is a map, so the order in which its members were written is no part of it.
#[verifier::ext_equal]
pub enum Json {
    Null,
    Bool(bool),
    /// A number written without fraction or exponent.
    Integer(int),
    /// Any other number, by the text that stands for it.
    Decimal(Seq<char>),
    Text(Seq<char>),
    Array(Seq<Json>),
    Object(Map<Seq<char>, Json>),
}

/// A character of a number.
pub open spec fn is_number_char(c: char) -> bool {
    '0' <= c <= '9' || c == '-' || c == '+' || c == '.' || c == 'e' || c == 'E'
}

/// Where the digits that begin at a place of a text end.
pub open spec fn digits_end(text: Seq<char>, from: int) -> int
    decreases text.len() - from,
{
    if 0 <= from < text.len() && '0' <= text[from] <= '9' {
        digits_end(text, from + 1)
    } else {
        from
    }
}

/// Where the digits of a number begin: behind its minus sign, if it has one.
pub open spec fn integer_start(text: Seq<char>) -> int {
    if text.len() > 0 && text[0] == '-' {
        1
    } else {
        0
    }
}

/// Where the fraction that may begin at a place ends.
pub open spec fn fraction_end(text: Seq<char>, from: int) -> int {
    if 0 <= from < text.len() && text[from] == '.' {
        digits_end(text, from + 1)
    } else {
        from
    }
}

/// Whether an exponent begins at a place.
pub open spec fn has_exponent(text: Seq<char>, from: int) -> bool {
    0 <= from < text.len() && (text[from] == 'e' || text[from] == 'E')
}

/// Where the digits of an exponent begin: behind its sign, if it has one.
pub open spec fn exponent_start(text: Seq<char>, from: int) -> int {
    if from + 1 < text.len() && (text[from + 1] == '+' || text[from + 1] == '-') {
        from + 2
    } else {
        from + 1
    }
}

/// The text of a JSON number with a fraction or an exponent: digits without leading zeros, behind
/// a minus sign or not; a point and digits, or not; and an `e` and digits, behind a sign or not, or
/// not.
pub open spec fn is_decimal_text(text: Seq<char>) -> bool {
    let start = integer_start(text);
    let point = digits_end(text, start);
    let mark = fraction_end(text, point);
    &&& start < point
    &&& text[start] == '0' ==> point == start + 1
    &&& point < text.len()
    &&& mark != point + 1
    &&& if has_exponent(text, mark) {
        let digits = exponent_start(text, mark);
        digits < digits_end(text, digits) == text.len()
    } else {
        mark == text.len()
    }
}

/// What stands before the end of digits is digits.
proof fn lemma_digits_end(text: Seq<char>, from: int)
    requires
        0 <= from <= text.len(),
    ensures
        from <= digits_end(text, from) <= text.len(),
        forall|i: int| from <= i < digits_end(text, from) ==> '0' <= #[trigger] text[i] <= '9',
    decreases text.len() - from,
{
    if from < text.len() && '0' <= text[from] <= '9' {
        lemma_digits_end(text, from + 1);
    }
}

/// Every character of a number with a fraction or an exponent is one of a number, the first is a
/// digit or a minus sign, and one shows that it is no integer.
pub(crate) proof fn lemma_decimal_text(text: Seq<char>)
    requires
        is_decimal_text(text),
    ensures
        text.len() > 0,
        '0' <= text[0] <= '9' || text[0] == '-',
        forall|i: int| 0 <= i < text.len() ==> #[trigger] is_number_char(text[i]),
        text.contains('.') || text.contains('e') || text.contains('E'),
{
    let start = integer_start(text);
    let point = digits_end(text, start);
    let mark = fraction_end(text, point);
    lemma_digits_end(text, start);
    if text[point] == '.' {
        lemma_digits_end(text, point + 1);
        assert(text.contains(text[point]));
    }
    if has_exponent(text, mark) {
        lemma_digits_end(text, exponent_start(text, mark));
        assert(text.contains(text[mark]));
    }
}

/// Nothing but digits, and at least one.
pub open spec fn is_digits(s: Seq<char>) -> bool {
    s.len() > 0 && forall|i: int| 0 <= i < s.len() ==> '0' <= #[trigger] s[i] <= '9'
}

/// A text put together from a sign or none, the digits before the point, the digits behind it if
/// there are any, and an exponent if there is one: its mark, its sign if it has one, its digits.
pub open spec fn decimal_of(
    negative: bool,
    whole: Seq<char>,
    fraction: Seq<char>,
    exponent: Option<(char, Option<char>, Seq<char>)>,
) -> Seq<char> {
    let sign: Seq<char> = if negative {
        seq!['-']
    } else {
        seq![]
    };
    let point: Seq<char> = if fraction.len() > 0 {
        seq!['.'] + fraction
    } else {
        seq![]
    };
    let power: Seq<char> = match exponent {
        Some((mark, Some(s), digits)) => seq![mark, s] + digits,
        Some((mark, None, digits)) => seq![mark] + digits,
        None => seq![],
    };
    sign + whole + point + power
}

/// Digits end where something else stands.
proof fn lemma_digits_to(text: Seq<char>, from: int, to: int)
    requires
        0 <= from <= to <= text.len(),
        forall|i: int| from <= i < to ==> '0' <= #[trigger] text[i] <= '9',
        to == text.len() || !('0' <= text[to] <= '9'),
    ensures
        digits_end(text, from) == to,
    decreases to - from,
{
    if from < to {
        assert('0' <= text[from] <= '9');
        lemma_digits_to(text, from + 1, to);
    }
}

/// A sign or none, digits without a leading zero, and a fraction or an exponent or both make the
/// text of a decimal.
pub proof fn law_decimals_are_made(
    negative: bool,
    whole: Seq<char>,
    fraction: Seq<char>,
    exponent: Option<(char, Option<char>, Seq<char>)>,
)
    requires
        is_digits(whole),
        whole[0] == '0' ==> whole.len() == 1,
        fraction.len() == 0 || is_digits(fraction),
        exponent matches Some((mark, sign, digits)) ==> (mark == 'e' || mark == 'E') && (
        sign matches Some(s) ==> s == '+' || s == '-') && is_digits(digits),
        fraction.len() > 0 || exponent is Some,
    ensures
        is_decimal_text(decimal_of(negative, whole, fraction, exponent)),
{
    let text = decimal_of(negative, whole, fraction, exponent);
    let start: int = if negative {
        1
    } else {
        0
    };
    let point = start + whole.len();
    let mark = if fraction.len() > 0 {
        point + 1 + fraction.len()
    } else {
        point
    };
    assert forall|i: int| start <= i < point implies #[trigger] text[i] == whole[i - start] by {}
    assert('0' <= whole[0] <= '9');
    assert(text[start] == whole[0]);
    assert(integer_start(text) == start);
    if fraction.len() > 0 {
        assert(text[point] == '.');
        assert forall|i: int| point + 1 <= i < mark implies #[trigger] text[i] == fraction[i - point
            - 1] by {}
    }
    if let Some((m, sign, digits)) = exponent {
        assert(text[mark] == m);
        let first = if sign is Some {
            mark + 2
        } else {
            mark + 1
        };
        assert forall|i: int| first <= i < text.len() implies #[trigger] text[i] == digits[i
            - first] by {}
        assert('0' <= digits[0] <= '9');
        assert(text[first] == digits[0]);
        if let Some(s) = sign {
            assert(text[mark + 1] == s);
        }
        assert(exponent_start(text, mark) == first);
        lemma_digits_to(text, first, text.len() as int);
    }
    lemma_digits_to(text, start, point);
    if fraction.len() > 0 {
        lemma_digits_to(text, point + 1, mark);
    }
}

/// The text of a decimal is made in that way, and in no other.
pub proof fn law_decimals_come_apart(text: Seq<char>) -> (parts: (
    bool,
    Seq<char>,
    Seq<char>,
    Option<(char, Option<char>, Seq<char>)>,
))
    requires
        is_decimal_text(text),
    ensures
        text == decimal_of(parts.0, parts.1, parts.2, parts.3),
        is_digits(parts.1),
        parts.1[0] == '0' ==> parts.1.len() == 1,
        parts.2.len() == 0 || is_digits(parts.2),
        parts.3 matches Some((mark, sign, digits)) ==> (mark == 'e' || mark == 'E') && (
        sign matches Some(s) ==> s == '+' || s == '-') && is_digits(digits),
        parts.2.len() > 0 || parts.3 is Some,
{
    let start = integer_start(text);
    let point = digits_end(text, start);
    let mark = fraction_end(text, point);
    lemma_digits_end(text, start);
    let whole = text.subrange(start, point);
    if text[point] == '.' {
        lemma_digits_end(text, point + 1);
    }
    let fraction = if text[point] == '.' {
        text.subrange(point + 1, mark)
    } else {
        seq![]
    };
    let exponent = if has_exponent(text, mark) {
        let first = exponent_start(text, mark);
        lemma_digits_end(text, first);
        Some(
            (
                text[mark],
                if first == mark + 2 {
                    Some(text[mark + 1])
                } else {
                    None
                },
                text.subrange(first, text.len() as int),
            ),
        )
    } else {
        None
    };
    assert(text =~= decimal_of(start == 1, whole, fraction, exponent));
    (start == 1, whole, fraction, exponent)
}

/// A value that JSON text can spell: finitely many members in every object, and a number's text
/// for every number.
pub open spec fn spellable(value: Json) -> bool
    decreases value,
{
    match value {
        Json::Decimal(text) => is_decimal_text(text),
        Json::Array(items) => forall|i: int|
            #![trigger items[i]]
            0 <= i < items.len() ==> spellable(items[i]),
        Json::Object(members) => members.dom().finite() && forall|name: Seq<char>|
            #![trigger members.dom().contains(name)]
            members.dom().finite() && members.dom().contains(name) ==> spellable(members[name]),
        _ => true,
    }
}

/// Where the digits that begin at a place of a text end.
fn end_of_digits(chars: &Vec<char>, from: usize) -> (end: usize)
    requires
        from <= chars@.len(),
    ensures
        end == digits_end(chars@, from as int),
        from <= end <= chars@.len(),
{
    let mut end = from;
    while end < chars.len() && '0' <= chars[end] && chars[end] <= '9'
        invariant
            from <= end <= chars@.len(),
            digits_end(chars@, from as int) == digits_end(chars@, end as int),
        decreases chars@.len() - end,
    {
        end += 1;
    }
    end
}

/// A number with a fraction or an exponent, held as its JSON text.
#[derive(Debug, PartialEq, Eq)]
pub struct Decimal {
    text: String,
}

impl View for Decimal {
    type V = Seq<char>;

    closed spec fn view(&self) -> Seq<char> {
        self.text@
    }
}

impl Decimal {
    #[verifier::type_invariant]
    spec fn inv(self) -> bool {
        is_decimal_text(self.text@)
    }

    /// The number of that text, if it is the text of a number with a fraction or an exponent.
    pub fn new(text: String) -> (decimal: Option<Self>)
        ensures
            match decimal {
                Some(d) => d@ == text@ && is_decimal_text(text@),
                None => !is_decimal_text(text@),
            },
    {
        let chars = chars_of(text.as_str());
        let n = chars.len();
        let start: usize = if n > 0 && chars[0] == '-' {
            1
        } else {
            0
        };
        let point = end_of_digits(&chars, start);
        if start >= point || (chars[start] == '0' && point != start + 1) || point >= n {
            return None;
        }
        let mark = if chars[point] == '.' {
            end_of_digits(&chars, point + 1)
        } else {
            point
        };
        if mark == point + 1 {
            return None;
        }
        let end = if mark < n && (chars[mark] == 'e' || chars[mark] == 'E') {
            let digits = if mark + 1 < n && (chars[mark + 1] == '+' || chars[mark + 1] == '-') {
                mark + 2
            } else {
                mark + 1
            };
            let end = end_of_digits(&chars, digits);
            if digits >= end {
                return None;
            }
            end
        } else {
            mark
        };
        if end == n {
            Some(Decimal { text })
        } else {
            None
        }
    }

    /// The text of the number.
    pub fn as_str(&self) -> (text: &str)
        ensures
            text@ == self@,
            is_decimal_text(text@),
    {
        proof {
            use_type_invariant(self);
        }
        self.text.as_str()
    }
}

impl Clone for Decimal {
    fn clone(&self) -> (copy: Self)
        ensures
            copy@ == self@,
    {
        proof {
            use_type_invariant(self);
        }
        Decimal { text: self.text.clone() }
    }
}

/// A JSON number.
#[derive(Debug, PartialEq, Eq)]
pub enum JsonNumber {
    Unsigned(u64),
    Signed(i64),
    Decimal(Decimal),
}

/// A JSON value.
///
/// `==` compares objects member by member, in order: it tells apart values of the same model.
#[derive(Debug, PartialEq, Eq)]
pub enum JsonValue {
    Null,
    Bool(bool),
    Number(JsonNumber),
    String(String),
    Array(Vec<JsonValue>),
    Object(JsonObject),
}

/// The members of a JSON object, in the order in which they were first inserted.
///
/// No name occurs twice.
#[derive(Debug, PartialEq, Eq)]
pub struct JsonObject {
    pub(crate) entries: Vec<(String, JsonValue)>,
}

/// The model of a number.
pub open spec fn number_model(n: JsonNumber) -> Json {
    match n {
        JsonNumber::Unsigned(u) => Json::Integer(u as int),
        JsonNumber::Signed(i) => Json::Integer(i as int),
        JsonNumber::Decimal(d) => Json::Decimal(d@),
    }
}

/// The model of a value.
pub closed spec fn value_model(v: JsonValue) -> Json
    decreases v,
{
    match v {
        JsonValue::Null => Json::Null,
        JsonValue::Bool(b) => Json::Bool(b),
        JsonValue::Number(n) => number_model(n),
        JsonValue::String(s) => Json::Text(s@),
        JsonValue::Array(items) => Json::Array(
            Seq::new(
                items@.len(),
                |i: int|
                    if 0 <= i < items@.len() {
                        value_model(items@[i])
                    } else {
                        Json::Null
                    },
            ),
        ),
        JsonValue::Object(o) => Json::Object(
            Map::new(
                |k: Seq<char>| has_name(o.entries@, k),
                |k: Seq<char>|
                    {
                        let i = name_index(o.entries@, k);
                        if 0 <= i < o.entries@.len() {
                            value_model(o.entries@[i].1)
                        } else {
                            Json::Null
                        }
                    },
            ),
        ),
    }
}

pub(crate) open spec fn has_name(entries: Seq<(String, JsonValue)>, name: Seq<char>) -> bool {
    exists|i: int| 0 <= i < entries.len() && #[trigger] entries[i].0@ == name
}

pub(crate) open spec fn name_index(entries: Seq<(String, JsonValue)>, name: Seq<char>) -> int {
    choose|i: int| 0 <= i < entries.len() && #[trigger] entries[i].0@ == name
}

pub(crate) open spec fn names_distinct(entries: Seq<(String, JsonValue)>) -> bool {
    forall|i: int, j: int|
        0 <= i < entries.len() && 0 <= j < entries.len() && i != j ==> #[trigger] entries[i].0@
            != #[trigger] entries[j].0@
}

impl View for JsonValue {
    type V = Json;

    open spec fn view(&self) -> Json {
        value_model(*self)
    }
}

impl View for JsonObject {
    type V = Map<Seq<char>, Json>;

    closed spec fn view(&self) -> Map<Seq<char>, Json> {
        value_model(JsonValue::Object(*self))->Object_0
    }
}

/// What the model of a value is, variant by variant.
pub broadcast proof fn lemma_value_view(v: JsonValue)
    ensures
        #[trigger] v@ == (match v {
            JsonValue::Null => Json::Null,
            JsonValue::Bool(b) => Json::Bool(b),
            JsonValue::Number(n) => number_model(n),
            JsonValue::String(s) => Json::Text(s@),
            JsonValue::Array(items) => Json::Array(items@.map_values(|item: JsonValue| item@)),
            JsonValue::Object(o) => Json::Object(o@),
        }),
{
    if let JsonValue::Array(items) = v {
        assert(value_model(v)->Array_0 =~= items@.map_values(|item: JsonValue| item@));
    }
}

/// What the members of an object are, entry by entry.
pub(crate) proof fn lemma_object_view(o: JsonObject)
    requires
        names_distinct(o.entries@),
    ensures
        o@.dom() =~= o.entries@.map_values(|e: (String, JsonValue)| e.0@).to_set(),
        o@.dom().finite(),
        forall|i: int|
            0 <= i < o.entries@.len() ==> o@.dom().contains(#[trigger] o.entries@[i].0@)
                && o@[o.entries@[i].0@] == o.entries@[i].1@,
        forall|k: Seq<char>|
            #[trigger] o@.dom().contains(k) <==> has_name(o.entries@, k),
{
    let e = o.entries@;
    let names = e.map_values(|e: (String, JsonValue)| e.0@);
    assert forall|k: Seq<char>| #[trigger] o@.dom().contains(k) implies names.to_set().contains(
        k,
    ) by {
        let i = name_index(e, k);
        assert(names[i] == k);
    }
    assert forall|k: Seq<char>| #[trigger] names.to_set().contains(k) implies o@.dom().contains(
        k,
    ) by {
        let i = choose|i: int| 0 <= i < names.len() && names[i] == k;
        assert(e[i].0@ == k);
    }
    assert forall|i: int| 0 <= i < e.len() implies o@.dom().contains(#[trigger] e[i].0@)
        && o@[e[i].0@] == e[i].1@ by {
        assert(has_name(e, e[i].0@));
        let j = name_index(e, e[i].0@);
        assert(e[j].0@ == e[i].0@);
    }
    vstd::seq_lib::seq_to_set_is_finite(names);
}

/// The entries are the members of an object: all of them, and none twice.
pub open spec fn lists_members(
    entries: Seq<(String, JsonValue)>,
    members: Map<Seq<char>, Json>,
) -> bool {
    &&& forall|i: int|
        0 <= i < entries.len() ==> members.dom().contains(#[trigger] entries[i].0@)
            && members[entries[i].0@] == entries[i].1@
    &&& forall|name: Seq<char>| #[trigger]
        members.dom().contains(name) ==> exists|i: int|
            0 <= i < entries.len() && #[trigger] entries[i].0@ == name
    &&& forall|i: int, j: int|
        0 <= i < j < entries.len() ==> #[trigger] entries[i].0@ != #[trigger] entries[j].0@
}

/// Every kind of value has its own kind of model: an integer is the integer that it is, signed or
/// not; a string its characters; an array its items in order; an object its members.
pub proof fn law_value_models(
    b: bool,
    u: u64,
    i: i64,
    d: Decimal,
    s: String,
    items: Vec<JsonValue>,
    object: JsonObject,
    k: int,
)
    ensures
        JsonValue::Null@ == Json::Null,
        JsonValue::Bool(b)@ == Json::Bool(b),
        JsonValue::Number(JsonNumber::Unsigned(u))@ == Json::Integer(u as int),
        JsonValue::Number(JsonNumber::Signed(i))@ == Json::Integer(i as int),
        JsonValue::Number(JsonNumber::Decimal(d))@ == Json::Decimal(d@),
        JsonValue::String(s)@ == Json::Text(s@),
        JsonValue::Object(object)@ == Json::Object(object@),
        JsonValue::Array(items)@ is Array,
        JsonValue::Array(items)@->Array_0.len() == items@.len(),
        0 <= k < items@.len() ==> JsonValue::Array(items)@->Array_0[k] == items@[k]@,
{
    broadcast use lemma_value_view;

}

/// As many entries as there are members list them, and each name leads to its value.
pub proof fn law_members_listed(
    entries: Seq<(String, JsonValue)>,
    members: Map<Seq<char>, Json>,
    name: Seq<char>,
)
    requires
        lists_members(entries, members),
    ensures
        members.dom().finite(),
        entries.len() == members.dom().len(),
        members.dom().contains(name) <==> exists|i: int|
            0 <= i < entries.len() && #[trigger] entries[i].0@ == name && entries[i].1@
                == members[name],
{
    let names = entries.map_values(|e: (String, JsonValue)| e.0@);
    assert forall|k: Seq<char>| #[trigger] names.to_set().contains(k) <==> members.dom().contains(
        k,
    ) by {
        if names.to_set().contains(k) {
            let i = choose|i: int| 0 <= i < names.len() && names[i] == k;
            assert(entries[i].0@ == k);
        }
        if members.dom().contains(k) {
            let i = choose|i: int| 0 <= i < entries.len() && #[trigger] entries[i].0@ == k;
            assert(names[i] == k);
        }
    }
    assert(names.to_set() =~= members.dom());
    assert forall|i: int, j: int|
        0 <= i < names.len() && 0 <= j < names.len() && i != j implies names[i] != names[j] by {
        assert(entries[i].0@ != entries[j].0@) by {
            if i < j {
                assert(entries[i].0@ != entries[j].0@);
            } else {
                assert(entries[j].0@ != entries[i].0@);
            }
        }
    }
    names.unique_seq_to_set();
    vstd::seq_lib::seq_to_set_is_finite(names);
    if members.dom().contains(name) {
        let i = choose|i: int| 0 <= i < entries.len() && #[trigger] entries[i].0@ == name;
        assert(members[entries[i].0@] == entries[i].1@);
    }
}

impl JsonObject {
    #[verifier::type_invariant]
    pub(crate) open spec fn inv(self) -> bool {
        names_distinct(self.entries@)
    }

    /// An object without members.
    pub fn new() -> (object: Self)
        ensures
            object@ == Map::<Seq<char>, Json>::empty(),
    {
        let object = JsonObject { entries: Vec::new() };
        proof {
            lemma_object_view(object);
            assert(object@ =~= Map::<Seq<char>, Json>::empty());
        }
        object
    }

    /// The position of the member of that name.
    fn position(&self, name: &str) -> (found: Option<usize>)
        ensures
            match found {
                Some(i) => i < self.entries@.len() && self.entries@[i as int].0@ == name@,
                None => !has_name(self.entries@, name@),
            },
    {
        let wanted = name.to_owned();
        let mut i: usize = 0;
        while i < self.entries.len()
            invariant
                0 <= i <= self.entries@.len(),
                wanted@ == name@,
                forall|j: int| 0 <= j < i ==> #[trigger] self.entries@[j].0@ != name@,
            decreases self.entries@.len() - i,
        {
            if self.entries[i].0 == wanted {
                return Some(i);
            }
            i += 1;
        }
        None
    }

    /// Gives the member of that name the value, in place of the one that it had, if any.
    pub fn insert(&mut self, name: String, value: JsonValue)
        ensures
            final(self)@ == old(self)@.insert(name@, value@),
    {
        proof {
            use_type_invariant(&*self);
            lemma_object_view(*self);
        }
        let found = self.position(name.as_str());
        let mut entries: Vec<(String, JsonValue)> = Vec::new();
        std::mem::swap(&mut entries, &mut self.entries);
        let ghost before = entries@;
        match found {
            Some(i) => {
                entries.set(i, (name, value));
            },
            None => {
                entries.push((name, value));
            },
        }
        self.entries = entries;
        proof {
            lemma_object_view(*self);
            let at = match found {
                Some(i) => i as int,
                None => before.len() as int,
            };
            assert(self.entries@[at].0@ == name@);
            assert forall|k: Seq<char>|
                old(self)@.insert(name@, value@).dom().contains(k) <==> #[trigger] self@.dom().contains(
                    k,
                ) by {
                if has_name(before, k) {
                    let i = name_index(before, k);
                    assert(self.entries@[i].0@ == k);
                }
                if has_name(self.entries@, k) && k != name@ {
                    let i = name_index(self.entries@, k);
                    assert(before[i].0@ == k);
                }
            }
            assert forall|k: Seq<char>| #[trigger] self@.dom().contains(k) implies self@[k]
                == old(self)@.insert(name@, value@)[k] by {
                let i = name_index(self.entries@, k);
                assert(self.entries@[i].0@ == k);
                if k != name@ {
                    assert(before[i].0@ == k);
                }
            }
            assert(self@ =~= old(self)@.insert(name@, value@));
        }
    }

    /// The value of the member of that name.
    pub fn get(&self, name: &str) -> (value: Option<&JsonValue>)
        ensures
            match value {
                Some(v) => self@.dom().contains(name@) && v@ == self@[name@],
                None => !self@.dom().contains(name@),
            },
    {
        proof {
            use_type_invariant(self);
            lemma_object_view(*self);
        }
        match self.position(name) {
            Some(i) => Some(&self.entries[i].1),
            None => None,
        }
    }

    /// The members, each by name and value: all of them, and none twice.
    pub fn members(&self) -> (members: &Vec<(String, JsonValue)>)
        ensures
            lists_members(members@, self@),
    {
        proof {
            use_type_invariant(self);
            lemma_object_view(*self);
        }
        &self.entries
    }
}

impl JsonValue {
    /// The value of the member of that name, of an object that has one.
    pub fn get(&self, name: &str) -> (value: Option<&JsonValue>)
        ensures
            match value {
                Some(v) => self@ is Object && self@->Object_0.dom().contains(name@) && v@
                    == self@->Object_0[name@],
                None => !(self@ is Object && self@->Object_0.dom().contains(name@)),
            },
    {
        broadcast use lemma_value_view;

        match self {
            JsonValue::Object(object) => object.get(name),
            _ => None,
        }
    }

    /// The truth value that this is, if it is one.
    pub fn as_bool(&self) -> (value: Option<bool>)
        ensures
            value == (match self@ {
                Json::Bool(b) => Some(b),
                _ => None,
            }),
    {
        broadcast use lemma_value_view;

        match self {
            JsonValue::Bool(b) => Some(*b),
            _ => None,
        }
    }
}

impl Clone for JsonValue {
    fn clone(&self) -> (copy: Self)
        ensures
            copy@ == self@,
        decreases self,
    {
        broadcast use lemma_value_view;

        match self {
            JsonValue::Null => JsonValue::Null,
            JsonValue::Bool(b) => JsonValue::Bool(*b),
            JsonValue::Number(JsonNumber::Unsigned(u)) => JsonValue::Number(
                JsonNumber::Unsigned(*u),
            ),
            JsonValue::Number(JsonNumber::Signed(i)) => JsonValue::Number(JsonNumber::Signed(*i)),
            JsonValue::Number(JsonNumber::Decimal(d)) => JsonValue::Number(
                JsonNumber::Decimal(d.clone()),
            ),
            JsonValue::String(s) => JsonValue::String(s.clone()),
            JsonValue::Array(items) => {
                let mut copies: Vec<JsonValue> = Vec::new();
                let mut i: usize = 0;
                while i < items.len()
                    invariant
                        0 <= i <= items@.len(),
                        *self is Array,
                        self->Array_0 == *items,
                        copies@.len() == i,
                        forall|j: int| 0 <= j < i ==> #[trigger] copies@[j]@ == items@[j]@,
                    decreases items@.len() - i,
                {
                    let copy = items[i].clone();
                    copies.push(copy);
                    i += 1;
                }
                assert(copies@.map_values(|item: JsonValue| item@) =~= items@.map_values(
                    |item: JsonValue| item@,
                ));
                JsonValue::Array(copies)
            },
            JsonValue::Object(object) => JsonValue::Object(object.clone()),
        }
    }
}

impl Clone for JsonObject {
    fn clone(&self) -> (copy: Self)
        ensures
            copy@ == self@,
        decreases self,
    {
        proof {
            use_type_invariant(self);
            lemma_object_view(*self);
        }
        let mut copies: Vec<(String, JsonValue)> = Vec::new();
        let mut i: usize = 0;
        while i < self.entries.len()
            invariant
                0 <= i <= self.entries@.len(),
                copies@.len() == i,
                forall|j: int|
                    0 <= j < i ==> #[trigger] copies@[j].0@ == self.entries@[j].0@ && copies@[j].1@
                        == self.entries@[j].1@,
            decreases self.entries@.len() - i,
        {
            let entry = &self.entries[i];
            let name = entry.0.clone();
            let value = entry.1.clone();
            copies.push((name, value));
            i += 1;
        }
        let copy = JsonObject { entries: copies };
        proof {
            lemma_object_view(copy);
            assert forall|k: Seq<char>| #[trigger]
                self@.dom().contains(k) <==> copy@.dom().contains(k) by {
                if has_name(self.entries@, k) {
                    let j = name_index(self.entries@, k);
                    assert(copies@[j].0@ == k);
                }
                if has_name(copies@, k) {
                    let j = name_index(copies@, k);
                    assert(self.entries@[j].0@ == k);
                }
            }
            assert forall|k: Seq<char>| #[trigger] self@.dom().contains(k) implies self@[k]
                == copy@[k] by {
                let j = name_index(self.entries@, k);
                assert(copies@[j].0@ == self.entries@[j].0@);
            }
            assert(copy@ =~= self@);
        }
        copy
    }
}

} // verus!
