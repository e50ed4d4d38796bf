//! The grammar of JSON text: which value a text stands for.
//!
//! White space between tokens is left out.
use crate::canonical::{comma_list, hex_digit, integer_text, natural_text};
use crate::json::{is_decimal_text, is_number_char, lemma_decimal_text, Json};
use vstd::prelude::*;

verus! {

/// The value of a hexadecimal digit, or -1.
pub open spec fn hex_value(c: char) -> int {
    if '0' <= c <= '9' {
        c as int - '0' as int
    } else if 'a' <= c <= 'f' {
        c as int - 'a' as int + 10
    } else if 'A' <= c <= 'F' {
        c as int - 'A' as int + 10
    } else {
        -1
    }
}

/// The number that the escape `\uXXXX` at place `k` of a text gives, or -1 where there is none.
pub open spec fn unit_at(text: Seq<char>, k: int) -> int {
    if 0 <= k && k + 6 <= text.len() && text[k] == '\\' && text[k + 1] == 'u' && hex_value(
        text[k + 2],
    ) >= 0 && hex_value(text[k + 3]) >= 0 && hex_value(text[k + 4]) >= 0 && hex_value(text[k + 5])
        >= 0 {
        hex_value(text[k + 2]) * 4096 + hex_value(text[k + 3]) * 256 + hex_value(text[k + 4]) * 16
            + hex_value(text[k + 5])
    } else {
        -1
    }
}

/// The character that a backslash and this one stand for.
pub open spec fn short_escape(e: char) -> Option<char> {
    if e == '"' || e == '\\' || e == '/' {
        Some(e)
    } else if e == 'b' {
        Some('\u{8}')
    } else if e == 'f' {
        Some('\u{c}')
    } else if e == 'n' {
        Some('\n')
    } else if e == 'r' {
        Some('\r')
    } else if e == 't' {
        Some('\t')
    } else {
        None
    }
}

/// The piece of a string stands for the character: itself, unless it is the quote, the backslash
/// or a control character; a short escape; its code point in hexadecimal; or, beyond what four
/// digits can give, a surrogate pair.
pub open spec fn denotes_char(piece: Seq<char>, c: char) -> bool {
    ||| piece == seq![c] && c != '"' && c != '\\' && c as int >= 0x20
    ||| piece.len() == 2 && piece[0] == '\\' && short_escape(piece[1]) == Some(c)
    ||| piece.len() == 6 && unit_at(piece, 0) == c as int
    ||| {
        let (high, low) = (unit_at(piece, 0), unit_at(piece, 6));
        &&& piece.len() == 12
        &&& 0xD800 <= high < 0xDC00 <= low < 0xE000
        &&& c as int == 0x10000 + (high - 0xD800) * 0x400 + (low - 0xDC00)
    }
}

/// The pieces stand for the characters of a string, one for each.
pub open spec fn denotes_chars(pieces: Seq<Seq<char>>, s: Seq<char>) -> bool {
    &&& pieces.len() == s.len()
    &&& forall|i: int| 0 <= i < s.len() ==> denotes_char(#[trigger] pieces[i], s[i])
}

/// The text stands for a string.
pub open spec fn denotes_string(text: Seq<char>, s: Seq<char>) -> bool {
    exists|pieces: Seq<Seq<char>>| #[trigger]
        denotes_chars(pieces, s) && text == seq!['"'] + pieces.flatten() + seq!['"']
}

/// Members of an object: each key with its value behind a colon.
pub open spec fn pairs(keys: Seq<Seq<char>>, texts: Seq<Seq<char>>) -> Seq<Seq<char>> {
    Seq::new(keys.len(), |i: int| keys[i] + seq![':'] + texts[i])
}

/// The text stands for the value.
pub open spec fn denotes(text: Seq<char>, value: Json) -> bool
    decreases value,
{
    match value {
        Json::Null => text == seq!['n', 'u', 'l', 'l'],
        Json::Bool(b) => if b {
            text == seq!['t', 'r', 'u', 'e']
        } else {
            text == seq!['f', 'a', 'l', 's', 'e']
        },
        Json::Integer(i) => text == integer_text(i),
        Json::Decimal(t) => text == t && is_decimal_text(t),
        Json::Text(s) => denotes_string(text, s),
        // An item each, with a comma between neighbours.
        Json::Array(items) => exists|parts: Seq<Seq<char>>|
            #![trigger comma_list(parts)]
            {
                &&& text == seq!['['] + comma_list(parts) + seq![']']
                &&& parts.len() == items.len()
                &&& forall|i: int|
                    #![trigger items[i]]
                    0 <= i < items.len() ==> denotes(parts[i], items[i])
            },
        // A member for each name, in any order.
        Json::Object(members) => exists|
            names: Seq<Seq<char>>,
            keys: Seq<Seq<char>>,
            texts: Seq<Seq<char>>,
        |
            #![trigger names_keys(names, keys), pairs(keys, texts)]
            {
                &&& text == seq!['{'] + comma_list(pairs(keys, texts)) + seq!['}']
                &&& names_keys(names, keys)
                &&& names.to_set() == members.dom()
                &&& texts.len() == names.len()
                &&& forall|i: int|
                    #![trigger names[i]]
                    0 <= i < names.len() && members.dom().finite() && members.dom().contains(
                        names[i],
                    ) ==> denotes(texts[i], members[names[i]])
            },
    }
}

/// The keys stand for the names, none of which occurs twice.
pub open spec fn names_keys(names: Seq<Seq<char>>, keys: Seq<Seq<char>>) -> bool {
    &&& names.no_duplicates()
    &&& keys.len() == names.len()
    &&& forall|i: int| 0 <= i < names.len() ==> denotes_string(keys[i], #[trigger] names[i])
}

/// The texts stand for the items of an array, one for each.
spec fn denotes_items(parts: Seq<Seq<char>>, items: Seq<Json>) -> bool {
    &&& parts.len() == items.len()
    &&& forall|i: int|
        #![trigger items[i]]
        #![trigger parts[i]]
        0 <= i < items.len() ==> denotes(parts[i], items[i])
}

/// The keys and texts stand for the members of an object, each name once, in any order.
spec fn denotes_members(
    names: Seq<Seq<char>>,
    keys: Seq<Seq<char>>,
    texts: Seq<Seq<char>>,
    members: Map<Seq<char>, Json>,
) -> bool {
    &&& names_keys(names, keys)
    &&& names.to_set() == members.dom()
    &&& members.dom().finite()
    &&& texts.len() == names.len()
    &&& forall|i: int|
        #![trigger names[i]]
        0 <= i < names.len() ==> members.dom().contains(names[i]) && denotes(
            texts[i],
            members[names[i]],
        )
}

/// What may follow a value: nothing, or a character that no value begins with.
spec fn stops(rest: Seq<char>) -> bool {
    rest.len() == 0 || rest[0] == ',' || rest[0] == ']' || rest[0] == '}'
}

/// Two texts that begin the same and are as long are the same, and so are their ends.
proof fn lemma_cut(t: Seq<char>, u: Seq<char>, x: Seq<char>, y: Seq<char>)
    requires
        t + x == u + y,
        t.len() == u.len(),
    ensures
        t == u,
        x == y,
{
    let whole = t + x;
    assert(t =~= whole.take(t.len() as int));
    assert(u =~= whole.take(t.len() as int));
    assert(x =~= whole.skip(t.len() as int));
    assert(y =~= whole.skip(t.len() as int));
}

/// The hexadecimal digits can be told apart by their values.
pub(crate) proof fn lemma_hex_digit(d: int, e: int)
    requires
        0 <= d < 16,
        0 <= e < 16,
    ensures
        hex_digit(d) == hex_digit(e) ==> d == e,
        d < 10 ==> '0' <= hex_digit(d) <= '9',
        hex_value(hex_digit(d)) == d,
{
}

/// A number ends where the characters of numbers end.
proof fn lemma_number_ends(t: Seq<char>, u: Seq<char>, x: Seq<char>, y: Seq<char>)
    requires
        forall|i: int| 0 <= i < t.len() ==> #[trigger] is_number_char(t[i]),
        forall|i: int| 0 <= i < u.len() ==> #[trigger] is_number_char(u[i]),
        stops(x),
        stops(y),
        t + x == u + y,
    ensures
        t == u,
        x == y,
{
    let whole = t + x;
    if t.len() < u.len() {
        assert(whole[t.len() as int] == x[0]);
        assert(whole[t.len() as int] == u[t.len() as int]);
        assert(is_number_char(u[t.len() as int]));
    } else if u.len() < t.len() {
        assert(whole[u.len() as int] == y[0]);
        assert(whole[u.len() as int] == t[u.len() as int]);
        assert(is_number_char(t[u.len() as int]));
    }
    lemma_cut(t, u, x, y);
}

proof fn lemma_natural_text(n: nat)
    ensures
        natural_text(n).len() > 0,
        n >= 10 ==> natural_text(n).len() > 1,
        forall|i: int|
            0 <= i < natural_text(n).len() ==> '0' <= #[trigger] natural_text(n)[i] <= '9',
    decreases n,
{
    if n < 10 {
        lemma_hex_digit(n as int, n as int);
    } else {
        lemma_natural_text(n / 10);
        lemma_hex_digit((n % 10) as int, (n % 10) as int);
    }
}

proof fn lemma_natural_injective(m: nat, n: nat)
    requires
        natural_text(m) == natural_text(n),
    ensures
        m == n,
    decreases m,
{
    lemma_natural_text(m);
    lemma_natural_text(n);
    if m < 10 {
        assert(natural_text(m)[0] == hex_digit(m as int));
        assert(natural_text(n)[0] == hex_digit(n as int));
        lemma_hex_digit(m as int, n as int);
    } else {
        let a = natural_text(m / 10);
        let b = natural_text(n / 10);
        assert(natural_text(m).drop_last() =~= a);
        assert(natural_text(n).drop_last() =~= b);
        assert(natural_text(m).last() == hex_digit((m % 10) as int));
        assert(natural_text(n).last() == hex_digit((n % 10) as int));
        lemma_natural_injective(m / 10, n / 10);
        lemma_hex_digit((m % 10) as int, (n % 10) as int);
    }
}

proof fn lemma_integer_text(i: int)
    ensures
        integer_text(i).len() > 0,
        '0' <= integer_text(i)[0] <= '9' || integer_text(i)[0] == '-',
        forall|k: int|
            0 <= k < integer_text(i).len() ==> '0' <= #[trigger] integer_text(i)[k] <= '9'
                || integer_text(i)[k] == '-',
        i < 0 <==> integer_text(i)[0] == '-',
{
    if i < 0 {
        lemma_natural_text((-i) as nat);
        assert(integer_text(i).drop_first() =~= natural_text((-i) as nat));
        assert forall|k: int| 0 <= k < integer_text(i).len() implies '0' <= #[trigger] integer_text(
            i,
        )[k] <= '9' || integer_text(i)[k] == '-' by {
            if k > 0 {
                assert(integer_text(i)[k] == natural_text((-i) as nat)[k - 1]);
            }
        }
    } else {
        lemma_natural_text(i as nat);
    }
}

proof fn lemma_integer_injective(i: int, j: int)
    requires
        integer_text(i) == integer_text(j),
    ensures
        i == j,
{
    lemma_integer_text(i);
    lemma_integer_text(j);
    if i < 0 {
        assert(integer_text(i).drop_first() =~= natural_text((-i) as nat));
        assert(integer_text(j).drop_first() =~= natural_text((-j) as nat));
        lemma_natural_injective((-i) as nat, (-j) as nat);
    } else {
        lemma_natural_injective(i as nat, j as nat);
    }
}

/// A character can be read off the front of a text.
proof fn lemma_char_first(
    p: Seq<char>,
    c: char,
    q: Seq<char>,
    d: char,
    x: Seq<char>,
    y: Seq<char>,
)
    requires
        denotes_char(p, c),
        denotes_char(q, d),
        p + x == q + y,
    ensures
        p == q,
        c == d,
        x == y,
{
    let whole = p + x;
    assert(forall|k: int| 0 <= k < p.len() ==> whole[k] == #[trigger] p[k]);
    assert(forall|k: int| 0 <= k < q.len() ==> whole[k] == #[trigger] q[k]);
    assert(p[0] == q[0]);
    if p[0] == '\\' {
        assert(p[1] == q[1]);
        if p[1] == 'u' {
            assert(p[2] == q[2] && p[3] == q[3] && p[4] == q[4] && p[5] == q[5]);
            assert(unit_at(p, 0) == unit_at(q, 0));
        }
    }
    assert(p.len() == q.len());
    lemma_cut(p, q, x, y);
}

/// No piece of a string begins with a quote.
proof fn lemma_piece(piece: Seq<char>, c: char)
    requires
        denotes_char(piece, c),
    ensures
        piece.len() > 0,
        piece[0] != '"',
{
}

/// A string can be read off the front of a text.
proof fn lemma_chars_first(
    ps: Seq<Seq<char>>,
    s: Seq<char>,
    qs: Seq<Seq<char>>,
    t: Seq<char>,
    x: Seq<char>,
    y: Seq<char>,
)
    requires
        denotes_chars(ps, s),
        denotes_chars(qs, t),
        ps.flatten() + seq!['"'] + x == qs.flatten() + seq!['"'] + y,
    ensures
        s == t,
        ps.flatten() == qs.flatten(),
        x == y,
    decreases s.len(),
{
    let whole = ps.flatten() + seq!['"'] + x;
    if s.len() > 0 {
        assert(denotes_char(ps[0], s[0]));
        lemma_piece(ps[0], s[0]);
        assert(ps.flatten() == ps[0] + ps.drop_first().flatten());
        assert(whole[0] == ps[0][0]);
    }
    if t.len() > 0 {
        assert(denotes_char(qs[0], t[0]));
        lemma_piece(qs[0], t[0]);
        assert(qs.flatten() == qs[0] + qs.drop_first().flatten());
        assert(whole[0] == qs[0][0]);
    }
    if s.len() == 0 || t.len() == 0 {
        if s.len() == 0 {
            assert(ps =~= seq![]);
            assert(whole =~= seq!['"'] + x);
            assert(whole[0] == '"');
        }
        if t.len() == 0 {
            assert(qs =~= seq![]);
            assert(whole =~= seq!['"'] + y);
            assert(whole[0] == '"');
        }
        assert(s =~= t);
        assert(x =~= whole.skip(1));
        assert(y =~= whole.skip(1));
    } else {
        let u = ps.drop_first().flatten() + seq!['"'] + x;
        let v = qs.drop_first().flatten() + seq!['"'] + y;
        assert(whole =~= ps[0] + u);
        assert(whole =~= qs[0] + v);
        lemma_char_first(ps[0], s[0], qs[0], t[0], u, v);
        assert forall|i: int| 0 <= i < s.drop_first().len() implies denotes_char(
            #[trigger] ps.drop_first()[i],
            s.drop_first()[i],
        ) by {
            assert(denotes_char(ps[i + 1], s[i + 1]));
        }
        assert forall|i: int| 0 <= i < t.drop_first().len() implies denotes_char(
            #[trigger] qs.drop_first()[i],
            t.drop_first()[i],
        ) by {
            assert(denotes_char(qs[i + 1], t[i + 1]));
        }
        lemma_chars_first(ps.drop_first(), s.drop_first(), qs.drop_first(), t.drop_first(), x, y);
        assert(s =~= seq![s[0]] + s.drop_first());
        assert(t =~= seq![t[0]] + t.drop_first());
    }
}

/// A quoted string can be read off the front of a text.
proof fn lemma_string_first(
    k: Seq<char>,
    s: Seq<char>,
    l: Seq<char>,
    t: Seq<char>,
    x: Seq<char>,
    y: Seq<char>,
)
    requires
        denotes_string(k, s),
        denotes_string(l, t),
        k + x == l + y,
    ensures
        s == t,
        k == l,
        x == y,
{
    let ps = choose|pieces: Seq<Seq<char>>| #[trigger]
        denotes_chars(pieces, s) && k == seq!['"'] + pieces.flatten() + seq!['"'];
    let qs = choose|pieces: Seq<Seq<char>>| #[trigger]
        denotes_chars(pieces, t) && l == seq!['"'] + pieces.flatten() + seq!['"'];
    let whole = k + x;
    assert(whole.drop_first() =~= ps.flatten() + seq!['"'] + x);
    assert(whole.drop_first() =~= qs.flatten() + seq!['"'] + y);
    lemma_chars_first(ps, s, qs, t, x, y);
}

/// What follows the first part of a list.
spec fn comma_tail(rest: Seq<Seq<char>>) -> Seq<char> {
    if rest.len() == 0 {
        seq![]
    } else {
        seq![','] + comma_list(rest)
    }
}

proof fn lemma_comma_list_first(parts: Seq<Seq<char>>)
    requires
        parts.len() > 0,
    ensures
        comma_list(parts) == parts[0] + comma_tail(parts.drop_first()),
    decreases parts.len(),
{
    if parts.len() == 1 {
        assert(parts[0] + comma_tail(parts.drop_first()) =~= parts[0]);
    } else {
        let shorter = parts.drop_last();
        lemma_comma_list_first(shorter);
        let rest = parts.drop_first();
        assert(shorter.drop_first() =~= rest.drop_last());
        if rest.len() == 1 {
            assert(comma_list(parts) =~= parts[0] + comma_tail(rest));
        } else {
            assert(comma_list(rest) == comma_list(rest.drop_last()) + seq![','] + rest.last());
            assert(comma_list(parts) =~= parts[0] + comma_tail(rest));
        }
    }
}

/// No value begins with what may follow one.
proof fn lemma_first_char(text: Seq<char>, value: Json)
    requires
        denotes(text, value),
    ensures
        text.len() > 0,
        !stops(text),
        match value {
            Json::Null => text[0] == 'n',
            Json::Bool(b) => text[0] == (if b {
                't'
            } else {
                'f'
            }),
            Json::Integer(_) | Json::Decimal(_) => '0' <= text[0] <= '9' || text[0] == '-',
            Json::Text(_) => text[0] == '"',
            Json::Array(_) => text[0] == '[',
            Json::Object(_) => text[0] == '{',
        },
{
    match value {
        Json::Integer(i) => {
            lemma_integer_text(i);
        },
        Json::Decimal(t) => {
            lemma_decimal_text(t);
        },
        _ => {},
    }
}

/// Behind a part of a list, either both lists end or both go on.
proof fn lemma_list_goes_on(
    s: Seq<Seq<char>>,
    t: Seq<Seq<char>>,
    close: char,
    x: Seq<char>,
    y: Seq<char>,
)
    requires
        close == ']' || close == '}',
    ensures
        stops(comma_tail(s) + seq![close] + x),
        stops(comma_tail(t) + seq![close] + y),
        comma_tail(s) + seq![close] + x == comma_tail(t) + seq![close] + y ==> {
            &&& s.len() == 0 <==> t.len() == 0
            &&& s.len() == 0 ==> x == y
            &&& s.len() > 0 ==> comma_list(s) + seq![close] + x == comma_list(t) + seq![close] + y
        },
{
    let u = comma_tail(s) + seq![close] + x;
    let v = comma_tail(t) + seq![close] + y;
    assert(u[0] == (if s.len() == 0 { close } else { ',' }));
    assert(v[0] == (if t.len() == 0 { close } else { ',' }));
    if u == v {
        if s.len() == 0 {
            assert(x =~= u.drop_first());
            assert(y =~= v.drop_first());
        } else {
            assert(u.drop_first() =~= comma_list(s) + seq![close] + x);
            assert(v.drop_first() =~= comma_list(t) + seq![close] + y);
        }
    }
}

/// The parts of an array's text.
proof fn lemma_parts(text: Seq<char>, array: Json) -> (parts: Seq<Seq<char>>)
    requires
        array is Array,
        denotes(text, array),
    ensures
        denotes_items(parts, array->Array_0),
        text == seq!['['] + comma_list(parts) + seq![']'],
{
    let items = array->Array_0;
    assert(exists|parts: Seq<Seq<char>>|
        {
            &&& text == seq!['['] + #[trigger] comma_list(parts) + seq![']']
            &&& denotes_items(parts, items)
        });
    choose|parts: Seq<Seq<char>>|
        {
            &&& text == seq!['['] + #[trigger] comma_list(parts) + seq![']']
            &&& denotes_items(parts, items)
        }
}

/// The names, keys and values of an object's text.
proof fn lemma_pairs(text: Seq<char>, object: Json) -> (found: (
    Seq<Seq<char>>,
    Seq<Seq<char>>,
    Seq<Seq<char>>,
))
    requires
        object is Object,
        denotes(text, object),
    ensures
        denotes_members(found.0, found.1, found.2, object->Object_0),
        text == seq!['{'] + comma_list(pairs(found.1, found.2)) + seq!['}'],
{
    let members = object->Object_0;
    assert forall|names: Seq<Seq<char>>| #[trigger] names.to_set() == members.dom() implies members.dom().finite()
        && forall|i: int| 0 <= i < names.len() ==> members.dom().contains(#[trigger] names[i]) by {
        vstd::seq_lib::seq_to_set_is_finite(names);
        assert forall|i: int| 0 <= i < names.len() implies members.dom().contains(
            #[trigger] names[i],
        ) by {
            assert(names.to_set().contains(names[i]));
        }
    }
    assert(exists|names: Seq<Seq<char>>, keys: Seq<Seq<char>>, texts: Seq<Seq<char>>|
        {
            &&& text == seq!['{'] + comma_list(#[trigger] pairs(keys, texts)) + seq!['}']
            &&& #[trigger] names_keys(names, keys)
            &&& denotes_members(names, keys, texts, members)
        });
    choose|names: Seq<Seq<char>>, keys: Seq<Seq<char>>, texts: Seq<Seq<char>>|
        {
            &&& text == seq!['{'] + comma_list(#[trigger] pairs(keys, texts)) + seq!['}']
            &&& #[trigger] names_keys(names, keys)
            &&& denotes_members(names, keys, texts, members)
        }
}

/// A value can be read off the front of a text.
proof fn lemma_value_first(
    t: Seq<char>,
    a: Json,
    u: Seq<char>,
    b: Json,
    x: Seq<char>,
    y: Seq<char>,
)
    requires
        denotes(t, a),
        denotes(u, b),
        stops(x),
        stops(y),
        t + x == u + y,
    ensures
        a == b,
        t == u,
        x == y,
    decreases a, 0nat,
{
    let whole = t + x;
    lemma_first_char(t, a);
    lemma_first_char(u, b);
    assert(whole[0] == t[0]);
    assert(whole[0] == u[0]);
    match (a, b) {
        (Json::Integer(i), Json::Integer(j)) => {
            lemma_integer_text(i);
            lemma_integer_text(j);
            lemma_number_ends(t, u, x, y);
            lemma_integer_injective(i, j);
        },
        (Json::Integer(i), Json::Decimal(_)) => {
            lemma_integer_text(i);
            lemma_decimal_text(u);
            lemma_number_ends(t, u, x, y);
            assert(false);
        },
        (Json::Decimal(_), Json::Integer(i)) => {
            lemma_integer_text(i);
            lemma_decimal_text(t);
            lemma_number_ends(t, u, x, y);
            assert(false);
        },
        (Json::Decimal(_), Json::Decimal(_)) => {
            lemma_decimal_text(t);
            lemma_decimal_text(u);
            lemma_number_ends(t, u, x, y);
        },
        (Json::Text(r), Json::Text(s)) => {
            lemma_string_first(t, r, u, s, x, y);
        },
        (Json::Array(items), Json::Array(others)) => {
            let p = lemma_parts(t, a);
            let q = lemma_parts(u, b);
            assert(whole.drop_first() =~= comma_list(p) + seq![']'] + x);
            assert(whole.drop_first() =~= comma_list(q) + seq![']'] + y);
            lemma_items_first(p, items, q, others, x, y);
        },
        (Json::Object(members), Json::Object(others)) => {
            let (names, keys, texts) = lemma_pairs(t, a);
            let (names2, keys2, texts2) = lemma_pairs(u, b);
            let (s, r) = (pairs(keys, texts), pairs(keys2, texts2));
            assert(s.skip(0) =~= s);
            assert(r.skip(0) =~= r);
            assert(whole.drop_first() =~= comma_list(s) + seq!['}'] + x);
            assert(whole.drop_first() =~= comma_list(r) + seq!['}'] + y);
            lemma_members_first(
                names,
                keys,
                texts,
                members,
                names2,
                keys2,
                texts2,
                others,
                0,
                x,
                y,
            );
            assert(names =~= names2);
            assert forall|j: int| 0 <= j < s.len() implies s[j] == r[j] by {
                assert(names[j] == names2[j]);
            }
            assert(s =~= r);
            assert forall|name: Seq<char>| #[trigger] members.dom().contains(name) implies members[name]
                == others[name] by {
                assert(names.to_set().contains(name));
                let j = choose|j: int| 0 <= j < names.len() && names[j] == name;
                assert(members[names[j]] == others[names2[j]]);
            }
            assert(members =~= others);
        },
        _ => {
            assert(t.len() == u.len());
            lemma_cut(t, u, x, y);
        },
    }
}

/// The items of an array can be read off the front of a text.
proof fn lemma_items_first(
    p: Seq<Seq<char>>,
    a: Seq<Json>,
    q: Seq<Seq<char>>,
    b: Seq<Json>,
    x: Seq<char>,
    y: Seq<char>,
)
    requires
        denotes_items(p, a),
        denotes_items(q, b),
        comma_list(p) + seq![']'] + x == comma_list(q) + seq![']'] + y,
    ensures
        a == b,
        p == q,
        x == y,
    decreases a, 0nat,
{
    let whole = comma_list(p) + seq![']'] + x;
    if a.len() > 0 {
        assert(denotes(p[0], a[0]));
        lemma_first_char(p[0], a[0]);
        lemma_comma_list_first(p);
        assert(whole[0] == p[0][0]);
    }
    if b.len() > 0 {
        assert(denotes(q[0], b[0]));
        lemma_first_char(q[0], b[0]);
        lemma_comma_list_first(q);
        assert(whole[0] == q[0][0]);
    }
    if a.len() == 0 || b.len() == 0 {
        if a.len() == 0 {
            assert(whole[0] == ']');
        }
        if b.len() == 0 {
            assert(whole[0] == ']');
        }
        assert(a =~= b);
        assert(p =~= q);
        assert(x =~= whole.skip(1));
        assert(y =~= whole.skip(1));
    } else {
        let (a1, b1) = (a.drop_first(), b.drop_first());
        let (p1, q1) = (p.drop_first(), q.drop_first());
        let u = comma_tail(p1) + seq![']'] + x;
        let v = comma_tail(q1) + seq![']'] + y;
        assert(whole =~= p[0] + u);
        assert(whole =~= q[0] + v);
        assert(decreases_to!(a => a[0]));
        lemma_list_goes_on(p1, q1, ']', x, y);
        lemma_value_first(p[0], a[0], q[0], b[0], u, v);
        if p1.len() > 0 {
            assert forall|i: int| 0 <= i < a1.len() implies denotes(p1[i], #[trigger] a1[i]) by {
                assert(denotes(p[i + 1], a[i + 1]));
            }
            assert forall|i: int| 0 <= i < b1.len() implies denotes(q1[i], #[trigger] b1[i]) by {
                assert(denotes(q[i + 1], b[i + 1]));
            }
            assert(denotes_items(p1, a1));
            assert(denotes_items(q1, b1));
            lemma_items_first(p1, a1, q1, b1, x, y);
        }
        assert(a =~= seq![a[0]] + a1);
        assert(b =~= seq![b[0]] + b1);
        assert(p =~= seq![p[0]] + p1);
        assert(q =~= seq![q[0]] + q1);
    }
}

/// A member can be told from its key and its value.
proof fn lemma_member(
    names: Seq<Seq<char>>,
    keys: Seq<Seq<char>>,
    texts: Seq<Seq<char>>,
    members: Map<Seq<char>, Json>,
    i: int,
)
    requires
        denotes_members(names, keys, texts, members),
        0 <= i < names.len(),
    ensures
        members.dom().finite(),
        members.dom().contains(names[i]),
        denotes_string(keys[i], names[i]),
        denotes(texts[i], members[names[i]]),
        keys[i].len() > 0,
        keys[i][0] == '"',
{
    assert(denotes_string(keys[i], names[i]));
}

/// The members of an object, from number `i` on, can be read off the front of a text.
proof fn lemma_members_first(
    names: Seq<Seq<char>>,
    keys: Seq<Seq<char>>,
    texts: Seq<Seq<char>>,
    a: Map<Seq<char>, Json>,
    names2: Seq<Seq<char>>,
    keys2: Seq<Seq<char>>,
    texts2: Seq<Seq<char>>,
    b: Map<Seq<char>, Json>,
    i: int,
    x: Seq<char>,
    y: Seq<char>,
)
    requires
        denotes_members(names, keys, texts, a),
        denotes_members(names2, keys2, texts2, b),
        0 <= i <= names.len(),
        i <= names2.len(),
        comma_list(pairs(keys, texts).skip(i)) + seq!['}'] + x == comma_list(
            pairs(keys2, texts2).skip(i),
        ) + seq!['}'] + y,
    ensures
        names.len() == names2.len(),
        forall|j: int|
            i <= j < names.len() ==> #[trigger] names[j] == names2[j] && a[names[j]]
                == b[names2[j]] && pairs(keys, texts)[j] == pairs(keys2, texts2)[j],
        x == y,
    decreases a, names.len() - i,
{
    let (s, t) = (pairs(keys, texts).skip(i), pairs(keys2, texts2).skip(i));
    let whole = comma_list(s) + seq!['}'] + x;
    if i < names.len() {
        lemma_member(names, keys, texts, a, i);
        lemma_comma_list_first(s);
        assert(s.drop_first() =~= pairs(keys, texts).skip(i + 1));
        assert(s[0] == keys[i] + seq![':'] + texts[i]);
        assert(whole[0] == '"');
    }
    if i < names2.len() {
        lemma_member(names2, keys2, texts2, b, i);
        lemma_comma_list_first(t);
        assert(t.drop_first() =~= pairs(keys2, texts2).skip(i + 1));
        assert(t[0] == keys2[i] + seq![':'] + texts2[i]);
        assert(whole[0] == '"');
    }
    if i == names.len() || i == names2.len() {
        if i == names.len() {
            assert(whole[0] == '}');
        }
        if i == names2.len() {
            assert(whole[0] == '}');
        }
        assert(x =~= whole.skip(1));
        assert(y =~= whole.skip(1));
    } else {
        let (s1, t1) = (s.drop_first(), t.drop_first());
        let u = comma_tail(s1) + seq!['}'] + x;
        let v = comma_tail(t1) + seq!['}'] + y;
        let (u1, v1) = (texts[i] + u, texts2[i] + v);
        assert(whole =~= keys[i] + (seq![':'] + u1));
        assert(whole =~= keys2[i] + (seq![':'] + v1));
        lemma_string_first(keys[i], names[i], keys2[i], names2[i], seq![':'] + u1, seq![':'] + v1);
        assert(u1 =~= (seq![':'] + u1).drop_first());
        assert(v1 =~= (seq![':'] + v1).drop_first());
        lemma_list_goes_on(s1, t1, '}', x, y);
        assert(decreases_to!(a => a[names[i]]));
        lemma_value_first(texts[i], a[names[i]], texts2[i], b[names2[i]], u, v);
        if s1.len() > 0 {
            lemma_members_first(
                names,
                keys,
                texts,
                a,
                names2,
                keys2,
                texts2,
                b,
                i + 1,
                x,
                y,
            );
        }
    }
}

/// A text stands for one value only.
pub proof fn law_text_denotes_one_value(text: Seq<char>, a: Json, b: Json)
    requires
        denotes(text, a),
        denotes(text, b),
    ensures
        a == b,
{
    lemma_value_first(text, a, text, b, seq![], seq![]);
}

} // verus!
