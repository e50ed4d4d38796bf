//! Cache keys.
use crate::canonical::{canonical_json, canonical_text};
use crate::json::{spellable, Json, JsonValue};
use std::collections::hash_map::DefaultHasher;
use std::hash::{Hash, Hasher};
use vstd::prelude::*;
use vstd::utf8::{encode_scalar, encode_utf8, encode_utf8_decode_utf8};

verus! {

/// The writes that hashing a string makes to a hasher.
pub uninterp spec fn string_writes(s: Seq<char>) -> Seq<Seq<u8>>;

/// `Hash::hash` of a string, which hands the hasher the string's bytes and, so that no string
/// runs into the next, the byte 0xFF. How the bytes are split over writes depends on the string
/// alone, and is not stated.
#[verifier::external_body]
fn hash_string(s: &str, hasher: &mut DefaultHasher)
    ensures
        final(hasher)@ == old(hasher)@ + string_writes(s@),
        final(hasher)@.flatten() == old(hasher)@.flatten() + encode_utf8(s@).push(0xFF),
{
    s.hash(hasher)
}

/// What identifies a call: the surface, the tool, the arguments as canonical text, and the part
/// of the caller's identity that the scope takes in.
#[derive(Debug)]
pub struct Call {
    pub surface: String,
    pub tool_name: String,
    pub arguments: String,
    pub identity: Option<String>,
}

/// The model of what identifies a call.
#[verifier::ext_equal]
pub struct CallId {
    pub surface: Seq<char>,
    pub tool_name: Seq<char>,
    pub arguments: Seq<char>,
    pub identity: Option<Seq<char>>,
}

impl View for Call {
    type V = CallId;

    open spec fn view(&self) -> CallId {
        CallId {
            surface: self.surface@,
            tool_name: self.tool_name@,
            arguments: self.arguments@,
            identity: match self.identity {
                Some(id) => Some(id@),
                None => None,
            },
        }
    }
}

impl Call {
    /// Whether this is the same call as the other.
    pub fn is(&self, other: &Call) -> (same: bool)
        ensures
            same == (self@ == other@),
    {
        let same_identity = match (&self.identity, &other.identity) {
            (Some(id), Some(other_id)) => *id == *other_id,
            (None, None) => true,
            _ => false,
        };
        self.surface == other.surface && self.tool_name == other.tool_name && self.arguments
            == other.arguments && same_identity
    }
}

impl Clone for Call {
    fn clone(&self) -> (copy: Self)
        ensures
            copy@ == self@,
    {
        Call {
            surface: self.surface.clone(),
            tool_name: self.tool_name.clone(),
            arguments: self.arguments.clone(),
            identity: match &self.identity {
                Some(id) => Some(id.clone()),
                None => None,
            },
        }
    }
}

/// The strings that identify a request, in the order in which they are hashed.
pub open spec fn key_parts(
    surface: Seq<char>,
    tool_name: Seq<char>,
    arguments: Json,
    identity: Option<Seq<char>>,
) -> Seq<Seq<char>> {
    let shared = seq![surface, tool_name, canonical_text(arguments)];
    match identity {
        Some(id) => shared.push(id),
        None => shared,
    }
}

/// The writes that hashing the strings one after the other makes.
pub open spec fn hash_writes(parts: Seq<Seq<char>>) -> Seq<Seq<u8>>
    decreases parts.len(),
{
    if parts.len() == 0 {
        seq![]
    } else {
        hash_writes(parts.drop_last()) + string_writes(parts.last())
    }
}

/// The bytes that the strings hand to a hasher: each string in UTF-8, then 0xFF.
pub open spec fn hash_bytes(parts: Seq<Seq<char>>) -> Seq<u8>
    decreases parts.len(),
{
    if parts.len() == 0 {
        seq![]
    } else {
        hash_bytes(parts.drop_last()) + encode_utf8(parts.last()).push(0xFF)
    }
}

/// The key under which a request is cached.
pub open spec fn request_key(
    surface: Seq<char>,
    tool_name: Seq<char>,
    arguments: Json,
    identity: Option<Seq<char>>,
) -> u64 {
    <DefaultHasher as vstd::std_specs::hash::DefaultHasherAdditionalSpecFns>::spec_finish(
        hash_writes(key_parts(surface, tool_name, arguments, identity)),
    )
}

/// Canonical JSON key for cache lookups.
///
/// The MCP surface is part of the key so a prompt and a tool with the same name do not collide.
///
/// What the hasher takes in is `hash_bytes` of the parts.
pub fn cache_key(
    surface: &str,
    tool_name: &str,
    arguments: &JsonValue,
    identity_key: Option<&str>,
) -> (key: u64)
    ensures
        key == request_key(surface@, tool_name@, arguments@, identity_view(identity_key)),
        ({
            let parts = key_parts(surface@, tool_name@, arguments@, identity_view(identity_key));
            hash_writes(parts).flatten() == hash_bytes(parts)
        }),
        spellable(arguments@),
{
    let canonical_args = canonical_json(arguments);
    let mut hasher = DefaultHasher::new();
    let ghost mut parts: Seq<Seq<char>> = seq![];
    assert(hasher@.flatten() =~= hash_bytes(parts));
    proof {
        lemma_hash_push(parts, surface@);
        parts = parts.push(surface@);
    }
    hash_string(surface, &mut hasher);
    proof {
        lemma_hash_push(parts, tool_name@);
        parts = parts.push(tool_name@);
    }
    hash_string(tool_name, &mut hasher);
    proof {
        lemma_hash_push(parts, canonical_args@);
        parts = parts.push(canonical_args@);
    }
    hash_string(canonical_args.as_str(), &mut hasher);
    if let Some(id) = identity_key {
        proof {
            lemma_hash_push(parts, id@);
            parts = parts.push(id@);
        }
        hash_string(id, &mut hasher);
    }
    assert(parts =~= key_parts(surface@, tool_name@, arguments@, identity_view(identity_key)));
    hasher.finish()
}

/// The model of an optional string.
pub open spec fn identity_view(identity: Option<&str>) -> Option<Seq<char>> {
    match identity {
        Some(id) => Some(id@),
        None => None,
    }
}

proof fn lemma_hash_push(parts: Seq<Seq<char>>, part: Seq<char>)
    ensures
        hash_writes(parts.push(part)) == hash_writes(parts) + string_writes(part),
        hash_bytes(parts.push(part)) == hash_bytes(parts) + encode_utf8(part).push(0xFF),
{
    assert(parts.push(part).drop_last() =~= parts);
}

/// No byte of a string in UTF-8 is 0xFF.
proof fn lemma_utf8_bytes(s: Seq<char>)
    ensures
        forall|i: int| 0 <= i < encode_utf8(s).len() ==> #[trigger] encode_utf8(s)[i] != 0xFF,
    decreases s.len(),
{
    if s.len() > 0 {
        let c = s[0] as u32;
        lemma_utf8_bytes(s.drop_first());
        assert((c & 0x7F) as u8 != 0xFF) by (bit_vector);
        assert(0xC0 | ((c >> 6) & 0x1F) as u8 != 0xFF) by (bit_vector);
        assert(0xE0 | ((c >> 12) & 0x0F) as u8 != 0xFF) by (bit_vector);
        assert(0xF0 | ((c >> 18) & 0x7) as u8 != 0xFF) by (bit_vector);
        assert(0x80 | (c & 0x3F) as u8 != 0xFF) by (bit_vector);
        assert(0x80 | ((c >> 6) & 0x3F) as u8 != 0xFF) by (bit_vector);
        assert(0x80 | ((c >> 12) & 0x3F) as u8 != 0xFF) by (bit_vector);
        assert(encode_utf8(s) == encode_scalar(c) + encode_utf8(s.drop_first()));
    }
}

/// A string can be told from its bytes.
proof fn lemma_utf8_injective(a: Seq<char>, b: Seq<char>)
    requires
        encode_utf8(a) == encode_utf8(b),
    ensures
        a == b,
{
    encode_utf8_decode_utf8(a);
    encode_utf8_decode_utf8(b);
}

/// The hashed bytes end in 0xFF.
proof fn lemma_hash_bytes_end(parts: Seq<Seq<char>>)
    ensures
        parts.len() == 0 <==> hash_bytes(parts).len() == 0,
        parts.len() > 0 ==> hash_bytes(parts).last() == 0xFF,
{
}

/// No string runs into the next: different lists of strings hand different bytes to the hasher.
pub proof fn law_hashed_bytes_tell_parts(a: Seq<Seq<char>>, b: Seq<Seq<char>>)
    requires
        hash_bytes(a) == hash_bytes(b),
    ensures
        a == b,
    decreases a.len(),
{
    lemma_hash_bytes_end(a);
    lemma_hash_bytes_end(b);
    if a.len() == 0 {
        assert(a =~= b);
    } else {
        let whole = hash_bytes(a);
        let (a1, x) = (hash_bytes(a.drop_last()), encode_utf8(a.last()));
        let (b1, y) = (hash_bytes(b.drop_last()), encode_utf8(b.last()));
        lemma_utf8_bytes(a.last());
        lemma_utf8_bytes(b.last());
        lemma_hash_bytes_end(a.drop_last());
        lemma_hash_bytes_end(b.drop_last());
        assert(whole == a1 + x.push(0xFF));
        assert(whole == b1 + y.push(0xFF));
        if x.len() < y.len() {
            assert(a1.last() == whole[a1.len() - 1]);
            assert(whole[a1.len() - 1] == y[a1.len() - 1 - b1.len()]);
        } else if y.len() < x.len() {
            assert(b1.last() == whole[b1.len() - 1]);
            assert(whole[b1.len() - 1] == x[b1.len() - 1 - a1.len()]);
        }
        assert(x =~= whole.subrange(a1.len() as int, (a1.len() + x.len()) as int));
        assert(y =~= whole.subrange(a1.len() as int, (a1.len() + x.len()) as int));
        assert(a1 =~= whole.take(a1.len() as int));
        assert(b1 =~= whole.take(a1.len() as int));
        lemma_utf8_injective(a.last(), b.last());
        law_hashed_bytes_tell_parts(a.drop_last(), b.drop_last());
        assert(a =~= a.drop_last().push(a.last()));
        assert(b =~= b.drop_last().push(b.last()));
    }
}

/// Calls that differ in surface, tool, canonical arguments or identity hand different bytes to
/// the hasher: a tool and a prompt of the same name are told apart, as are two subjects, as is a
/// call with a subject from one without.
pub proof fn law_key_tells_calls_apart(
    surface1: Seq<char>,
    tool_name1: Seq<char>,
    arguments1: Json,
    identity1: Option<Seq<char>>,
    surface2: Seq<char>,
    tool_name2: Seq<char>,
    arguments2: Json,
    identity2: Option<Seq<char>>,
)
    requires
        hash_bytes(key_parts(surface1, tool_name1, arguments1, identity1)) == hash_bytes(
            key_parts(surface2, tool_name2, arguments2, identity2),
        ),
    ensures
        surface1 == surface2,
        tool_name1 == tool_name2,
        canonical_text(arguments1) == canonical_text(arguments2),
        identity1 == identity2,
{
    let a = key_parts(surface1, tool_name1, arguments1, identity1);
    let b = key_parts(surface2, tool_name2, arguments2, identity2);
    law_hashed_bytes_tell_parts(a, b);
    assert(a[0] == surface1 && b[0] == surface2);
    assert(a[1] == tool_name1 && b[1] == tool_name2);
    assert(a[2] == canonical_text(arguments1) && b[2] == canonical_text(arguments2));
    if identity1 is Some {
        assert(a[3] == identity1->Some_0);
    }
    if identity2 is Some {
        assert(b[3] == identity2->Some_0);
    }
}

} // verus!
