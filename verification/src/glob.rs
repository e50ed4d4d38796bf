//! Glob patterns over tool names.
use crate::text::chars_of;
use vstd::prelude::*;

verus! {

/// Whether a name matches a pattern, in which `*` stands for any run of characters, `?` for
/// exactly one, and every other character for itself.
pub open spec fn glob_matches(pattern: Seq<char>, name: Seq<char>) -> bool
    decreases pattern.len(), name.len(),
{
    if pattern.len() == 0 {
        name.len() == 0
    } else if pattern[0] == '*' {
        glob_matches(pattern.drop_first(), name) || (name.len() > 0 && glob_matches(
            pattern,
            name.drop_first(),
        ))
    } else {
        name.len() > 0 && (pattern[0] == '?' || pattern[0] == name[0]) && glob_matches(
            pattern.drop_first(),
            name.drop_first(),
        )
    }
}

/// Which ends of the name a given end of the pattern matches, by where the end of the name
/// starts.
spec fn is_row(row: Seq<bool>, pattern: Seq<char>, name: Seq<char>) -> bool {
    &&& row.len() == name.len() + 1
    &&& forall|j: int|
        0 <= j <= name.len() ==> #[trigger] row[j] == glob_matches(pattern, name.skip(j))
}

/// The row of `pattern`, from the row of `pattern` without its first character.
fn row_before(first: char, name: &Vec<char>, below: &Vec<bool>, pattern: Ghost<Seq<char>>) -> (row:
    Vec<bool>)
    requires
        pattern@.len() > 0,
        pattern@[0] == first,
        is_row(below@, pattern@.drop_first(), name@),
    ensures
        is_row(row@, pattern@, name@),
{
    let mut row: Vec<bool> = Vec::new();
    let mut n: usize = 0;
    while n < below.len()
        invariant
            n <= below@.len(),
            row@.len() == n,
        decreases below@.len() - n,
    {
        row.push(false);
        n += 1;
    }
    let mut j: usize = below.len();
    while j > 0
        invariant
            0 <= j <= name@.len() + 1,
            pattern@.len() > 0,
            pattern@[0] == first,
            is_row(below@, pattern@.drop_first(), name@),
            row@.len() == name@.len() + 1,
            forall|k: int|
                j <= k <= name@.len() ==> #[trigger] row@[k] == glob_matches(
                    pattern@,
                    name@.skip(k),
                ),
        decreases j,
    {
        j -= 1;
        let more = j < name.len();
        let hit = if first == '*' {
            below[j] || (more && row[j + 1])
        } else {
            more && (first == '?' || first == name[j]) && below[j + 1]
        };
        proof {
            let rest = name@.skip(j as int);
            if more {
                assert(rest.drop_first() =~= name@.skip(j + 1));
            }
            assert(glob_matches(pattern@, rest) == hit);
        }
        row.set(j, hit);
    }
    row
}

/// Whether the name matches the pattern: `*` stands for any run of characters, `?` for exactly
/// one, and every other character for itself.
pub fn glob_match(pattern: &str, name: &str) -> (matched: bool)
    ensures
        matched == glob_matches(pattern@, name@),
{
    let p = chars_of(pattern);
    let s = chars_of(name);
    let mut row: Vec<bool> = Vec::new();
    let mut n: usize = 0;
    while n < s.len()
        invariant
            n <= s@.len(),
            row@.len() == n,
            forall|k: int| 0 <= k < n ==> #[trigger] row@[k] == false,
        decreases s@.len() - n,
    {
        row.push(false);
        n += 1;
    }
    row.push(true);
    let mut i: usize = p.len();
    assert(is_row(row@, p@.skip(i as int), s@));
    while i > 0
        invariant
            i <= p@.len(),
            is_row(row@, p@.skip(i as int), s@),
        decreases i,
    {
        i -= 1;
        proof {
            assert(p@.skip(i as int).drop_first() =~= p@.skip(i + 1));
        }
        row = row_before(p[i], &s, &row, Ghost(p@.skip(i as int)));
    }
    proof {
        assert(p@.skip(0) =~= p@);
        assert(s@.skip(0) =~= s@);
    }
    row[0]
}

/// `*` stands for any run of characters, the empty one too.
pub proof fn law_star(rest: Seq<char>, name: Seq<char>)
    ensures
        glob_matches(seq!['*'] + rest, name) <==> exists|n: int|
            0 <= n <= name.len() && #[trigger] glob_matches(rest, name.skip(n)),
    decreases name.len(),
{
    let pattern = seq!['*'] + rest;
    assert(pattern.drop_first() =~= rest);
    assert(name.skip(0) =~= name);
    if glob_matches(rest, name) {
        assert(glob_matches(rest, name.skip(0)));
    }
    if name.len() > 0 {
        let tail = name.drop_first();
        law_star(rest, tail);
        if glob_matches(pattern, tail) {
            let n = choose|n: int| 0 <= n <= tail.len() && #[trigger] glob_matches(
                rest,
                tail.skip(n),
            );
            assert(tail.skip(n) =~= name.skip(n + 1));
            assert(glob_matches(rest, name.skip(n + 1)));
        }
        if exists|n: int| 0 <= n <= name.len() && #[trigger] glob_matches(rest, name.skip(n)) {
            let n = choose|n: int| 0 <= n <= name.len() && #[trigger] glob_matches(
                rest,
                name.skip(n),
            );
            if n > 0 {
                assert(tail.skip(n - 1) =~= name.skip(n));
                assert(glob_matches(rest, tail.skip(n - 1)));
            }
        }
    }
}

/// `?` stands for exactly one character.
pub proof fn law_question_mark(rest: Seq<char>, name: Seq<char>)
    ensures
        glob_matches(seq!['?'] + rest, name) <==> name.len() > 0 && glob_matches(
            rest,
            name.drop_first(),
        ),
{
    assert((seq!['?'] + rest).drop_first() =~= rest);
}

/// A character other than `*` and `?` stands for itself, whatever follows it.
pub proof fn law_other_character(c: char, rest: Seq<char>, name: Seq<char>)
    requires
        c != '*',
        c != '?',
    ensures
        glob_matches(seq![c] + rest, name) <==> name.len() > 0 && name[0] == c && glob_matches(
            rest,
            name.drop_first(),
        ),
{
    assert((seq![c] + rest).drop_first() =~= rest);
}

/// The empty pattern matches the empty name alone.
pub proof fn law_empty_pattern(name: Seq<char>)
    ensures
        glob_matches(seq![], name) <==> name.len() == 0,
{
}

/// A pattern in two halves matches a name in two halves, if each half matches its own: and every
/// name that it matches falls into two such halves.
pub proof fn law_patterns_compose(front: Seq<char>, back: Seq<char>, name: Seq<char>)
    ensures
        glob_matches(front + back, name) <==> exists|n: int|
            0 <= n <= name.len() && #[trigger] glob_matches(front, name.take(n)) && glob_matches(
                back,
                name.skip(n),
            ),
    decreases front.len(), name.len(),
{
    let whole = front + back;
    if front.len() == 0 {
        assert(whole =~= back);
        assert(name.skip(0) =~= name);
        assert(name.take(0) =~= seq![]);
        assert(front =~= seq![]);
        assert(glob_matches(front, name.take(0)));
    } else {
        let rest = front.drop_first();
        assert(whole.drop_first() =~= rest + back);
        assert(whole[0] == front[0]);
        law_patterns_compose(rest, back, name);
        if name.len() > 0 {
            law_patterns_compose(front, back, name.drop_first());
            law_patterns_compose(rest, back, name.drop_first());
        }
        let tail = name.drop_first();
        if glob_matches(whole, name) {
            if front[0] == '*' && glob_matches(rest + back, name) {
                let n = choose|n: int|
                    0 <= n <= name.len() && #[trigger] glob_matches(rest, name.take(n))
                        && glob_matches(back, name.skip(n));
                assert(glob_matches(front, name.take(n)));
            } else {
                let inner = if front[0] == '*' {
                    front
                } else {
                    rest
                };
                let n = choose|n: int|
                    0 <= n <= tail.len() && #[trigger] glob_matches(inner, tail.take(n))
                        && glob_matches(back, tail.skip(n));
                assert(name.take(n + 1).drop_first() =~= tail.take(n));
                assert(name.skip(n + 1) =~= tail.skip(n));
                assert(name.take(n + 1)[0] == name[0]);
                assert(glob_matches(front, name.take(n + 1)));
            }
        }
        if exists|n: int|
            0 <= n <= name.len() && #[trigger] glob_matches(front, name.take(n)) && glob_matches(
                back,
                name.skip(n),
            ) {
            let n = choose|n: int|
                0 <= n <= name.len() && #[trigger] glob_matches(front, name.take(n))
                    && glob_matches(back, name.skip(n));
            if front[0] == '*' && glob_matches(rest, name.take(n)) {
                assert(glob_matches(rest + back, name));
            } else {
                assert(n > 0);
                assert(name.take(n).drop_first() =~= tail.take(n - 1));
                assert(tail.skip(n - 1) =~= name.skip(n));
                assert(name.take(n)[0] == name[0]);
                if front[0] == '*' {
                    assert(glob_matches(front, tail.take(n - 1)));
                } else {
                    assert(glob_matches(rest, tail.take(n - 1)));
                }
            }
        }
    }
}

/// A pattern without `*` and `?` matches itself alone.
pub proof fn law_literal(pattern: Seq<char>, name: Seq<char>)
    requires
        !pattern.contains('*'),
        !pattern.contains('?'),
    ensures
        glob_matches(pattern, name) <==> pattern == name,
    decreases pattern.len(),
{
    if pattern.len() > 0 {
        assert(pattern.contains(pattern[0]));
        let rest = pattern.drop_first();
        assert forall|c: char| #[trigger] rest.contains(c) implies pattern.contains(c) by {
            let i = choose|i: int| 0 <= i < rest.len() && rest[i] == c;
            assert(pattern[i + 1] == c);
        }
        assert(pattern =~= seq![pattern[0]] + rest);
        if name.len() > 0 {
            law_literal(rest, name.drop_first());
            assert(name =~= seq![name[0]] + name.drop_first());
        }
    } else {
        assert(name.len() == 0 ==> pattern =~= name);
    }
}

} // verus!
