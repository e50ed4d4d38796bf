//! Strings as sequences of characters: reading them out, and their order.
use vstd::prelude::*;

verus! {

/// `a` stands before `b` in the order of strings, or is `b`: the first character in which they
/// differ has the smaller code point in `a`, or `a` ends there.
pub open spec fn text_le(a: Seq<char>, b: Seq<char>) -> bool
    decreases a.len(),
{
    a.len() == 0 || (b.len() > 0 && ((a[0] as int) < (b[0] as int) || (a[0] == b[0] && text_le(
        a.drop_first(),
        b.drop_first(),
    ))))
}

/// Every name stands before those that follow it, so none occurs twice.
pub open spec fn ascending(names: Seq<Seq<char>>) -> bool {
    forall|i: int, j: int|
        0 <= i < j < names.len() ==> #[trigger] text_le(names[i], names[j]) && names[i] != names[j]
}

pub(crate) proof fn lemma_text_le_reflexive(a: Seq<char>)
    ensures
        text_le(a, a),
    decreases a.len(),
{
    if a.len() > 0 {
        lemma_text_le_reflexive(a.drop_first());
    }
}

pub(crate) proof fn lemma_text_le_total(a: Seq<char>, b: Seq<char>)
    ensures
        text_le(a, b) || text_le(b, a),
    decreases a.len(),
{
    if a.len() > 0 && b.len() > 0 {
        lemma_text_le_total(a.drop_first(), b.drop_first());
    }
}

pub(crate) proof fn lemma_text_le_antisymmetric(a: Seq<char>, b: Seq<char>)
    requires
        text_le(a, b),
        text_le(b, a),
    ensures
        a == b,
    decreases a.len(),
{
    if a.len() == 0 {
        assert(a =~= b);
    } else {
        lemma_text_le_antisymmetric(a.drop_first(), b.drop_first());
        assert(a =~= seq![a[0]] + a.drop_first());
        assert(b =~= seq![b[0]] + b.drop_first());
    }
}

pub(crate) proof fn lemma_text_le_transitive(a: Seq<char>, b: Seq<char>, c: Seq<char>)
    requires
        text_le(a, b),
        text_le(b, c),
    ensures
        text_le(a, c),
    decreases a.len(),
{
    if a.len() > 0 && a[0] == b[0] && b[0] == c[0] {
        lemma_text_le_transitive(a.drop_first(), b.drop_first(), c.drop_first());
    }
}

/// A string stands before another, or is it, exactly where it is how the other begins, or has the
/// character of the smaller code point in the first place in which they differ.
pub proof fn law_text_order(a: Seq<char>, b: Seq<char>)
    ensures
        text_le(a, b) <==> (a.len() <= b.len() && b.take(a.len() as int) == a) || exists|i: int|
            {
                &&& 0 <= i < a.len()
                &&& i < b.len()
                &&& #[trigger] a.take(i) == b.take(i)
                &&& (a[i] as int) < (b[i] as int)
            },
    decreases a.len(),
{
    if a.len() == 0 {
        assert(b.take(0) =~= a);
    } else if b.len() > 0 {
        let (a1, b1) = (a.drop_first(), b.drop_first());
        law_text_order(a1, b1);
        if a[0] == b[0] {
            if a1.len() <= b1.len() {
                if b1.take(a1.len() as int) == a1 {
                    assert(b.take(a.len() as int) =~= a) by {
                        assert forall|k: int| 0 <= k < a.len() implies b[k] == a[k] by {
                            if k > 0 {
                                assert(b1.take(a1.len() as int)[k - 1] == a1[k - 1]);
                            }
                        }
                    }
                }
                if b.take(a.len() as int) == a {
                    assert(b1.take(a1.len() as int) =~= a1) by {
                        assert forall|k: int| 0 <= k < a1.len() implies b1[k] == a1[k] by {
                            assert(b.take(a.len() as int)[k + 1] == a[k + 1]);
                        }
                    }
                }
            }
            if exists|i: int|
                0 <= i < a1.len() && i < b1.len() && #[trigger] a1.take(i) == b1.take(i) && (
                a1[i] as int) < (b1[i] as int) {
                let i = choose|i: int|
                    0 <= i < a1.len() && i < b1.len() && #[trigger] a1.take(i) == b1.take(i) && (
                    a1[i] as int) < (b1[i] as int);
                assert(a.take(i + 1) =~= b.take(i + 1)) by {
                    assert forall|k: int| 0 <= k < i + 1 implies a[k] == b[k] by {
                        if k > 0 {
                            assert(a1.take(i)[k - 1] == b1.take(i)[k - 1]);
                        }
                    }
                }
                assert(a[i + 1] == a1[i] && b[i + 1] == b1[i]);
            }
            if exists|i: int|
                0 <= i < a.len() && i < b.len() && #[trigger] a.take(i) == b.take(i) && (
                a[i] as int) < (b[i] as int) {
                let i = choose|i: int|
                    0 <= i < a.len() && i < b.len() && #[trigger] a.take(i) == b.take(i) && (
                    a[i] as int) < (b[i] as int);
                assert(i > 0);
                assert(a1.take(i - 1) =~= b1.take(i - 1)) by {
                    assert forall|k: int| 0 <= k < i - 1 implies a1[k] == b1[k] by {
                        assert(a.take(i)[k + 1] == b.take(i)[k + 1]);
                    }
                }
                assert(a[i] == a1[i - 1] && b[i] == b1[i - 1]);
            }
        } else {
            if (a[0] as int) < (b[0] as int) {
                assert(a.take(0) =~= b.take(0));
            }
            if a.len() <= b.len() && b.take(a.len() as int) == a {
                assert(b.take(a.len() as int)[0] == a[0]);
            }
            if exists|i: int|
                0 <= i < a.len() && i < b.len() && #[trigger] a.take(i) == b.take(i) && (
                a[i] as int) < (b[i] as int) {
                let i = choose|i: int|
                    0 <= i < a.len() && i < b.len() && #[trigger] a.take(i) == b.take(i) && (
                    a[i] as int) < (b[i] as int);
                if i > 0 {
                    assert(a.take(i)[0] == b.take(i)[0]);
                }
            }
        }
    }
}

/// There is only one way to list a set of names in ascending order.
pub(crate) proof fn lemma_ascending_unique(a: Seq<Seq<char>>, b: Seq<Seq<char>>)
    requires
        ascending(a),
        ascending(b),
        a.to_set() == b.to_set(),
    ensures
        a == b,
    decreases a.len(),
{
    if a.len() == 0 {
        if b.len() > 0 {
            assert(b.to_set().contains(b[0]));
            assert(a.to_set().contains(b[0]));
        }
        assert(a =~= b);
    } else {
        assert(a.to_set().contains(a.last()));
        assert(b.to_set().contains(a.last()));
        assert(b.len() > 0);
        assert(b.to_set().contains(b.last()));
        assert(a.to_set().contains(b.last()));
        let i = choose|i: int| 0 <= i < b.len() && b[i] == a.last();
        let j = choose|j: int| 0 <= j < a.len() && a[j] == b.last();
        if a.last() != b.last() {
            assert(text_le(b[i], b[b.len() - 1]));
            assert(text_le(a[j], a[a.len() - 1]));
            lemma_text_le_antisymmetric(a.last(), b.last());
        }
        let a1 = a.drop_last();
        let b1 = b.drop_last();
        assert forall|k: Seq<char>| #[trigger] a1.to_set().contains(k) <==> b1.to_set().contains(
            k,
        ) by {
            lemma_drop_last_to_set(a, k);
            lemma_drop_last_to_set(b, k);
        }
        assert(a1.to_set() =~= b1.to_set());
        assert forall|i: int, j: int| 0 <= i < j < a1.len() implies #[trigger] text_le(a1[i], a1[j])
            && a1[i] != a1[j] by {
            assert(text_le(a[i], a[j]));
        }
        assert forall|i: int, j: int| 0 <= i < j < b1.len() implies #[trigger] text_le(b1[i], b1[j])
            && b1[i] != b1[j] by {
            assert(text_le(b[i], b[j]));
        }
        lemma_ascending_unique(a1, b1);
        assert(a =~= a1.push(a.last()));
        assert(b =~= b1.push(b.last()));
    }
}

proof fn lemma_drop_last_to_set(a: Seq<Seq<char>>, k: Seq<char>)
    requires
        ascending(a),
        a.len() > 0,
    ensures
        a.drop_last().to_set().contains(k) <==> a.to_set().contains(k) && k != a.last(),
{
    let a1 = a.drop_last();
    if a1.to_set().contains(k) {
        let i = choose|i: int| 0 <= i < a1.len() && a1[i] == k;
        assert(a[i] == k);
        assert(text_le(a[i], a[a.len() - 1]));
    }
    if a.to_set().contains(k) && k != a.last() {
        let i = choose|i: int| 0 <= i < a.len() && a[i] == k;
        assert(a1[i] == k);
    }
}

/// The characters of a string.
pub(crate) fn chars_of(s: &str) -> (chars: Vec<char>)
    ensures
        chars@ == s@,
{
    let mut chars: Vec<char> = Vec::new();
    for c in it: s.chars()
        invariant
            it.seq() == s@,
            chars@ == s@.take(it.index() as int),
    {
        chars.push(c);
    }
    assert(s@.take(s@.len() as int) =~= s@);
    chars
}

/// Whether `a` stands before `b` or is `b`.
pub(crate) fn chars_le(a: &Vec<char>, b: &Vec<char>) -> (le: bool)
    ensures
        le == text_le(a@, b@),
{
    let mut i: usize = 0;
    assert(a@.skip(0) =~= a@);
    assert(b@.skip(0) =~= b@);
    while i < a.len() && i < b.len() && a[i] == b[i]
        invariant
            i <= a@.len(),
            i <= b@.len(),
            text_le(a@, b@) == text_le(a@.skip(i as int), b@.skip(i as int)),
        decreases a@.len() - i,
    {
        assert(a@.skip(i as int).drop_first() =~= a@.skip(i + 1));
        assert(b@.skip(i as int).drop_first() =~= b@.skip(i + 1));
        i += 1;
    }
    if i >= a.len() {
        true
    } else if i >= b.len() {
        false
    } else {
        a[i] < b[i]
    }
}

} // verus!
