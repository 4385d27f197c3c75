//! Text: comparing strings.

use vstd::prelude::*;
use vstd::std_specs::iter::IteratorSpec;

verus! {

/// Whether two strings hold the same characters.
pub fn same_text(a: &str, b: &str) -> (same: bool)
    ensures
        same == (a@ == b@),
{
    let mut left = a.chars();
    let mut right = b.chars();
    let ghost mut i: int = 0;
    loop
        invariant
            0 <= i <= a@.len(),
            i <= b@.len(),
            a@.take(i) == b@.take(i),
            left.remaining() == a@.skip(i),
            right.remaining() == b@.skip(i),
            left.obeys_prophetic_iter_laws(),
            right.obeys_prophetic_iter_laws(),
        decreases a@.len() - i,
    {
        match (left.next(), right.next()) {
            (Some(x), Some(y)) => {
                if x != y {
                    assert(a@[i] == x && b@[i] == y);
                    return false;
                }
                proof {
                    assert(a@.take(i + 1) =~= a@.take(i).push(a@[i]));
                    assert(b@.take(i + 1) =~= b@.take(i).push(b@[i]));
                    assert(a@.skip(i).drop_first() =~= a@.skip(i + 1));
                    assert(b@.skip(i).drop_first() =~= b@.skip(i + 1));
                    i = i + 1;
                }
            },
            (None, None) => {
                assert(a@.take(i) =~= a@);
                assert(b@.take(i) =~= b@);
                return true;
            },
            _ => {
                return false;
            },
        }
    }
}

/// Whether a text starts with `prefix`.
pub fn starts_with(s: &str, prefix: &str) -> (starts: bool)
    ensures
        starts == prefix@.is_prefix_of(s@),
{
    let mut left = s.chars();
    let mut right = prefix.chars();
    let ghost mut i: int = 0;
    loop
        invariant
            0 <= i <= s@.len(),
            i <= prefix@.len(),
            s@.take(i) == prefix@.take(i),
            left.remaining() == s@.skip(i),
            right.remaining() == prefix@.skip(i),
            left.obeys_prophetic_iter_laws(),
            right.obeys_prophetic_iter_laws(),
        decreases prefix@.len() - i,
    {
        match right.next() {
            Some(y) => match left.next() {
                Some(x) => {
                    if x != y {
                        assert(s@[i] == x && prefix@[i] == y);
                        return false;
                    }
                    proof {
                        assert(s@.take(i + 1) =~= s@.take(i).push(s@[i]));
                        assert(prefix@.take(i + 1) =~= prefix@.take(i).push(prefix@[i]));
                        assert(s@.skip(i).drop_first() =~= s@.skip(i + 1));
                        assert(prefix@.skip(i).drop_first() =~= prefix@.skip(i + 1));
                        i = i + 1;
                    }
                },
                None => {
                    return false;
                },
            },
            None => {
                assert(prefix@.take(i) =~= prefix@);
                assert(s@.take(i) =~= s@.subrange(0, prefix@.len() as int));
                return true;
            },
        }
    }
}

} // verus!
