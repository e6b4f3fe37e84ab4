//! Finding the first occurrence of a value in a sequence.

use vstd::prelude::*;

verus! {

/// Where `x` first occurs in `s`; the length of `s` if it does not occur.
pub open spec fn first_index<T>(s: Seq<T>, x: T) -> nat
    decreases s.len(),
{
    if s.len() == 0 || s[0] == x {
        0
    } else {
        1 + first_index(s.skip(1), x)
    }
}

/// `first_index` points at the first occurrence, or past the end.
pub proof fn lemma_first_index<T>(s: Seq<T>, x: T)
    ensures
        first_index(s, x) <= s.len(),
        first_index(s, x) < s.len() ==> s[first_index(s, x) as int] == x,
        forall|i: int| 0 <= i < first_index(s, x) ==> s[i] != x,
        first_index(s, x) < s.len() <==> s.contains(x),
    decreases s.len(),
{
    if s.len() > 0 && s[0] != x {
        lemma_first_index(s.skip(1), x);
        assert forall|i: int| 0 <= i < first_index(s, x) implies s[i] != x by {
            if i > 0 {
                assert(s.skip(1)[i - 1] == s[i]);
            }
        }
    }
    let at = first_index(s, x) as int;
    if at >= s.len() && s.contains(x) {
        let i = choose|i: int| 0 <= i < s.len() && s[i] == x;
        assert(s[i] != x);
    }
}

/// An index with nothing equal to `x` before it, which holds `x` or is the length, is
/// the first index of `x`.
pub proof fn lemma_first_index_is<T>(s: Seq<T>, x: T, at: int)
    requires
        0 <= at <= s.len(),
        forall|i: int| 0 <= i < at ==> s[i] != x,
        at < s.len() ==> s[at] == x,
    ensures
        first_index(s, x) == at,
{
    lemma_first_index(s, x);
    let found = first_index(s, x) as int;
    if found < at {
        assert(s[found] != x);
    }
}

/// No value occurs twice.
pub open spec fn distinct<T>(s: Seq<T>) -> bool {
    forall|i: int, j: int| 0 <= i < j < s.len() ==> s[i] != s[j]
}

/// Where a value stands after another was added at the end.
pub proof fn lemma_first_index_push<T>(s: Seq<T>, added: T, x: T)
    ensures
        first_index(s.push(added), x) == if first_index(s, x) < s.len() {
            first_index(s, x)
        } else if added == x {
            s.len()
        } else {
            s.len() + 1
        },
{
    lemma_first_index(s, x);
    let longer = s.push(added);
    let at = first_index(s, x) as int;
    assert forall|i: int| 0 <= i < at implies longer[i] != x by {
        assert(longer[i] == s[i]);
    }
    if at < s.len() {
        assert(longer[at] == s[at]);
        lemma_first_index_is(longer, x, at);
    } else if added == x {
        lemma_first_index_is(longer, x, at);
    } else {
        assert(longer[at] == added);
        lemma_first_index_is(longer, x, at + 1);
    }
}

/// Where a value stands after the value at `at` was taken out of a sequence in
/// which no value occurs twice.
pub proof fn lemma_first_index_remove<T>(s: Seq<T>, at: int, x: T)
    requires
        0 <= at < s.len(),
        distinct(s),
    ensures
        first_index(s.remove(at), x) == if x == s[at] {
            s.len() - 1
        } else if first_index(s, x) < at {
            first_index(s, x) as int
        } else {
            first_index(s, x) - 1
        },
        distinct(s.remove(at)),
{
    lemma_first_index(s, x);
    let rest = s.remove(at);
    let was = first_index(s, x) as int;
    assert forall|i: int| 0 <= i < rest.len() implies rest[i] == s[if i < at {
        i
    } else {
        i + 1
    }] by {}
    assert forall|i: int, j: int| 0 <= i < j < rest.len() implies rest[i] != rest[j] by {
        let ki = if i < at {
            i
        } else {
            i + 1
        };
        let kj = if j < at {
            j
        } else {
            j + 1
        };
        assert(rest[i] == s[ki] && rest[j] == s[kj]);
    }
    if x == s[at] {
        assert forall|i: int| 0 <= i < rest.len() implies rest[i] != x by {
            let k = if i < at {
                i
            } else {
                i + 1
            };
            assert(rest[i] == s[k]);
            if k < at {
                assert(s[k] != s[at]);
            } else {
                assert(s[at] != s[k]);
            }
        }
        lemma_first_index_is(rest, x, rest.len() as int);
    } else {
        let target = if was < at {
            was
        } else {
            was - 1
        };
        assert forall|i: int| 0 <= i < target implies rest[i] != x by {
            let k = if i < at {
                i
            } else {
                i + 1
            };
            assert(rest[i] == s[k]);
            assert(k < was);
        }
        if was < s.len() {
            assert(rest[target] == s[was]);
        }
        lemma_first_index_is(rest, x, target);
    }
}

} // verus!
