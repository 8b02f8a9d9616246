//! The first position that satisfies a predicate, and facts about finding it.
use vstd::prelude::*;

verus! {

/// The first `i` in `0..n` that satisfies `p`.
pub open spec fn first_in(n: int, p: spec_fn(int) -> bool) -> Option<int>
    decreases n,
{
    if n <= 0 {
        None
    } else {
        match first_in(n - 1, p) {
            Some(i) => Some(i),
            None => if p(n - 1) {
                Some(n - 1)
            } else {
                None
            },
        }
    }
}

pub proof fn lemma_first_in_hit(n: int, p: spec_fn(int) -> bool)
    requires
        n >= 0,
        first_in(n, p) is None,
        p(n),
    ensures
        first_in(n + 1, p) == Some(n),
{
}

pub proof fn lemma_first_in_miss(n: int, p: spec_fn(int) -> bool)
    requires
        n >= 0,
        first_in(n, p) is None,
        !p(n),
    ensures
        first_in(n + 1, p) is None,
{
}

pub proof fn lemma_first_in_bounds(n: int, p: spec_fn(int) -> bool)
    ensures
        first_in(n, p) matches Some(i) ==> 0 <= i < n && p(i),
    decreases n,
{
    if n > 0 {
        lemma_first_in_bounds(n - 1, p);
    }
}

/// Once found within `0..n`, the first match stays the first for any larger bound.
pub proof fn lemma_first_in_rest(n: int, m: int, p: spec_fn(int) -> bool)
    requires
        0 <= n <= m,
        first_in(n, p) is Some,
    ensures
        first_in(m, p) == first_in(n, p),
    decreases m - n,
{
    if m > n {
        lemma_first_in_rest(n, m - 1, p);
    }
}

} // verus!
