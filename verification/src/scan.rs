//! The first position at which a condition holds: how checks that stop
//! at the first failing item are specified.

use vstd::prelude::*;

verus! {

/// The first index below `n` at which `p` holds, or -1.
pub open spec fn first_where(n: int, p: spec_fn(int) -> bool) -> int
    decreases n,
{
    if n <= 0 {
        -1
    } else {
        let k = first_where(n - 1, p);
        if k >= 0 {
            k
        } else if p(n - 1) {
            n - 1
        } else {
            -1
        }
    }
}

pub proof fn lemma_first_where(n: int, p: spec_fn(int) -> bool)
    ensures
        -1 <= first_where(n, p) < if n < 0 { 0 } else { n },
        first_where(n, p) >= 0 ==> p(first_where(n, p)),
        first_where(n, p) >= 0 ==> forall|j: int| 0 <= j < first_where(n, p) ==> !#[trigger] p(j),
        first_where(n, p) < 0 ==> forall|j: int| 0 <= j < n ==> !#[trigger] p(j),
    decreases n,
{
    if n > 0 {
        lemma_first_where(n - 1, p);
    }
}

/// Once a prefix has a first match, longer prefixes have the same one.
pub proof fn lemma_first_where_extends(m: int, n: int, p: spec_fn(int) -> bool)
    requires
        0 <= m <= n,
        first_where(m, p) >= 0,
    ensures
        first_where(n, p) == first_where(m, p),
    decreases n - m,
{
    if m < n {
        lemma_first_where_extends(m, n - 1, p);
    }
}

/// The first match is at `i` when nothing before `i` matches and `i` does.
pub proof fn lemma_first_where_at(i: int, n: int, p: spec_fn(int) -> bool)
    requires
        0 <= i < n,
        first_where(i, p) < 0,
        p(i),
    ensures
        first_where(n, p) == i,
{
    assert(first_where(i + 1, p) == i);
    lemma_first_where_extends(i + 1, n, p);
}

} // verus!
