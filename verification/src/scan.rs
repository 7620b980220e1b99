//! Scans over the positions `0..n`: the least position at which a predicate
//! holds, and the entries made at the positions at which one holds.

use vstd::prelude::*;

verus! {

/// The least `i` in `0..n` with `p(i)`, or `n` where `p` holds nowhere in
/// that range.
pub open spec fn least(n: int, p: spec_fn(int) -> bool) -> int
    decreases n,
{
    if n <= 0 {
        0
    } else {
        let before = least(n - 1, p);
        if before < n - 1 {
            before
        } else if p(n - 1) {
            n - 1
        } else {
            n
        }
    }
}

/// `least(n, p)` lies in `0..=n`, `p` holds there unless it is `n`, and `p`
/// holds at no earlier position.
pub proof fn lemma_least(n: int, p: spec_fn(int) -> bool)
    requires
        0 <= n,
    ensures
        0 <= least(n, p) <= n,
        least(n, p) < n ==> p(least(n, p)),
        forall|j: int| 0 <= j < least(n, p) ==> !#[trigger] p(j),
    decreases n,
{
    if n > 0 {
        lemma_least(n - 1, p);
    }
}

/// A position with the properties of `least(n, p)` is `least(n, p)`.
pub proof fn lemma_least_is(n: int, p: spec_fn(int) -> bool, at: int)
    requires
        0 <= at <= n,
        at < n ==> p(at),
        forall|j: int| 0 <= j < at ==> !#[trigger] p(j),
    ensures
        least(n, p) == at,
{
    lemma_least(n, p);
}

/// The entries `make(i)` for the positions `i` in `0..n` with `keep(i)`, in
/// the order of the positions.
pub open spec fn gather<T>(n: int, keep: spec_fn(int) -> bool, make: spec_fn(int) -> T) -> Seq<T>
    decreases n,
{
    if n <= 0 {
        Seq::empty()
    } else if keep(n - 1) {
        gather(n - 1, keep, make).push(make(n - 1))
    } else {
        gather(n - 1, keep, make)
    }
}

/// The number of positions in `0..n` at which `keep` holds.
pub open spec fn tally(n: int, keep: spec_fn(int) -> bool) -> nat
    decreases n,
{
    if n <= 0 {
        0
    } else if keep(n - 1) {
        tally(n - 1, keep) + 1
    } else {
        tally(n - 1, keep)
    }
}

/// `gather` makes one entry for each position that `keep` holds at.
pub proof fn lemma_gather_len<T>(n: int, keep: spec_fn(int) -> bool, make: spec_fn(int) -> T)
    ensures
        gather(n, keep, make).len() == tally(n, keep),
    decreases n,
{
    if n > 0 {
        lemma_gather_len(n - 1, keep, make);
    }
}

/// Every entry of `gather` was made at a position that `keep` holds at, and
/// every such position has its entry.
pub proof fn lemma_gather_contains<T>(
    n: int,
    keep: spec_fn(int) -> bool,
    make: spec_fn(int) -> T,
    entry: T,
)
    ensures
        gather(n, keep, make).contains(entry) <==> exists|i: int|
            0 <= i < n && #[trigger] keep(i) && make(i) == entry,
    decreases n,
{
    if n > 0 {
        lemma_gather_contains(n - 1, keep, make, entry);
        let before = gather(n - 1, keep, make);
        let all = gather(n, keep, make);
        if keep(n - 1) {
            assert(all == before.push(make(n - 1)));
            if all.contains(entry) {
                let k = choose|k: int| 0 <= k < all.len() && all[k] == entry;
                if k < before.len() {
                    assert(before[k] == entry);
                    assert(before.contains(entry));
                } else {
                    assert(keep(n - 1) && make(n - 1) == entry);
                }
            }
            if exists|i: int| 0 <= i < n && #[trigger] keep(i) && make(i) == entry {
                let i = choose|i: int| 0 <= i < n && #[trigger] keep(i) && make(i) == entry;
                if i < n - 1 {
                    assert(before.contains(entry));
                    let k = choose|k: int| 0 <= k < before.len() && before[k] == entry;
                    assert(all[k] == entry);
                } else {
                    assert(all[all.len() - 1] == entry);
                }
            }
        }
    } else {
        assert(!gather(n, keep, make).contains(entry));
    }
}

} // verus!
