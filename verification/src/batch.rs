//! Work in batches of a limited size.
use vstd::prelude::*;

verus! {

/// From where to where some batches go.
pub open spec fn bounds(batches: Seq<(usize, usize)>) -> Seq<(int, int)> {
    Seq::new(batches.len(), |i: int| (batches[i].0 as int, batches[i].1 as int))
}

/// The batches of `n` items from `start` on: each as large as allowed, but for the last.
pub open spec fn ranges_from(start: nat, n: nat, size: nat) -> Seq<(int, int)>
    decreases n - start,
{
    if start >= n || size == 0 {
        seq![]
    } else {
        let end = if start + size < n {
            start + size
        } else {
            n
        };
        seq![(start as int, end as int)] + ranges_from(end, n, size)
    }
}

/// The batches of `n` items.
pub open spec fn ranges(n: nat, size: nat) -> Seq<(int, int)> {
    ranges_from(0, n, size)
}

/// The batches of `n` items.
pub fn split_range(n: usize, size: usize) -> (r: Vec<(usize, usize)>)
    requires
        size > 0,
    ensures
        bounds(r@) == ranges(n as nat, size as nat),
{
    let mut out: Vec<(usize, usize)> = Vec::new();
    let mut start: usize = 0;
    assert(bounds(out@) + ranges_from(0, n as nat, size as nat) =~= ranges(n as nat, size as nat));
    while start < n
        invariant
            start <= n,
            size > 0,
            bounds(out@) + ranges_from(start as nat, n as nat, size as nat) == ranges(
                n as nat,
                size as nat,
            ),
        decreases n - start,
    {
        let end: usize = if size < n - start {
            start + size
        } else {
            n
        };
        let ghost before = bounds(out@);
        let ghost item = (start as int, end as int);
        let ghost rest = ranges_from(end as nat, n as nat, size as nat);
        assert(ranges_from(start as nat, n as nat, size as nat) == seq![item] + rest);
        out.push((start, end));
        assert(bounds(out@) =~= before.push(item));
        assert(before + (seq![item] + rest) =~= before.push(item) + rest);
        start = end;
    }
    assert(bounds(out@) + seq![] =~= bounds(out@));
    out
}

/// Batches follow one another without gap or overlap, from the first item to the last, and none is
/// empty or larger than allowed.
pub proof fn law_batches_cover_everything(start: nat, n: nat, size: nat)
    requires
        size > 0,
        start <= n,
    ensures
        ({
            let all = ranges_from(start, n, size);
            &&& start < n ==> all.len() > 0 && all[0].0 == start && all.last().1 == n
            &&& start == n ==> all.len() == 0
            &&& forall|i: int|
                0 <= i < all.len() ==> (#[trigger] all[i]).0 < all[i].1 <= all[i].0 + size
            &&& forall|i: int| 0 < i < all.len() ==> (#[trigger] all[i]).0 == all[i - 1].1
        }),
    decreases n - start,
{
    let all = ranges_from(start, n, size);
    if start < n {
        let end = if start + size < n {
            start + size
        } else {
            n
        };
        let rest = ranges_from(end, n, size);
        law_batches_cover_everything(end, n, size);
        assert(all == seq![(start as int, end as int)] + rest);
        assert forall|i: int| 0 <= i < all.len() implies (#[trigger] all[i]).0 < all[i].1 <= all[i].0
            + size by {
            if i > 0 {
                assert(all[i] == rest[i - 1]);
            }
        }
        assert forall|i: int| 0 < i < all.len() implies (#[trigger] all[i]).0 == all[i - 1].1 by {
            assert(all[i] == rest[i - 1]);
            if i > 1 {
                assert(all[i - 1] == rest[i - 2]);
            }
        }
        if rest.len() > 0 {
            assert(all.last() == rest.last());
        }
    }
}

} // verus!
