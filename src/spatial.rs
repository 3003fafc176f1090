//! Neighbourhood queries over organism positions.
//!
//! The organisms' own positions are the source of truth: each query scans
//! them as they stand, so it never sees a stale position.

use vstd::prelude::*;
use crate::organism::{Organism, OrganismModel, views};

verus! {

pub open spec fn abs_diff(a: u32, b: u32) -> nat {
    if a >= b {
        (a - b) as nat
    } else {
        (b - a) as nat
    }
}

/// Chebyshev distance from `o` to the position `(x, y)`.
pub open spec fn dist(o: OrganismModel, x: u32, y: u32) -> nat {
    let dx = abs_diff(o.x, x);
    let dy = abs_diff(o.y, y);
    if dx >= dy {
        dx
    } else {
        dy
    }
}

/// Indices, among the first `k` organisms, of those at distance exactly `d`,
/// in order.
pub open spec fn ring(orgs: Seq<OrganismModel>, x: u32, y: u32, d: nat, k: nat) -> Seq<usize>
    decreases k,
{
    if k == 0 {
        seq![]
    } else {
        let prev = ring(orgs, x, y, d, (k - 1) as nat);
        if dist(orgs[k - 1], x, y) == d {
            prev.push((k - 1) as usize)
        } else {
            prev
        }
    }
}

/// Indices of the organisms at distance below `n`, ordered by distance and,
/// at equal distance, by index.
pub open spec fn rings_below(orgs: Seq<OrganismModel>, x: u32, y: u32, n: nat) -> Seq<usize>
    decreases n,
{
    if n == 0 {
        seq![]
    } else {
        rings_below(orgs, x, y, (n - 1) as nat) + ring(orgs, x, y, (n - 1) as nat, orgs.len())
    }
}

/// Indices of the organisms within `radius` of `(x, y)`, nearest first, ties
/// in index order.
pub open spec fn within(orgs: Seq<OrganismModel>, x: u32, y: u32, radius: nat) -> Seq<usize> {
    rings_below(orgs, x, y, radius + 1)
}

proof fn lemma_ring_empty(orgs: Seq<OrganismModel>, x: u32, y: u32, d: nat, k: nat)
    requires
        k <= orgs.len(),
        forall|j: int| 0 <= j < k ==> dist(#[trigger] orgs[j], x, y) < d,
    ensures
        ring(orgs, x, y, d, k) == Seq::<usize>::empty(),
    decreases k,
{
    if k > 0 {
        lemma_ring_empty(orgs, x, y, d, (k - 1) as nat);
    }
}

proof fn lemma_rings_stable(orgs: Seq<OrganismModel>, x: u32, y: u32, m: nat, n: nat)
    requires
        m <= n,
        forall|j: int| 0 <= j < orgs.len() ==> dist(#[trigger] orgs[j], x, y) < m,
    ensures
        rings_below(orgs, x, y, n) == rings_below(orgs, x, y, m),
    decreases n,
{
    if n > m {
        lemma_rings_stable(orgs, x, y, m, (n - 1) as nat);
        lemma_ring_empty(orgs, x, y, (n - 1) as nat, orgs.len());
        assert(rings_below(orgs, x, y, n) =~= rings_below(orgs, x, y, (n - 1) as nat));
    }
}

proof fn lemma_ring_bounds(orgs: Seq<OrganismModel>, x: u32, y: u32, d: nat, k: nat)
    requires
        k <= orgs.len(),
    ensures
        forall|i: int| 0 <= i < ring(orgs, x, y, d, k).len() ==> #[trigger] ring(orgs, x, y, d, k)[i] < k,
    decreases k,
{
    if k > 0 {
        lemma_ring_bounds(orgs, x, y, d, (k - 1) as nat);
        let prev = ring(orgs, x, y, d, (k - 1) as nat);
        assert forall|i: int| 0 <= i < ring(orgs, x, y, d, k).len() implies #[trigger] ring(
            orgs,
            x,
            y,
            d,
            k,
        )[i] < k by {
            if i < prev.len() {
                assert(prev[i] < k - 1);
            }
        }
    }
}

proof fn lemma_rings_bounds(orgs: Seq<OrganismModel>, x: u32, y: u32, n: nat)
    ensures
        forall|i: int|
            0 <= i < rings_below(orgs, x, y, n).len() ==> #[trigger] rings_below(orgs, x, y, n)[i] < orgs.len(),
    decreases n,
{
    if n > 0 {
        lemma_rings_bounds(orgs, x, y, (n - 1) as nat);
        lemma_ring_bounds(orgs, x, y, (n - 1) as nat, orgs.len());
        let a = rings_below(orgs, x, y, (n - 1) as nat);
        let b = ring(orgs, x, y, (n - 1) as nat, orgs.len());
        assert forall|i: int| 0 <= i < rings_below(orgs, x, y, n).len() implies #[trigger] rings_below(
            orgs,
            x,
            y,
            n,
        )[i] < orgs.len() by {
            if i < a.len() {
                assert(a[i] < orgs.len());
            } else {
                assert(b[i - a.len()] < orgs.len());
            }
        }
    }
}

/// Every index that a query returns names an organism of the queried sequence.
pub proof fn lemma_within_bounds(orgs: Seq<OrganismModel>, x: u32, y: u32, radius: nat)
    ensures
        forall|i: int|
            0 <= i < within(orgs, x, y, radius).len() ==> #[trigger] within(orgs, x, y, radius)[i] < orgs.len(),
{
    lemma_rings_bounds(orgs, x, y, radius + 1);
}

/// Organism `a` comes before organism `b` in a query around `(x, y)`: it is
/// nearer, or as near with a lower index.
pub open spec fn precedes(orgs: Seq<OrganismModel>, x: u32, y: u32, a: usize, b: usize) -> bool {
    let da = dist(orgs[a as int], x, y);
    let db = dist(orgs[b as int], x, y);
    da < db || (da == db && a < b)
}

proof fn lemma_ring_exact(orgs: Seq<OrganismModel>, x: u32, y: u32, d: nat, k: nat)
    requires
        k <= orgs.len(),
        orgs.len() <= usize::MAX,
    ensures
        forall|i: int|
            0 <= i < ring(orgs, x, y, d, k).len() ==> dist(orgs[#[trigger] ring(orgs, x, y, d, k)[i] as int], x, y)
                == d,
        forall|i: int, j: int|
            0 <= i < j < ring(orgs, x, y, d, k).len() ==> ring(orgs, x, y, d, k)[i] < ring(orgs, x, y, d, k)[j],
        forall|e: int| 0 <= e < k && dist(#[trigger] orgs[e], x, y) == d ==> ring(orgs, x, y, d, k).contains(e as usize),
    decreases k,
{
    lemma_ring_bounds(orgs, x, y, d, k);
    if k > 0 {
        let prev = ring(orgs, x, y, d, (k - 1) as nat);
        lemma_ring_exact(orgs, x, y, d, (k - 1) as nat);
        lemma_ring_bounds(orgs, x, y, d, (k - 1) as nat);
        let r = ring(orgs, x, y, d, k);
        assert forall|e: int| 0 <= e < k && dist(#[trigger] orgs[e], x, y) == d implies r.contains(e as usize) by {
            if e < k - 1 {
                let w = choose|w: int| 0 <= w < prev.len() && prev[w] == e as usize;
                assert(r[w] == e as usize);
            } else {
                assert(r[r.len() - 1] == e as usize);
            }
        }
        assert forall|i: int, j: int| 0 <= i < j < r.len() implies r[i] < r[j] by {
            if j < prev.len() {
            } else {
                assert(prev[i] < k - 1);
            }
        }
    }
}

proof fn lemma_rings_exact(orgs: Seq<OrganismModel>, x: u32, y: u32, n: nat)
    requires
        orgs.len() <= usize::MAX,
    ensures
        forall|i: int|
            0 <= i < rings_below(orgs, x, y, n).len() ==> dist(
                orgs[#[trigger] rings_below(orgs, x, y, n)[i] as int],
                x,
                y,
            ) < n,
        forall|i: int, j: int|
            0 <= i < j < rings_below(orgs, x, y, n).len() ==> #[trigger] precedes(
                orgs,
                x,
                y,
                rings_below(orgs, x, y, n)[i],
                rings_below(orgs, x, y, n)[j],
            ),
        forall|e: int|
            0 <= e < orgs.len() && dist(#[trigger] orgs[e], x, y) < n ==> rings_below(orgs, x, y, n).contains(
                e as usize,
            ),
    decreases n,
{
    if n > 0 {
        let m = (n - 1) as nat;
        lemma_rings_exact(orgs, x, y, m);
        lemma_ring_exact(orgs, x, y, m, orgs.len());
        lemma_rings_bounds(orgs, x, y, m);
        lemma_ring_bounds(orgs, x, y, m, orgs.len());
        let a = rings_below(orgs, x, y, m);
        let b = ring(orgs, x, y, m, orgs.len());
        let r = rings_below(orgs, x, y, n);
        assert(r == a + b);
        assert forall|i: int| 0 <= i < r.len() implies dist(orgs[#[trigger] r[i] as int], x, y) < n by {
            if i < a.len() {
                assert(r[i] == a[i]);
            } else {
                assert(r[i] == b[i - a.len()]);
            }
        }
        assert forall|i: int, j: int| 0 <= i < j < r.len() implies #[trigger] precedes(orgs, x, y, r[i], r[j]) by {
            if j < a.len() {
                assert(r[i] == a[i] && r[j] == a[j]);
            } else if i < a.len() {
                assert(r[i] == a[i] && r[j] == b[j - a.len()]);
            } else {
                assert(r[i] == b[i - a.len()] && r[j] == b[j - a.len()]);
            }
        }
        assert forall|e: int| 0 <= e < orgs.len() && dist(#[trigger] orgs[e], x, y) < n implies r.contains(
            e as usize,
        ) by {
            if dist(orgs[e], x, y) < m {
                let w = choose|w: int| 0 <= w < a.len() && a[w] == e as usize;
                assert(r[w] == e as usize);
            } else {
                let w = choose|w: int| 0 <= w < b.len() && b[w] == e as usize;
                assert(r[a.len() + w] == e as usize);
            }
        }
    }
}

/// A query returns exactly the organisms within `radius`, each once, nearest
/// first and, at equal distance, in index order.
pub proof fn lemma_within_exact(orgs: Seq<OrganismModel>, x: u32, y: u32, radius: nat)
    requires
        orgs.len() <= usize::MAX,
    ensures
        forall|i: int|
            0 <= i < within(orgs, x, y, radius).len() ==> #[trigger] within(orgs, x, y, radius)[i] < orgs.len()
                && dist(orgs[within(orgs, x, y, radius)[i] as int], x, y) <= radius,
        forall|i: int, j: int|
            0 <= i < j < within(orgs, x, y, radius).len() ==> #[trigger] precedes(
                orgs,
                x,
                y,
                within(orgs, x, y, radius)[i],
                within(orgs, x, y, radius)[j],
            ),
        forall|e: int|
            0 <= e < orgs.len() && dist(#[trigger] orgs[e], x, y) <= radius ==> within(
                orgs,
                x,
                y,
                radius,
            ).contains(e as usize),
{
    lemma_rings_exact(orgs, x, y, radius + 1);
    lemma_rings_bounds(orgs, x, y, radius + 1);
}

pub fn distance(o: &Organism, x: u32, y: u32) -> (d: u32)
    ensures
        d == dist(o@, x, y),
{
    let dx = if o.x >= x {
        o.x - x
    } else {
        x - o.x
    };
    let dy = if o.y >= y {
        o.y - y
    } else {
        y - o.y
    };
    if dx >= dy {
        dx
    } else {
        dy
    }
}

/// Indices of the organisms within `radius` of `(x, y)`, ordered by
/// ascending distance, then by index.
pub fn query_indices(orgs: &Vec<Organism>, x: u32, y: u32, radius: u32) -> (r: Vec<usize>)
    ensures
        r@ == within(views(orgs@), x, y, radius as nat),
        forall|i: int| 0 <= i < r@.len() ==> #[trigger] r@[i] < orgs@.len(),
{
    let ghost m = views(orgs@);
    let mut far: u32 = 0;
    let mut i: usize = 0;
    while i < orgs.len()
        invariant
            i <= orgs@.len(),
            m == views(orgs@),
            forall|j: int| 0 <= j < i ==> dist(#[trigger] m[j], x, y) <= far,
        decreases orgs@.len() - i,
    {
        let d = distance(&orgs[i], x, y);
        if d > far {
            far = d;
        }
        i += 1;
    }
    let lim: u32 = if radius < far {
        radius
    } else {
        far
    };
    let mut out: Vec<usize> = Vec::new();
    let mut d: u64 = 0;
    while d <= lim as u64
        invariant
            d <= lim + 1,
            m == views(orgs@),
            out@ == rings_below(m, x, y, d as nat),
        decreases lim + 1 - d,
    {
        let mut k: usize = 0;
        let ghost before = out@;
        while k < orgs.len()
            invariant
                k <= orgs@.len(),
                d <= lim,
                m == views(orgs@),
                before == rings_below(m, x, y, d as nat),
                out@ == before + ring(m, x, y, d as nat, k as nat),
            decreases orgs@.len() - k,
        {
            let dk = distance(&orgs[k], x, y);
            if dk as u64 == d {
                out.push(k);
                assert(out@ =~= before + ring(m, x, y, d as nat, (k + 1) as nat));
            }
            k += 1;
        }
        d += 1;
    }
    proof {
        if radius >= far {
            lemma_rings_stable(m, x, y, (far + 1) as nat, (radius + 1) as nat);
        }
        lemma_within_bounds(m, x, y, radius as nat);
    }
    out
}

} // verus!
