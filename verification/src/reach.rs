use vstd::prelude::*;
use crate::csr::CSR;

verus! {

/// A walk that ends in `a` can be extended along an edge from `a` to `b`.
pub proof fn lemma_reach_step<P>(g: &CSR<P>, start: usize, a: usize, b: usize)
    requires
        g.wf(),
        g.reachable(start, a),
        g.has_edge(a, b),
    ensures
        g.reachable(start, b),
{
    let p = choose|p: Seq<usize>| g.is_walk(p) && p[0] == start && p.last() == a;
    let q = p.push(b);
    let j = choose|j: int| g.offsets()[a as int] <= j < g.range_end(a as int) && g.neighbors()[j] == b;
    assert(g.neighbors()[j] < g.num_vertices());
    assert forall|i: int| 0 <= i < q.len() - 1 implies g.has_edge(#[trigger] q[i], q[i + 1]) by {
        if i < p.len() - 1 {
            assert(g.has_edge(p[i], p[i + 1]));
        }
    }
    assert(g.is_walk(q) && q[0] == start && q.last() == b);
}

/// Every vertex reaches itself, by the walk of one vertex.
pub proof fn lemma_reach_self<P>(g: &CSR<P>, start: usize)
    requires
        start < g.num_vertices(),
    ensures
        g.reachable(start, start),
{
    let p = seq![start];
    assert(g.is_walk(p) && p[0] == start && p.last() == start);
}

/// A set of vertices that holds `start` and is closed under edges holds every
/// vertex of a walk from `start`.
pub proof fn lemma_walk_inside<P>(g: &CSR<P>, order: Seq<usize>, p: Seq<usize>, k: int)
    requires
        g.is_walk(p),
        order.contains(p[0]),
        forall|a: usize, b: usize| order.contains(a) && #[trigger] g.has_edge(a, b) ==> order.contains(b),
        0 <= k < p.len(),
    ensures
        order.contains(p[k]),
    decreases k,
{
    if k > 0 {
        lemma_walk_inside(g, order, p, k - 1);
        assert(g.has_edge(p[k - 1], p[k - 1 + 1]));
    }
}

/// A sequence without repetition whose items are all below `n` has at most
/// `n` items, and exactly `n` if it holds every number below `n`.
pub proof fn lemma_distinct_bounded(s: Seq<usize>, n: nat)
    requires
        n <= usize::MAX,
        s.no_duplicates(),
        forall|i: int| 0 <= i < s.len() ==> s[i] < n,
    ensures
        s.len() <= n,
        (forall|u: usize| u < n ==> s.contains(u)) ==> s.len() == n,
    decreases n,
{
    if n == 0 {
        if s.len() > 0 {
            assert(s[0] < n);
        }
    } else {
        let top = (n - 1) as usize;
        if s.contains(top) {
            let p = choose|p: int| 0 <= p < s.len() && s[p] == top;
            let t = s.remove(p);
            assert forall|i: int| 0 <= i < t.len() implies t[i] < n - 1 by {
                if i < p {
                    assert(t[i] == s[i]);
                } else {
                    assert(t[i] == s[i + 1]);
                }
            }
            assert(t.no_duplicates()) by {
                assert forall|i: int, j: int| 0 <= i < t.len() && 0 <= j < t.len() && i != j implies t[i]
                    != t[j] by {
                    let ii = if i < p { i } else { i + 1 };
                    let jj = if j < p { j } else { j + 1 };
                    assert(t[i] == s[ii] && t[j] == s[jj]);
                }
            }
            lemma_distinct_bounded(t, (n - 1) as nat);
            if forall|u: usize| u < n ==> s.contains(u) {
                assert forall|u: usize| u < n - 1 implies t.contains(u) by {
                    assert(s.contains(u));
                    let q = choose|q: int| 0 <= q < s.len() && s[q] == u;
                    if q < p {
                        assert(t[q] == u);
                    } else {
                        assert(t[q - 1] == u);
                    }
                }
            }
        } else {
            assert forall|i: int| 0 <= i < s.len() implies s[i] < n - 1 by {
                if s[i] == top {
                    assert(s.contains(top));
                }
            }
            lemma_distinct_bounded(s, (n - 1) as nat);
        }
    }
}

/// At most one position is the first parent of a position.
pub proof fn lemma_first_parent_unique<P>(g: &CSR<P>, order: Seq<usize>, i: int, p: int, q: int)
    requires
        g.is_first_parent(order, i, p),
        g.is_first_parent(order, i, q),
    ensures
        p == q,
{
    if p < q {
        assert(!g.has_edge(order[p], order[i]));
    } else if q < p {
        assert(!g.has_edge(order[q], order[i]));
    }
}

/// At most one slot is the first of a group to hold a vertex.
pub proof fn lemma_first_slot_unique<P>(g: &CSR<P>, a: usize, b: usize, s: int, t: int)
    requires
        g.is_first_slot(a, b, s),
        g.is_first_slot(a, b, t),
    ensures
        s == t,
{
    if s < t {
        assert(g.neighbors()[s] != b);
    } else if t < s {
        assert(g.neighbors()[t] != b);
    }
}

/// A group that holds a vertex has a first slot that holds it.
pub proof fn lemma_first_slot_exists<P>(g: &CSR<P>, a: usize, b: usize, j: int)
    requires
        g.offsets()[a as int] <= j < g.range_end(a as int),
        g.neighbors()[j] == b,
    ensures
        exists|s: int| g.is_first_slot(a, b, s),
    decreases j - g.offsets()[a as int],
{
    if exists|t: int| g.offsets()[a as int] <= t < j && g.neighbors()[t] == b {
        let t = choose|t: int| g.offsets()[a as int] <= t < j && g.neighbors()[t] == b;
        lemma_first_slot_exists(g, a, b, t);
    } else {
        assert(g.is_first_slot(a, b, j));
    }
}

/// Two breadth-first orders from the same start agree on their first `k`
/// positions.
pub proof fn lemma_bfs_prefix<P>(g: &CSR<P>, start: usize, a: Seq<usize>, b: Seq<usize>, k: int)
    requires
        g.is_bfs_order(start, a),
        g.is_bfs_order(start, b),
        0 <= k <= a.len(),
        0 <= k <= b.len(),
    ensures
        forall|i: int| 0 <= i < k ==> a[i] == b[i],
    decreases k,
{
    if k > 1 {
        lemma_bfs_prefix(g, start, a, b, k - 1);
        let n = k - 1;
        let x = a[n];
        let y = b[n];
        if x != y {
            // where the other order holds each of the two vertices
            assert(a.contains(x));
            assert(b.contains(x));
            let nx = choose|i: int| 0 <= i < b.len() && b[i] == x;
            assert(b.contains(y));
            assert(a.contains(y));
            let ny = choose|i: int| 0 <= i < a.len() && a[i] == y;
            assert(nx > n) by {
                if nx < n {
                    assert(a[nx] == b[nx]);
                }
            }
            assert(ny > n) by {
                if ny < n {
                    assert(a[ny] == b[ny]);
                }
            }
            // the first parents, which stand in the common prefix
            assert(g.found_from_earlier(a, n));
            let px = choose|p: int| 0 <= p < n && #[trigger] g.is_first_parent(a, n, p);
            assert(g.found_from_earlier(b, n));
            let py = choose|p: int| 0 <= p < n && #[trigger] g.is_first_parent(b, n, p);
            assert(g.is_first_parent(b, nx, px)) by {
                assert(b[px] == a[px]);
                assert forall|q: int| 0 <= q < px implies !g.has_edge(#[trigger] b[q], b[nx]) by {
                    assert(b[q] == a[q]);
                }
            }
            assert(g.is_first_parent(a, ny, py)) by {
                assert(a[py] == b[py]);
                assert forall|q: int| 0 <= q < py implies !g.has_edge(#[trigger] a[q], a[ny]) by {
                    assert(a[q] == b[q]);
                }
            }
            // the first slots
            let jx = choose|j: int|
                g.offsets()[a[px] as int] <= j < g.range_end(a[px] as int) && g.neighbors()[j] == x;
            lemma_first_slot_exists(g, a[px], x, jx);
            let sx = choose|s: int| g.is_first_slot(a[px], x, s);
            let jy = choose|j: int|
                g.offsets()[b[py] as int] <= j < g.range_end(b[py] as int) && g.neighbors()[j] == y;
            lemma_first_slot_exists(g, b[py], y, jy);
            let sy = choose|s: int| g.is_first_slot(b[py], y, s);
            assert(a[px] == b[px] && a[py] == b[py]);
            // each order finds its own vertex first
            assert(g.found_in_turn(a, n, ny));
            assert(g.is_first_slot(a[px], a[n], sx) && g.is_first_slot(a[py], a[ny], sy));
            assert(px < py || (px == py && sx < sy));
            assert(g.found_in_turn(b, n, nx));
            assert(g.is_first_slot(b[py], b[n], sy) && g.is_first_slot(b[px], b[nx], sx));
            assert(py < px || (py == px && sy < sx));
        }
    }
}

} // verus!
