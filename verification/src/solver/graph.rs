//! Reachability in a directed graph given by adjacency lists.

use vstd::prelude::*;

verus! {

/// The adjacency lists as sequences.
pub open spec fn graph(adj: Seq<Vec<usize>>) -> Seq<Seq<usize>> {
    Seq::new(adj.len(), |i: int| adj[i]@)
}

/// Every listed successor is a vertex of the graph.
pub open spec fn wf_graph(g: Seq<Seq<usize>>) -> bool {
    forall|u: int, k: int|
        0 <= u < g.len() && 0 <= k < g[u].len() ==> (#[trigger] g[u][k]) < g.len()
}

/// There is an edge from `u` to `v`.
pub open spec fn edge(g: Seq<Seq<usize>>, u: int, v: int) -> bool {
    0 <= u < g.len() && exists|k: int| 0 <= k < g[u].len() && #[trigger] g[u][k] as int == v
}

/// `p` is a non-empty walk along edges of `g`.
pub open spec fn is_path(g: Seq<Seq<usize>>, p: Seq<int>) -> bool {
    &&& p.len() > 0
    &&& forall|i: int| 0 <= i < p.len() ==> 0 <= #[trigger] p[i] < g.len()
    &&& forall|i: int| 0 <= i < p.len() - 1 ==> edge(g, #[trigger] p[i], p[i + 1])
}

/// There is a walk from `u` to `v` (every vertex reaches itself).
pub open spec fn reaches(g: Seq<Seq<usize>>, u: int, v: int) -> bool {
    exists|p: Seq<int>| #[trigger] is_path(g, p) && p[0] == u && p.last() == v
}

/// The vertices marked in `s` are closed under successors.
pub open spec fn closed(g: Seq<Seq<usize>>, s: Seq<bool>) -> bool {
    forall|u: int, k: int|
        0 <= u < g.len() && 0 <= k < g[u].len() && s[u] ==> s[#[trigger] g[u][k] as int]
}

/// Number of marked entries.
pub open spec fn count_true(s: Seq<bool>) -> nat
    decreases s.len(),
{
    if s.len() == 0 {
        0
    } else {
        count_true(s.drop_last()) + if s.last() {
            1nat
        } else {
            0nat
        }
    }
}

/// Every vertex reaches itself by the one-vertex walk.
pub proof fn lemma_reaches_self(g: Seq<Seq<usize>>, u: int)
    requires
        0 <= u < g.len(),
    ensures
        reaches(g, u, u),
{
    let p = seq![u];
    assert(is_path(g, p));
}

/// A walk extended by an edge is a walk.
pub proof fn lemma_path_push(g: Seq<Seq<usize>>, p: Seq<int>, w: int)
    requires
        is_path(g, p),
        edge(g, p.last(), w),
        w < g.len(),
    ensures
        is_path(g, p.push(w)),
        p.push(w)[0] == p[0],
        p.push(w).last() == w,
{
    let q = p.push(w);
    assert forall|i: int| 0 <= i < q.len() - 1 implies edge(g, #[trigger] q[i], q[i + 1]) by {
        if i < p.len() - 1 {
            assert(q[i] == p[i] && q[i + 1] == p[i + 1]);
        } else {
            assert(q[i] == p.last());
        }
    }
}

/// Reaching extends along an edge.
pub proof fn lemma_reaches_step(g: Seq<Seq<usize>>, u: int, v: int, w: int)
    requires
        reaches(g, u, v),
        edge(g, v, w),
        w < g.len(),
    ensures
        reaches(g, u, w),
{
    let p = choose|p: Seq<int>| #[trigger] is_path(g, p) && p[0] == u && p.last() == v;
    lemma_path_push(g, p, w);
}

/// Reaching is transitive.
pub proof fn lemma_reaches_trans(g: Seq<Seq<usize>>, u: int, v: int, w: int)
    requires
        reaches(g, u, v),
        reaches(g, v, w),
    ensures
        reaches(g, u, w),
{
    let p = choose|p: Seq<int>| #[trigger] is_path(g, p) && p[0] == u && p.last() == v;
    let q = choose|q: Seq<int>| #[trigger] is_path(g, q) && q[0] == v && q.last() == w;
    let r = p + q.drop_first();
    assert forall|i: int| 0 <= i < r.len() implies 0 <= #[trigger] r[i] < g.len() by {
        if i >= p.len() {
            assert(r[i] == q[i - p.len() + 1]);
        }
    }
    assert forall|i: int| 0 <= i < r.len() - 1 implies edge(g, #[trigger] r[i], r[i + 1]) by {
        if i < p.len() - 1 {
            assert(r[i] == p[i] && r[i + 1] == p[i + 1]);
        } else if i == p.len() - 1 {
            assert(r[i] == p.last());
            assert(r[i + 1] == q[1]);
            assert(q[0] == p.last());
        } else {
            assert(r[i] == q[i - p.len() + 1]);
            assert(r[i + 1] == q[i - p.len() + 2]);
        }
    }
    assert(is_path(g, r));
    if q.len() == 1 {
        assert(r =~= p);
    } else {
        assert(r.last() == q.last());
    }
}

/// Walks that start in a closed set stay in it.
pub proof fn lemma_closed_traps(g: Seq<Seq<usize>>, s: Seq<bool>, u: int, v: int)
    requires
        s.len() == g.len(),
        closed(g, s),
        0 <= u < g.len(),
        s[u],
        reaches(g, u, v),
    ensures
        s[v],
{
    let p = choose|p: Seq<int>| #[trigger] is_path(g, p) && p[0] == u && p.last() == v;
    lemma_closed_traps_walk(g, s, p, p.len() - 1);
}

/// Every vertex of a walk that starts in a closed set lies in it.
proof fn lemma_closed_traps_walk(g: Seq<Seq<usize>>, s: Seq<bool>, p: Seq<int>, i: int)
    requires
        s.len() == g.len(),
        closed(g, s),
        is_path(g, p),
        s[p[0]],
        0 <= i < p.len(),
    ensures
        s[p[i]],
    decreases i,
{
    if i > 0 {
        lemma_closed_traps_walk(g, s, p, i - 1);
        assert(edge(g, p[i - 1], p[i]));
        let a = p[i - 1];
        let k = choose|k: int| 0 <= k < g[a].len() && #[trigger] g[a][k] as int == p[i];
        assert(s[g[a][k] as int]);
    }
}

/// Unmarking is counted: a pointwise smaller marking with one entry fewer
/// has a smaller count.
pub proof fn lemma_count_true_strict(a: Seq<bool>, b: Seq<bool>, j: int)
    requires
        a.len() == b.len(),
        forall|i: int| 0 <= i < a.len() && a[i] ==> b[i],
        0 <= j < a.len(),
        b[j] && !a[j],
    ensures
        count_true(a) < count_true(b),
    decreases a.len(),
{
    lemma_count_true_le(a.drop_last(), b.drop_last());
    if j < a.len() - 1 {
        lemma_count_true_strict(a.drop_last(), b.drop_last(), j);
    }
}

/// A pointwise smaller marking has no larger count.
pub proof fn lemma_count_true_le(a: Seq<bool>, b: Seq<bool>)
    requires
        a.len() == b.len(),
        forall|i: int| 0 <= i < a.len() && a[i] ==> b[i],
    ensures
        count_true(a) <= count_true(b),
    decreases a.len(),
{
    if a.len() > 0 {
        lemma_count_true_le(a.drop_last(), b.drop_last());
    }
}

/// Marking one more entry adds one to the count.
pub proof fn lemma_count_true_set(s: Seq<bool>, j: int)
    requires
        0 <= j < s.len(),
        !s[j],
    ensures
        count_true(s.update(j, true)) == count_true(s) + 1,
    decreases s.len(),
{
    let t = s.update(j, true);
    if j < s.len() - 1 {
        assert(t.drop_last() =~= s.drop_last().update(j, true));
        lemma_count_true_set(s.drop_last(), j);
    } else {
        assert(t.drop_last() =~= s.drop_last());
    }
}

/// The count never exceeds the length.
pub proof fn lemma_count_true_bound(s: Seq<bool>)
    ensures
        count_true(s) <= s.len(),
    decreases s.len(),
{
    if s.len() > 0 {
        lemma_count_true_bound(s.drop_last());
    }
}

/// The vertices reachable from `src` (including `src` itself), found by a
/// depth-first walk.
pub fn reachable_from(adj: &Vec<Vec<usize>>, src: usize) -> (r: Vec<bool>)
    requires
        wf_graph(graph(adj@)),
        src < adj@.len(),
    ensures
        r@.len() == adj@.len(),
        forall|v: int| 0 <= v < adj@.len() ==> (r@[v] <==> reaches(graph(adj@), src as int, v)),
        closed(graph(adj@), r@),
{
    let ghost g = graph(adj@);
    let n = adj.len();
    let mut visited: Vec<bool> = Vec::new();
    let mut i: usize = 0;
    while i < n
        invariant
            i <= n,
            visited@.len() == i,
            forall|j: int| 0 <= j < i ==> !visited@[j],
        decreases n - i,
    {
        visited.push(false);
        i = i + 1;
    }
    proof {
        lemma_count_true_set(visited@, src as int);
        lemma_count_true_bound(visited@.update(src as int, true));
    }
    visited.set(src, true);
    let mut stack: Vec<usize> = Vec::new();
    stack.push(src);
    let ghost mut paths: Map<int, Seq<int>> = Map::empty().insert(src as int, seq![src as int]);
    proof {
        assert(is_path(g, seq![src as int]));
        assert(stack@[0] == src);
        assert forall|v: int| 0 <= v < n && visited@[v] implies v == src by {}
    }
    while stack.len() > 0
        invariant
            n == adj@.len(),
            g == graph(adj@),
            wf_graph(g),
            src < n,
            visited@.len() == n,
            visited@[src as int],
            count_true(visited@) <= n,
            forall|i: int| 0 <= i < stack@.len() ==> (#[trigger] stack@[i]) < n && visited@[stack@[i] as int],
            forall|i: int, j: int| 0 <= i < j < stack@.len() ==> stack@[i] != stack@[j],
            forall|v: int|
                0 <= v < n && #[trigger] visited@[v] ==> paths.dom().contains(v) && is_path(g, paths[v])
                    && paths[v][0] == src && paths[v].last() == v,
            forall|v: int, k: int|
                0 <= v < n && visited@[v] && !stack@.contains(v as usize) && 0 <= k < g[v].len()
                    ==> visited@[#[trigger] g[v][k] as int],
        decreases 2 * (n - count_true(visited@)) + stack@.len(),
    {
        let ghost old_stack = stack@;
        let ghost measure0 = 2 * (n - count_true(visited@)) + stack@.len();
        let u = stack.pop().unwrap();
        proof {
            assert(stack@ =~= old_stack.drop_last());
            assert(u == old_stack[old_stack.len() - 1]);
            assert forall|i: int| 0 <= i < stack@.len() implies stack@[i] != u by {
                assert(stack@[i] == old_stack[i]);
            }
            assert forall|v: int|
                #![trigger old_stack.contains(v as usize)]
                0 <= v < n && v != u && !stack@.contains(v as usize) implies !old_stack.contains(
                v as usize,
            ) by {
                if old_stack.contains(v as usize) {
                    let i = choose|i: int| 0 <= i < old_stack.len() && old_stack[i] == v as usize;
                    if i < old_stack.len() - 1 {
                        assert(stack@[i] == v as usize);
                    }
                }
            }
        }
        let row = &adj[u];
        let m = row.len();
        let mut k: usize = 0;
        while k < m
            invariant
                n == adj@.len(),
                g == graph(adj@),
                wf_graph(g),
                u < n,
                row@ == g[u as int],
                m == row@.len(),
                k <= m,
                src < n,
                visited@.len() == n,
                visited@[src as int],
                visited@[u as int],
                count_true(visited@) <= n,
                2 * (n - count_true(visited@)) + stack@.len() < measure0,
                !stack@.contains(u),
                forall|i: int| 0 <= i < stack@.len() ==> (#[trigger] stack@[i]) < n && visited@[stack@[i] as int],
                forall|i: int, j: int| 0 <= i < j < stack@.len() ==> stack@[i] != stack@[j],
                forall|v: int|
                    0 <= v < n && #[trigger] visited@[v] ==> paths.dom().contains(v) && is_path(g, paths[v])
                        && paths[v][0] == src && paths[v].last() == v,
                forall|v: int, kk: int|
                    0 <= v < n && v != u && visited@[v] && !stack@.contains(v as usize) && 0 <= kk < g[v].len()
                        ==> visited@[#[trigger] g[v][kk] as int],
                forall|kk: int| 0 <= kk < k ==> visited@[#[trigger] g[u as int][kk] as int],
            decreases m - k,
        {
            let w = row[k];
            if !visited[w] {
                proof {
                    assert(g[u as int][k as int] == w);
                    assert(edge(g, u as int, w as int));
                    assert(count_true(visited@) < n) by {
                        lemma_count_true_set(visited@, w as int);
                        lemma_count_true_bound(visited@.update(w as int, true));
                    }
                    lemma_path_push(g, paths[u as int], w as int);
                    paths = paths.insert(w as int, paths[u as int].push(w as int));
                    lemma_count_true_set(visited@, w as int);
                    lemma_count_true_bound(visited@.update(w as int, true));
                    assert forall|i: int| 0 <= i < stack@.len() implies stack@[i] != w by {}
                }
                let ghost prev_stack = stack@;
                let ghost prev_visited = visited@;
                visited.set(w, true);
                stack.push(w);
                proof {
                    assert(stack@ =~= prev_stack.push(w));
                    assert forall|v: int, kk: int|
                        0 <= v < n && v != u && visited@[v] && !stack@.contains(v as usize) && 0 <= kk
                            < g[v].len() implies visited@[#[trigger] g[v][kk] as int] by {
                        if v == w {
                            assert(stack@[stack@.len() - 1] == w);
                        } else {
                            assert(prev_visited[v]);
                            if prev_stack.contains(v as usize) {
                                let i = choose|i: int| 0 <= i < prev_stack.len() && prev_stack[i] == v as usize;
                                assert(stack@[i] == v as usize);
                            }
                            assert(prev_visited[g[v][kk] as int]);
                        }
                    }
                }
            }
            k = k + 1;
        }
    }
    proof {
        assert forall|v: int| 0 <= v < n implies (visited@[v] <==> reaches(g, src as int, v)) by {
            if visited@[v] {
                assert(is_path(g, paths[v]));
            }
            if reaches(g, src as int, v) {
                lemma_closed_traps(g, visited@, src as int, v);
            }
        }
    }
    visited
}

} // verus!
