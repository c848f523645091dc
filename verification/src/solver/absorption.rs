//! The absorption guard of the feasibility solver: under the chosen policy,
//! no closed class of states may be one in which the option never
//! terminates, or STOK normalisation fails.

use vstd::prelude::*;
use super::graph::{graph, wf_graph, edge, reaches, closed, count_true, reachable_from,
    lemma_reaches_self, lemma_reaches_trans, lemma_reaches_step, lemma_closed_traps,
    lemma_count_true_strict};

verus! {

/// From `v` some state reaches where the option can terminate.
pub open spec fn can_terminate(g: Seq<Seq<usize>>, never_terminates: Seq<bool>, v: int) -> bool {
    exists|t: int| 0 <= t < g.len() && #[trigger] reaches(g, v, t) && !never_terminates[t]
}

/// `class` is a closed recurrent class of non-terminating states: a
/// non-empty list of distinct states, closed under the successor relation,
/// in which every state reaches every other, and where the option never
/// terminates.
pub open spec fn is_trapping_class(
    g: Seq<Seq<usize>>,
    never_terminates: Seq<bool>,
    class: Seq<usize>,
) -> bool {
    &&& class.len() > 0
    &&& forall|i: int| 0 <= i < class.len() ==> (#[trigger] class[i]) < g.len()
    &&& forall|i: int, j: int| 0 <= i < j < class.len() ==> class[i] != class[j]
    &&& forall|i: int| 0 <= i < class.len() ==> never_terminates[#[trigger] class[i] as int]
    &&& forall|i: int, w: int|
        0 <= i < class.len() && #[trigger] edge(g, class[i] as int, w) ==> class.contains(w as usize)
    &&& forall|i: int, j: int|
        0 <= i < class.len() && 0 <= j < class.len() ==> reaches(
            g,
            #[trigger] class[i] as int,
            #[trigger] class[j] as int,
        )
}

/// No state of a trapping class can reach termination: the class is closed
/// and the option never terminates inside it. So `check_policy_absorption`
/// fails exactly when such a class exists.
pub proof fn lemma_trapping_class_never_terminates(
    g: Seq<Seq<usize>>,
    never_terminates: Seq<bool>,
    class: Seq<usize>,
)
    requires
        wf_graph(g),
        g.len() <= usize::MAX,
        never_terminates.len() == g.len(),
        is_trapping_class(g, never_terminates, class),
    ensures
        forall|i: int| 0 <= i < class.len() ==> !can_terminate(g, never_terminates, #[trigger] class[i] as int),
{
    let s = Seq::new(g.len(), |v: int| class.contains(v as usize));
    lemma_class_marking_closed(g, never_terminates, class, s);
    assert forall|i: int| 0 <= i < class.len() implies !can_terminate(g, never_terminates, #[trigger] class[i] as int) by {
        let v = class[i] as int;
        assert(s[v]);
        assert forall|t: int| 0 <= t < g.len() && #[trigger] reaches(g, v, t) implies never_terminates[t] by {
            lemma_closed_traps(g, s, v, t);
            let j = choose|j: int| 0 <= j < class.len() && class[j] == t as usize;
            assert(never_terminates[class[j] as int]);
        }
    }
}

/// The states of a trapping class, as a marking, are closed under successors.
proof fn lemma_class_marking_closed(
    g: Seq<Seq<usize>>,
    never_terminates: Seq<bool>,
    class: Seq<usize>,
    s: Seq<bool>,
)
    requires
        wf_graph(g),
        g.len() <= usize::MAX,
        is_trapping_class(g, never_terminates, class),
        s == Seq::new(g.len(), |v: int| class.contains(v as usize)),
    ensures
        closed(g, s),
{
    assert forall|u: int, k: int| 0 <= u < g.len() && 0 <= k < g[u].len() && s[u] implies s[
        #[trigger] g[u][k] as int] by {
        let i = choose|i: int| 0 <= i < class.len() && class[i] == u as usize;
        assert(class[i] as int == u);
        assert(g[class[i] as int][k] as int == g[u][k] as int);
        assert(edge(g, class[i] as int, g[u][k] as int));
    }
}

/// Whether some state reachable from `v` can terminate.
fn reaches_termination(adj: &Vec<Vec<usize>>, never_terminates: &Vec<bool>, v: usize) -> (b: bool)
    requires
        wf_graph(graph(adj@)),
        v < adj@.len(),
        never_terminates@.len() == adj@.len(),
    ensures
        b == can_terminate(graph(adj@), never_terminates@, v as int),
{
    let reach = reachable_from(adj, v);
    let n = adj.len();
    let mut t: usize = 0;
    while t < n
        invariant
            n == adj@.len(),
            reach@.len() == n,
            never_terminates@.len() == n,
            t <= n,
            forall|v2: int| 0 <= v2 < n ==> (reach@[v2] <==> reaches(graph(adj@), v as int, v2)),
            forall|s: int| 0 <= s < t ==> !(reach@[s] && !never_terminates@[s]),
        decreases n - t,
    {
        if reach[t] && !never_terminates[t] {
            proof {
                assert(reaches(graph(adj@), v as int, t as int));
            }
            return true;
        }
        t = t + 1;
    }
    proof {
        assert forall|s: int|
            0 <= s < graph(adj@).len() && reaches(graph(adj@), v as int, s) implies never_terminates@[s] by {
            assert(reach@[s]);
        }
    }
    false
}

/// Checks that the policy-induced dynamics are absorbing.
///
/// `adj[x]` lists the states reachable in one step from `x` under the policy
/// (the support of P_π(·|x)); `never_terminates[x]` says that at `x` the
/// option (almost) never terminates, i.e. f₂(x, π(x)) ≈ 1.
///
/// Returns `Ok(())` exactly when every state reaches a state where the option
/// can terminate. Otherwise returns a closed recurrent class of
/// non-terminating states, which violates the transience assumption of STOK
/// normalisation.
pub fn check_policy_absorption(adj: &Vec<Vec<usize>>, never_terminates: &Vec<bool>) -> (r: Result<
    (),
    Vec<usize>,
>)
    requires
        wf_graph(graph(adj@)),
        never_terminates@.len() == adj@.len(),
    ensures
        r is Ok <==> forall|v: int|
            0 <= v < adj@.len() ==> can_terminate(graph(adj@), never_terminates@, v),
        r matches Err(class) ==> is_trapping_class(graph(adj@), never_terminates@, class@),
{
    let ghost g = graph(adj@);
    let n = adj.len();
    // Find a state from which termination is impossible.
    let mut v0: usize = 0;
    let mut bad: Option<usize> = None;
    while v0 < n && bad.is_none()
        invariant
            n == adj@.len(),
            g == graph(adj@),
            wf_graph(g),
            never_terminates@.len() == n,
            v0 <= n,
            bad is None ==> forall|v: int| 0 <= v < v0 ==> can_terminate(g, never_terminates@, v),
            bad matches Some(b) ==> b < n && !can_terminate(g, never_terminates@, b as int),
        decreases n - v0,
    {
        if !reaches_termination(adj, never_terminates, v0) {
            bad = Some(v0);
        }
        v0 = v0 + 1;
    }
    let v0 = match bad {
        None => {
            return Ok(());
        },
        Some(b) => b,
    };
    // Descend to a bottom strongly connected component of what v0 reaches.
    let mut cur: usize = v0;
    let mut reach = reachable_from(adj, cur);
    proof {
        lemma_reaches_self(g, v0 as int);
    }
    loop
        invariant
            n == adj@.len(),
            g == graph(adj@),
            wf_graph(g),
            never_terminates@.len() == n,
            v0 < n,
            cur < n,
            !can_terminate(g, never_terminates@, v0 as int),
            reaches(g, v0 as int, cur as int),
            reach@.len() == n,
            forall|v: int| 0 <= v < n ==> (reach@[v] <==> reaches(g, cur as int, v)),
            closed(g, reach@),
        decreases count_true(reach@),
    {
        // Look for a reachable state from which `cur` cannot be reached again.
        let mut w: usize = 0;
        let mut next: Option<(usize, Vec<bool>)> = None;
        while w < n && next.is_none()
            invariant
                n == adj@.len(),
                g == graph(adj@),
                wf_graph(g),
                cur < n,
                w <= n,
                reach@.len() == n,
                forall|v: int| 0 <= v < n ==> (reach@[v] <==> reaches(g, cur as int, v)),
                next is None ==> forall|x: int| 0 <= x < w && reach@[x] ==> reaches(g, x, cur as int),
                next matches Some((ww, back)) ==> {
                    &&& ww < n
                    &&& reach@[ww as int]
                    &&& back@.len() == n
                    &&& forall|v: int| 0 <= v < n ==> (back@[v] <==> reaches(g, ww as int, v))
                    &&& !back@[cur as int]
                    &&& closed(g, back@)
                },
            decreases n - w,
        {
            if reach[w] {
                let back = reachable_from(adj, w);
                if !back[cur] {
                    next = Some((w, back));
                }
            }
            w = w + 1;
        }
        match next {
            Some((w, back)) => {
                proof {
                    // What `w` reaches is part of what `cur` reaches, without `cur`.
                    assert forall|v: int| 0 <= v < n && back@[v] implies reach@[v] by {
                        lemma_reaches_trans(g, cur as int, w as int, v);
                    }
                    lemma_reaches_self(g, cur as int);
                    lemma_count_true_strict(back@, reach@, cur as int);
                    lemma_reaches_trans(g, v0 as int, cur as int, w as int);
                }
                cur = w;
                reach = back;
            },
            None => {
                // Every state `cur` reaches reaches `cur` back: a bottom class.
                let mut class: Vec<usize> = Vec::new();
                let mut v: usize = 0;
                while v < n
                    invariant
                        n == adj@.len(),
                        reach@.len() == n,
                        v <= n,
                        forall|i: int| 0 <= i < class@.len() ==> (#[trigger] class@[i]) < v && reach@[class@[i] as int],
                        forall|i: int, j: int| 0 <= i < j < class@.len() ==> class@[i] < class@[j],
                        forall|x: int| 0 <= x < v && reach@[x] ==> class@.contains(x as usize),
                    decreases n - v,
                {
                    let ghost old_class = class@;
                    if reach[v] {
                        class.push(v);
                        proof {
                            assert(class@ =~= old_class.push(v));
                            assert(class@[class@.len() - 1] == v);
                            assert forall|x: int| 0 <= x < v && reach@[x] implies class@.contains(x as usize) by {
                                let i = choose|i: int| 0 <= i < old_class.len() && old_class[i] == x as usize;
                                assert(class@[i] == x as usize);
                            }
                        }
                    }
                    v = v + 1;
                }
                proof {
                    let c = class@;
                    assert forall|i: int| 0 <= i < c.len() implies never_terminates@[#[trigger] c[i] as int] by {
                        lemma_reaches_trans(g, v0 as int, cur as int, c[i] as int);
                    }
                    assert forall|i: int, x: int|
                        0 <= i < c.len() && #[trigger] edge(g, c[i] as int, x) implies c.contains(x as usize) by {
                        let k = choose|k: int| 0 <= k < g[c[i] as int].len() && #[trigger] g[c[i] as int][k] as int == x;
                        assert(reach@[g[c[i] as int][k] as int]);
                    }
                    assert forall|i: int, j: int|
                        0 <= i < c.len() && 0 <= j < c.len() implies reaches(
                            g,
                            #[trigger] c[i] as int,
                            #[trigger] c[j] as int,
                        ) by {
                        lemma_reaches_trans(g, c[i] as int, cur as int, c[j] as int);
                    }
                    lemma_reaches_self(g, cur as int);
                    assert(reach@[cur as int]);
                    assert(c.contains(cur));
                }
                return Err(class);
            },
        }
    }
}

} // verus!
