use crate::graph::UnitGraph;
use vstd::prelude::*;

verus! {

/// A dependency edge of the unit graph: unit `a` depends on unit `b`.
pub open spec fn edge(g: UnitGraph, a: int, b: int) -> bool {
    &&& 0 <= a < g.units@.len()
    &&& exists|d: int|
        0 <= d < g.units@[a].deps@.len() && (#[trigger] g.units@[a].deps@[d]) as int == b
}

/// Whether a unit index occurs in a list.
pub open spec fn holds_index(s: Seq<usize>, i: int) -> bool {
    exists|c: int| 0 <= c < s.len() && (#[trigger] s[c]) as int == i
}

/// A dependency chain that starts at a root unit.
pub open spec fn is_root_path(g: UnitGraph, p: Seq<int>) -> bool {
    &&& p.len() > 0
    &&& holds_index(g.roots@, p[0])
    &&& forall|k: int| 0 <= k < p.len() ==> 0 <= #[trigger] p[k] < g.units@.len()
    &&& forall|k: int| 0 <= k < p.len() - 1 ==> edge(g, #[trigger] p[k], p[k + 1])
}

/// A unit is reachable when some dependency chain from a root ends at it:
/// these are exactly the units the orchestrator would build.
pub open spec fn reachable(g: UnitGraph, i: int) -> bool {
    exists|p: Seq<int>| is_root_path(g, p) && p.last() == i
}

/// Every root is reachable, by the chain of itself alone.
pub proof fn lemma_root_reachable(g: UnitGraph, i: int)
    requires
        holds_index(g.roots@, i),
        0 <= i < g.units@.len(),
    ensures
        reachable(g, i),
{
    let p = seq![i];
    assert(is_root_path(g, p));
    assert(p.last() == i);
}

/// Reachability follows dependency edges.
pub proof fn lemma_edge_reachable(g: UnitGraph, a: int, b: int)
    requires
        reachable(g, a),
        edge(g, a, b),
        0 <= b < g.units@.len(),
    ensures
        reachable(g, b),
{
    let p = choose|p: Seq<int>| is_root_path(g, p) && p.last() == a;
    let q = p.push(b);
    assert forall|k: int| 0 <= k < q.len() - 1 implies edge(g, #[trigger] q[k], q[k + 1]) by {
        if k < p.len() - 1 {
            assert(q[k] == p[k] && q[k + 1] == p[k + 1]);
        } else {
            assert(q[k] == p.last() && q[k + 1] == b);
        }
    }
    assert(is_root_path(g, q));
    assert(q.last() == b);
}

/// A list that holds every root and is closed under dependency edges holds
/// every unit a root chain reaches.
proof fn lemma_closed_holds_path_end(g: UnitGraph, out: Seq<usize>, p: Seq<int>)
    requires
        is_root_path(g, p),
        forall|r: int| 0 <= r < g.roots@.len() ==> holds_index(out, (#[trigger] g.roots@[r]) as int),
        forall|a: int, b: int| holds_index(out, a) && edge(g, a, b) ==> holds_index(out, b),
    ensures
        holds_index(out, p.last()),
    decreases p.len(),
{
    if p.len() == 1 {
        let r = choose|c: int| 0 <= c < g.roots@.len() && (#[trigger] g.roots@[c]) as int == p[0];
        assert(holds_index(out, g.roots@[r] as int));
    } else {
        let q = p.drop_last();
        assert(is_root_path(g, q)) by {
            assert(q[0] == p[0]);
            assert forall|k: int| 0 <= k < q.len() - 1 implies edge(g, #[trigger] q[k], q[k + 1]) by {
                assert(q[k] == p[k] && q[k + 1] == p[k + 1]);
            }
        }
        lemma_closed_holds_path_end(g, out, q);
        assert(edge(g, q.last(), p.last())) by {
            assert(p[p.len() - 2] == q.last());
        }
    }
}

/// How many units have not been seen yet.
pub open spec fn count_false(s: Seq<bool>) -> nat
    decreases s.len(),
{
    if s.len() == 0 {
        0
    } else {
        count_false(s.drop_last()) + if s.last() {
            0nat
        } else {
            1nat
        }
    }
}

/// Seeing one more unit lowers the count of unseen ones by one.
proof fn lemma_count_false_set(s: Seq<bool>, i: int)
    requires
        0 <= i < s.len(),
        !s[i],
    ensures
        count_false(s.update(i, true)) + 1 == count_false(s),
    decreases s.len(),
{
    let t = s.update(i, true);
    if i == s.len() - 1 {
        assert(t.drop_last() =~= s.drop_last());
        assert(t.last());
    } else {
        lemma_count_false_set(s.drop_last(), i);
        assert(t.drop_last() =~= s.drop_last().update(i, true));
        assert(t.last() == s.last());
    }
}

/// Materializes the set of units the orchestrator would build: every unit
/// reachable from a root by dependency edges, each exactly once, gathered by
/// an explicit worklist with a visited set so that shared sub-dependencies
/// reached along several chains terminate the walk all the same.
pub fn collect_units(g: &UnitGraph) -> (r: Vec<usize>)
    requires
        g.wf(),
    ensures
        r@.no_duplicates(),
        forall|c: int| 0 <= c < r@.len() ==> (#[trigger] r@[c]) < g.units@.len(),
        forall|c: int| 0 <= c < r@.len() ==> reachable(*g, (#[trigger] r@[c]) as int),
        forall|i: int| 0 <= i < g.units@.len() && reachable(*g, i) ==> holds_index(r@, i),
{
    let n = g.units.len();
    let mut seen: Vec<bool> = Vec::new();
    let mut q: usize = 0;
    while q < n
        invariant
            0 <= q <= n,
            seen@.len() == q,
            forall|i: int| 0 <= i < q ==> !(#[trigger] seen@[i]),
        decreases n - q,
    {
        seen.push(false);
        q += 1;
    }

    let mut stack: Vec<usize> = Vec::new();
    let mut ri: usize = 0;
    while ri < g.roots.len()
        invariant
            g.wf(),
            n == g.units@.len(),
            0 <= ri <= g.roots@.len(),
            seen@.len() == n,
            stack@.no_duplicates(),
            forall|c: int| 0 <= c < stack@.len() ==> (#[trigger] stack@[c]) < n,
            forall|c: int| 0 <= c < stack@.len() ==> reachable(*g, (#[trigger] stack@[c]) as int),
            forall|i: int| 0 <= i < n ==> ((#[trigger] seen@[i]) <==> holds_index(stack@, i)),
            forall|r: int| 0 <= r < ri ==> holds_index(stack@, (#[trigger] g.roots@[r]) as int),
        decreases g.roots@.len() - ri,
    {
        let root = g.roots[ri];
        if !seen[root] {
            seen.set(root, true);
            let ghost old_stack = stack@;
            stack.push(root);
            proof {
                lemma_root_reachable(*g, root as int);
                assert forall|i: int| 0 <= i < n implies ((#[trigger] seen@[i]) <==> holds_index(
                    stack@,
                    i,
                )) by {
                    if i == root {
                        assert(stack@[stack@.len() - 1] as int == i);
                    } else if holds_index(stack@, i) {
                        let c = choose|c: int| 0 <= c < stack@.len() && (#[trigger] stack@[c]) as int == i;
                        assert(c < old_stack.len() && old_stack[c] as int == i);
                    } else if holds_index(old_stack, i) {
                        let c = choose|c: int|
                            0 <= c < old_stack.len() && (#[trigger] old_stack[c]) as int == i;
                        assert(stack@[c] as int == i);
                    }
                }
            }
        }
        proof {
            assert forall|r: int| 0 <= r < ri + 1 implies holds_index(
                stack@,
                (#[trigger] g.roots@[r]) as int,
            ) by {
                assert(seen@[g.roots@[r] as int]);
            }
        }
        ri += 1;
    }

    let mut out: Vec<usize> = Vec::new();
    while stack.len() > 0
        invariant
            g.wf(),
            n == g.units@.len(),
            seen@.len() == n,
            out@.no_duplicates(),
            stack@.no_duplicates(),
            forall|c1: int, c2: int|
                #![trigger out@[c1], stack@[c2]]
                0 <= c1 < out@.len() && 0 <= c2 < stack@.len() ==> out@[c1] != stack@[c2],
            forall|c: int| 0 <= c < out@.len() ==> (#[trigger] out@[c]) < n,
            forall|c: int| 0 <= c < stack@.len() ==> (#[trigger] stack@[c]) < n,
            forall|c: int| 0 <= c < out@.len() ==> reachable(*g, (#[trigger] out@[c]) as int),
            forall|c: int| 0 <= c < stack@.len() ==> reachable(*g, (#[trigger] stack@[c]) as int),
            forall|i: int|
                0 <= i < n ==> ((#[trigger] seen@[i]) <==> holds_index(out@, i) || holds_index(
                    stack@,
                    i,
                )),
            forall|r: int| 0 <= r < g.roots@.len() ==> seen@[(#[trigger] g.roots@[r]) as int],
            forall|c: int, d: int|
                0 <= c < out@.len() && 0 <= d < g.units@[out@[c] as int].deps@.len()
                    ==> seen@[(#[trigger] g.units@[out@[c] as int].deps@[d]) as int],
        decreases count_false(seen@), stack@.len(),
    {
        let ghost cf0 = count_false(seen@);
        let ghost stack0 = stack@;
        let x = match stack.pop() {
            Some(x) => x,
            None => {
                proof {
                    assert(false);
                }
                0
            },
        };
        let ghost popped = stack@;
        let ghost out0 = out@;
        out.push(x);
        proof {
            assert forall|i: int| 0 <= i < n implies ((#[trigger] seen@[i]) <==> holds_index(
                out@,
                i,
            ) || holds_index(stack@, i)) by {
                if i == x as int {
                    assert(out@[out@.len() - 1] as int == i);
                } else {
                    if holds_index(out0, i) {
                        let c = choose|c: int| 0 <= c < out0.len() && (#[trigger] out0[c]) as int == i;
                        assert(out@[c] as int == i);
                    }
                    if holds_index(out@, i) {
                        let c = choose|c: int| 0 <= c < out@.len() && (#[trigger] out@[c]) as int == i;
                        assert(c < out0.len());
                    }
                    if holds_index(stack0, i) {
                        let c = choose|c: int|
                            0 <= c < stack0.len() && (#[trigger] stack0[c]) as int == i;
                        assert(c < popped.len() && popped[c] as int == i);
                    }
                    if holds_index(popped, i) {
                        let c = choose|c: int|
                            0 <= c < popped.len() && (#[trigger] popped[c]) as int == i;
                        assert(stack0[c] as int == i);
                    }
                }
            }
        }
        let deps_len = g.units[x].deps.len();
        let mut d: usize = 0;
        while d < deps_len
            invariant
                g.wf(),
                n == g.units@.len(),
                x < n,
                deps_len == g.units@[x as int].deps@.len(),
                0 <= d <= deps_len,
                seen@.len() == n,
                out@.no_duplicates(),
                stack@.no_duplicates(),
                forall|c1: int, c2: int|
                    #![trigger out@[c1], stack@[c2]]
                    0 <= c1 < out@.len() && 0 <= c2 < stack@.len() ==> out@[c1] != stack@[c2],
                forall|c: int| 0 <= c < out@.len() ==> (#[trigger] out@[c]) < n,
                forall|c: int| 0 <= c < stack@.len() ==> (#[trigger] stack@[c]) < n,
                forall|c: int| 0 <= c < out@.len() ==> reachable(*g, (#[trigger] out@[c]) as int),
                forall|c: int|
                    0 <= c < stack@.len() ==> reachable(*g, (#[trigger] stack@[c]) as int),
                forall|i: int|
                    0 <= i < n ==> ((#[trigger] seen@[i]) <==> holds_index(out@, i) || holds_index(
                        stack@,
                        i,
                    )),
                forall|r: int| 0 <= r < g.roots@.len() ==> seen@[(#[trigger] g.roots@[r]) as int],
                forall|c: int, e: int|
                    0 <= c < out@.len() - 1 && 0 <= e < g.units@[out@[c] as int].deps@.len()
                        ==> seen@[(#[trigger] g.units@[out@[c] as int].deps@[e]) as int],
                out@.len() > 0 && out@.last() == x,
                reachable(*g, x as int),
                forall|e: int|
                    0 <= e < d ==> seen@[(#[trigger] g.units@[x as int].deps@[e]) as int],
                count_false(seen@) + stack@.len() == cf0 + stack0.len() - 1,
                count_false(seen@) <= cf0,
            decreases deps_len - d,
        {
            let dep = g.units[x].deps[d];
            proof {
                assert(g.units@[x as int].deps@[d as int] < n);
            }
            if !seen[dep] {
                proof {
                    lemma_count_false_set(seen@, dep as int);
                }
                seen.set(dep, true);
                let ghost pre_stack = stack@;
                stack.push(dep);
                proof {
                    assert(edge(*g, x as int, dep as int)) by {
                        assert(g.units@[x as int].deps@[d as int] == dep);
                    }
                    lemma_edge_reachable(*g, x as int, dep as int);
                    assert forall|i: int| 0 <= i < n implies ((#[trigger] seen@[i])
                        <==> holds_index(out@, i) || holds_index(stack@, i)) by {
                        if i == dep as int {
                            assert(stack@[stack@.len() - 1] as int == i);
                        } else {
                            if holds_index(pre_stack, i) {
                                let c = choose|c: int|
                                    0 <= c < pre_stack.len() && (#[trigger] pre_stack[c]) as int
                                        == i;
                                assert(stack@[c] as int == i);
                            }
                            if holds_index(stack@, i) {
                                let c = choose|c: int|
                                    0 <= c < stack@.len() && (#[trigger] stack@[c]) as int == i;
                                if c < pre_stack.len() {
                                    assert(pre_stack[c] as int == i);
                                }
                            }
                        }
                    }
                }
            }
            d += 1;
        }
        proof {
            assert forall|c: int, e: int|
                0 <= c < out@.len() && 0 <= e < g.units@[out@[c] as int].deps@.len() implies seen@[(
            #[trigger] g.units@[out@[c] as int].deps@[e]) as int] by {
                if c == out@.len() - 1 {
                    assert(out@[c] == x);
                }
            }
        }
    }
    proof {
        assert forall|i: int| 0 <= i < g.units@.len() && reachable(*g, i) implies holds_index(
            out@,
            i,
        ) by {
            assert forall|r: int| 0 <= r < g.roots@.len() implies holds_index(
                out@,
                (#[trigger] g.roots@[r]) as int,
            ) by {
                assert(seen@[g.roots@[r] as int]);
            }
            assert forall|a: int, b: int| holds_index(out@, a) && edge(*g, a, b) implies holds_index(
                out@,
                b,
            ) by {
                let c = choose|c: int| 0 <= c < out@.len() && (#[trigger] out@[c]) as int == a;
                let e = choose|e: int|
                    0 <= e < g.units@[a].deps@.len() && (#[trigger] g.units@[a].deps@[e]) as int
                        == b;
                assert(seen@[b]);
            }
            let p = choose|p: Seq<int>| is_root_path(*g, p) && p.last() == i;
            lemma_closed_holds_path_end(*g, out@, p);
        }
    }
    out
}

} // verus!
