//! Dependency graph validation and start-order computation.
//!
//! Processes are numbered `0..n`; `g[i]` lists the indices the `i`-th process
//! depends on.  A three-color depth-first search either finds a dependency
//! cycle (returning the edge that closes it) or produces a start order in
//! which every process stands after all of its dependencies.
use vstd::prelude::*;

verus! {

/// The adjacency lists of a graph, as sequences.
pub open spec fn adj_view(g: &Vec<Vec<usize>>) -> Seq<Seq<usize>> {
    Seq::new(g@.len(), |i: int| g@[i]@)
}

/// All dependency indices are in range.
pub open spec fn graph_wf(g: Seq<Seq<usize>>) -> bool {
    forall|i: int, j: int|
        0 <= i < g.len() && 0 <= j < g[i].len() ==> (#[trigger] g[i][j]) < g.len()
}

/// There is a dependency edge from `a` to `b`.
pub open spec fn has_edge(g: Seq<Seq<usize>>, a: int, b: int) -> bool {
    0 <= a < g.len() && exists|j: int| 0 <= j < g[a].len() && g[a][j] == b
}

/// `p` is a dependency cycle: consecutive nodes are joined by edges and the
/// path returns to its starting node.
pub open spec fn is_cycle(g: Seq<Seq<usize>>, p: Seq<int>) -> bool {
    &&& p.len() >= 2
    &&& p.first() == p.last()
    &&& forall|k: int| 0 <= k < p.len() - 1 ==> has_edge(g, #[trigger] p[k], p[k + 1])
}

/// No dependency cycle exists.
pub open spec fn acyclic(g: Seq<Seq<usize>>) -> bool {
    !exists|p: Seq<int>| is_cycle(g, p)
}

/// Node `v` appears somewhere in `order`.
pub open spec fn node_listed(order: Seq<usize>, v: int) -> bool {
    exists|q: int| 0 <= q < order.len() && order[q] == v
}

/// `order` lists every node below `n` exactly once.
pub open spec fn lists_each_node_once(order: Seq<usize>, n: nat) -> bool {
    &&& forall|q: int| 0 <= q < order.len() ==> (#[trigger] order[q]) < n
    &&& forall|v: int| 0 <= v < n ==> #[trigger] node_listed(order, v)
    &&& forall|q1: int, q2: int|
        0 <= q1 < q2 < order.len() ==> (#[trigger] order[q1]) != (#[trigger] order[q2])
}

/// Every dependency of a listed node stands earlier in the order.
pub open spec fn deps_first(g: Seq<Seq<usize>>, order: Seq<usize>) -> bool {
    forall|q: int, b: int|
        0 <= q < order.len() && #[trigger] has_edge(g, order[q] as int, b) ==> exists|q2: int|
            0 <= q2 < q && order[q2] == b
}

// ---------------------------------------------------------------------------
// A dependency-first order rules out cycles.
// ---------------------------------------------------------------------------
/// The position of node `v` in `order`.
pub open spec fn pos_of(order: Seq<usize>, v: int) -> int {
    choose|q: int| 0 <= q < order.len() && order[q] == v
}

proof fn lemma_pos_valid(order: Seq<usize>, n: nat, v: int)
    requires
        lists_each_node_once(order, n),
        0 <= v < n,
    ensures
        0 <= pos_of(order, v) < order.len(),
        order[pos_of(order, v)] == v,
{
    assert(node_listed(order, v));
}

proof fn lemma_edge_pos(g: Seq<Seq<usize>>, order: Seq<usize>, a: int, b: int)
    requires
        graph_wf(g),
        lists_each_node_once(order, g.len()),
        deps_first(g, order),
        0 <= a < g.len(),
        has_edge(g, a, b),
    ensures
        0 <= b < g.len(),
        pos_of(order, b) < pos_of(order, a),
{
    assert(0 <= b < g.len()) by {
        let j = choose|j: int| 0 <= j < g[a].len() && g[a][j] == b;
        assert(g[a][j] < g.len());
    }
    lemma_pos_valid(order, g.len(), a);
    lemma_pos_valid(order, g.len(), b);
    let qa = pos_of(order, a);
    assert(has_edge(g, order[qa] as int, b));
    let q2 = choose|q2: int| 0 <= q2 < qa && order[q2] == b;
    if q2 != pos_of(order, b) {
        // Two distinct positions would hold the same node.
        assert(order[q2] == order[pos_of(order, b)]);
        assert(false);
    }
}

proof fn lemma_chain_pos_decreases(g: Seq<Seq<usize>>, order: Seq<usize>, p: Seq<int>)
    requires
        graph_wf(g),
        lists_each_node_once(order, g.len()),
        deps_first(g, order),
        p.len() >= 2,
        forall|k: int| 0 <= k < p.len() - 1 ==> has_edge(g, #[trigger] p[k], p[k + 1]),
    ensures
        0 <= p.first() < g.len(),
        0 <= p.last() < g.len(),
        pos_of(order, p.last()) < pos_of(order, p.first()),
    decreases p.len(),
{
    if p.len() == 2 {
        assert(has_edge(g, p[0], p[1]));
        lemma_edge_pos(g, order, p[0], p[1]);
    } else {
        let q = p.drop_last();
        assert(forall|k: int| 0 <= k < q.len() - 1 ==> has_edge(g, #[trigger] q[k], q[k + 1]))
            by {
            assert(forall|k: int|
                0 <= k < q.len() - 1 ==> (#[trigger] q[k]) == p[k] && q[k + 1] == p[k + 1]);
        }
        lemma_chain_pos_decreases(g, order, q);
        assert(has_edge(g, p[p.len() - 2], p[p.len() - 1]));
        lemma_edge_pos(g, order, p[p.len() - 2], p[p.len() - 1]);
        assert(q.last() == p[p.len() - 2]);
    }
}

/// An order that lists each of the `n` nodes exactly once has length `n`.
pub proof fn lemma_full_order_len(order: Seq<usize>, n: nat)
    requires
        lists_each_node_once(order, n),
    ensures
        order.len() == n,
{
    broadcast use vstd::set::group_set_axioms, vstd::seq_lib::seq_to_set_is_finite;

    let m = order.map_values(|x: usize| x as int);
    assert(m.no_duplicates()) by {
        assert forall|i: int, j: int|
            0 <= i < m.len() && 0 <= j < m.len() && i != j implies m[i] != m[j] by {
            if i < j {
                assert(order[i] != order[j]);
            } else {
                assert(order[j] != order[i]);
            }
        }
    }
    assert(m.to_set() =~= vstd::set_lib::set_int_range(0, n as int)) by {
        assert forall|v: int| m.to_set().contains(v) implies 0 <= v < n by {
            let q = choose|q: int| 0 <= q < m.len() && m[q] == v;
            assert(order[q] < n);
        }
        assert forall|v: int| 0 <= v < n implies m.to_set().contains(v) by {
            assert(node_listed(order, v));
            let q = choose|q: int| 0 <= q < order.len() && order[q] == v;
            assert(m[q] == v);
            assert(m.contains(v));
        }
    }
    m.unique_seq_to_set();
    vstd::set_lib::lemma_int_range(0, n as int);
}

/// A graph that admits a dependency-first order of all its nodes is acyclic.
pub proof fn lemma_order_implies_acyclic(g: Seq<Seq<usize>>, order: Seq<usize>)
    requires
        graph_wf(g),
        lists_each_node_once(order, g.len()),
        deps_first(g, order),
    ensures
        acyclic(g),
{
    if !acyclic(g) {
        let p = choose|p: Seq<int>| is_cycle(g, p);
        lemma_chain_pos_decreases(g, order, p);
        assert(p.first() == p.last());
        assert(false);
    }
}

// ---------------------------------------------------------------------------
// Counting unvisited nodes (the termination measure of the search)
// ---------------------------------------------------------------------------
spec fn zeros_before(s: Seq<u8>, n: int) -> nat
    decreases n,
{
    if n <= 0 {
        0
    } else {
        zeros_before(s, n - 1) + (if s[n - 1] == 0 {
            1nat
        } else {
            0nat
        })
    }
}

proof fn lemma_zeros_le(s: Seq<u8>, t: Seq<u8>, n: int)
    requires
        n <= s.len(),
        n <= t.len(),
        forall|i: int| 0 <= i < n && (#[trigger] t[i]) == 0 ==> s[i] == 0,
    ensures
        zeros_before(t, n) <= zeros_before(s, n),
    decreases n,
{
    if n > 0 {
        lemma_zeros_le(s, t, n - 1);
    }
}

proof fn lemma_zeros_lt(s: Seq<u8>, t: Seq<u8>, n: int, w: int)
    requires
        n <= s.len(),
        n <= t.len(),
        forall|i: int| 0 <= i < n && (#[trigger] t[i]) == 0 ==> s[i] == 0,
        0 <= w < n,
        s[w] == 0,
        t[w] != 0,
    ensures
        zeros_before(t, n) < zeros_before(s, n),
    decreases n,
{
    if w == n - 1 {
        lemma_zeros_le(s, t, n - 1);
    } else {
        lemma_zeros_lt(s, t, n - 1, w);
    }
}

// ---------------------------------------------------------------------------
// The three-color depth-first search
// ---------------------------------------------------------------------------
// Colors: 0 = unvisited, 1 = in progress, 2 = done.
/// The finished part of the search: `order` lists exactly the done nodes,
/// each once, each after all of its dependencies.
spec fn search_inv(g: Seq<Seq<usize>>, colors: Seq<u8>, order: Seq<usize>) -> bool {
    &&& colors.len() == g.len()
    &&& forall|u: int| 0 <= u < colors.len() ==> (#[trigger] colors[u]) <= 2
    &&& forall|q: int|
        0 <= q < order.len() ==> (#[trigger] order[q]) < g.len() && colors[order[q] as int] == 2
    &&& forall|v: int| 0 <= v < g.len() && (#[trigger] colors[v]) == 2 ==> node_listed(order, v)
    &&& forall|q1: int, q2: int|
        0 <= q1 < q2 < order.len() ==> (#[trigger] order[q1]) != (#[trigger] order[q2])
    &&& deps_first(g, order)
}

/// The in-progress nodes form a chain of edges; `gray` lists them in the
/// order the search entered them.
spec fn gray_inv(g: Seq<Seq<usize>>, colors: Seq<u8>, gray: Seq<int>) -> bool {
    &&& forall|k: int|
        0 <= k < gray.len() ==> 0 <= (#[trigger] gray[k]) < g.len() && colors[gray[k]] == 1
    &&& forall|v: int| 0 <= v < colors.len() && (#[trigger] colors[v]) == 1 ==> gray.contains(v)
    &&& forall|k: int| 0 <= k < gray.len() - 1 ==> has_edge(g, #[trigger] gray[k], gray[k + 1])
}

/// Visit `v`: mark it in progress, search its dependencies, then append it
/// to the order.  Returns the closing edge of a cycle if one is found.
#[verifier::rlimit(80)]
#[verifier::loop_isolation(false)]
fn dfs_visit(
    g: &Vec<Vec<usize>>,
    v: usize,
    colors: &mut Vec<u8>,
    order: &mut Vec<usize>,
    gray: Ghost<Seq<int>>,
) -> (r: Option<(usize, usize)>)
    requires
        graph_wf(adj_view(g)),
        search_inv(adj_view(g), old(colors)@, old(order)@),
        gray_inv(adj_view(g), old(colors)@, gray@),
        v < g@.len(),
        old(colors)@[v as int] == 0,
        gray@.len() > 0 ==> has_edge(adj_view(g), gray@.last(), v as int),
    ensures
        r is None ==> {
            &&& final(colors)@.len() == old(colors)@.len()
            &&& search_inv(adj_view(g), final(colors)@, final(order)@)
            &&& gray_inv(adj_view(g), final(colors)@, gray@)
            &&& forall|u: int|
                0 <= u < old(colors)@.len() ==> ((#[trigger] old(colors)@[u]) == 1 <==> final(
                    colors)@[u] == 1)
            &&& forall|u: int|
                0 <= u < old(colors)@.len() && (#[trigger] final(colors)@[u]) == 0 ==> old(
                    colors)@[u] == 0
            &&& forall|u: int|
                0 <= u < old(colors)@.len() && (#[trigger] old(colors)@[u]) == 2 ==> final(
                    colors)@[u] == 2
            &&& final(colors)@[v as int] == 2
        },
        r matches Some(e) ==> has_edge(adj_view(g), e.0 as int, e.1 as int) && !acyclic(
            adj_view(g),
        ),
    decreases zeros_before(old(colors)@, old(colors)@.len() as int),
{
    let ghost gs = adj_view(g);
    let ghost n = g@.len() as int;
    let ghost entry_colors = colors@;
    colors[v] = 1;
    let ghost gray_cur = gray@.push(v as int);
    proof {
        assert(gray_inv(gs, colors@, gray_cur)) by {
            assert(forall|k: int|
                0 <= k < gray@.len() ==> gray_cur[k] == gray@[k] && 0 <= (#[trigger] gray@[k])
                    < n);
            assert(gray_cur[gray_cur.len() - 1] == v as int);
            assert forall|u: int| 0 <= u < colors@.len() && (#[trigger] colors@[u]) == 1 implies gray_cur.contains(
                u,
            ) by {
                if u == v as int {
                    assert(gray_cur[gray_cur.len() - 1] == u);
                } else {
                    assert(entry_colors[u] == 1);
                    let k = choose|k: int| 0 <= k < gray@.len() && gray@[k] == u;
                    assert(gray_cur[k] == u);
                }
            }
        }
    }
    let deps = &g[v];
    let ghost dep_count = deps@.len() as int;
    let mut j: usize = 0;
    while j < deps.len()
        invariant
            graph_wf(gs),
            gs == adj_view(g),
            n == g@.len(),
            v < n,
            deps@ == g@[v as int]@,
            dep_count == deps@.len(),
            0 <= j <= dep_count,
            colors@.len() == n,
            search_inv(gs, colors@, order@),
            gray_inv(gs, colors@, gray_cur),
            gray_cur == gray@.push(v as int),
            gray_inv(gs, entry_colors, gray@),
            entry_colors.len() == n,
            entry_colors[v as int] == 0,
            colors@[v as int] == 1,
            forall|u: int|
                0 <= u < n ==> ((#[trigger] entry_colors[u]) == 1 || u == v as int <==> colors@[u]
                    == 1),
            forall|u: int|
                0 <= u < n && (#[trigger] colors@[u]) == 0 ==> entry_colors[u] == 0,
            forall|u: int|
                0 <= u < n && (#[trigger] entry_colors[u]) == 2 ==> colors@[u] == 2,
            forall|k: int| 0 <= k < j ==> colors@[(#[trigger] deps@[k]) as int] == 2,
        decreases dep_count - j,
    {
        let d = deps[j];
        proof {
            assert(has_edge(gs, v as int, d as int)) by {
                assert(gs[v as int][j as int] == d);
            }
            assert(d < n);
        }
        let c = colors[d];
        if c == 1 {
            // `d` is on the current search path: the path from `d` onward,
            // closed by the edge `v -> d`, is a cycle.
            proof {
                assert(gray_cur.contains(d as int));
                let k0 = choose|k0: int| 0 <= k0 < gray_cur.len() && gray_cur[k0] == d as int;
                let p = gray_cur.subrange(k0, gray_cur.len() as int) + seq![d as int];
                assert(p.first() == d as int);
                assert(p.last() == d as int);
                assert(p.len() >= 2);
                assert forall|k: int| 0 <= k < p.len() - 1 implies has_edge(
                    gs,
                    #[trigger] p[k],
                    p[k + 1],
                ) by {
                    if k < p.len() - 2 {
                        assert(p[k] == gray_cur[k0 + k] && p[k + 1] == gray_cur[k0 + k + 1]);
                    } else {
                        assert(p[k] == gray_cur[gray_cur.len() - 1]);
                        assert(p[k] == v as int);
                        assert(p[k + 1] == d as int);
                    }
                }
                assert(is_cycle(gs, p));
            }
            return Some((v, d));
        }
        if c == 0 {
            proof {
                lemma_zeros_lt(entry_colors, colors@, n, v as int);
            }
            let ghost before_call = colors@;
            let rec = dfs_visit(g, d, colors, order, Ghost(gray_cur));
            match rec {
                Some(e) => {
                    return Some(e);
                },
                None => {
                    proof {
                        assert(colors@[d as int] == 2);
                        assert forall|u: int|
                            0 <= u < n implies ((#[trigger] entry_colors[u]) == 1 || u == v as int
                            <==> colors@[u] == 1) by {
                            assert(before_call[u] == 1 <==> colors@[u] == 1);
                        }
                        assert forall|k: int| 0 <= k <= j implies colors@[(
                        #[trigger] deps@[k]) as int] == 2 by {
                            if k < j {
                                assert(before_call[deps@[k] as int] == 2);
                            }
                        }
                    }
                },
            }
        } else {
            proof {
                assert(colors@[d as int] == 2);
            }
        }
        j = j + 1;
    }
    // All dependencies are done: finish `v`.
    let ghost pre_finish = colors@;
    let ghost pre_order = order@;
    colors[v] = 2;
    order.push(v);
    proof {
        assert(search_inv(gs, colors@, order@)) by {
            assert forall|q: int|
                0 <= q < order@.len() implies (#[trigger] order@[q]) < gs.len() && colors@[order@[q] as int]
                == 2 by {
                if q < pre_order.len() {
                    assert(order@[q] == pre_order[q]);
                    assert(pre_finish[pre_order[q] as int] == 2);
                } else {
                    assert(order@[q] == v);
                }
            }
            assert forall|u: int|
                0 <= u < gs.len() && (#[trigger] colors@[u]) == 2 implies node_listed(
                order@,
                u,
            ) by {
                if u == v as int {
                    assert(order@[order@.len() - 1] == u);
                } else {
                    assert(pre_finish[u] == 2);
                    assert(node_listed(pre_order, u));
                    let q = choose|q: int| 0 <= q < pre_order.len() && pre_order[q] == u;
                    assert(order@[q] == u);
                }
            }
            assert forall|q1: int, q2: int| 0 <= q1 < q2 < order@.len() implies (
            #[trigger] order@[q1]) != (#[trigger] order@[q2]) by {
                if q2 == order@.len() - 1 {
                    assert(order@[q1] == pre_order[q1]);
                    assert(pre_finish[pre_order[q1] as int] == 2);
                    assert(pre_finish[v as int] == 1);
                } else {
                    assert(order@[q1] == pre_order[q1] && order@[q2] == pre_order[q2]);
                }
            }
            assert forall|q: int, b: int|
                0 <= q < order@.len() && #[trigger] has_edge(gs, order@[q] as int, b) implies exists|
                q2: int,
            | 0 <= q2 < q && order@[q2] == b by {
                if q < pre_order.len() {
                    assert(order@[q] == pre_order[q]);
                    assert(has_edge(gs, pre_order[q] as int, b));
                    let q2 = choose|q2: int| 0 <= q2 < q && pre_order[q2] == b;
                    assert(order@[q2] == b);
                } else {
                    assert(order@[q] == v);
                    let jj = choose|jj: int| 0 <= jj < gs[v as int].len() && gs[v as int][jj] == b;
                    assert(deps@[jj] == b);
                    assert(pre_finish[b] == 2);
                    assert(b != v as int);
                    assert(colors@[b] == 2);
                    assert(node_listed(pre_order, b));
                    let q2 = choose|q2: int| 0 <= q2 < pre_order.len() && pre_order[q2] == b;
                    assert(order@[q2] == b);
                }
            }
        }
        assert(gray_inv(gs, colors@, gray@)) by {
            assert forall|k: int|
                0 <= k < gray@.len() implies 0 <= (#[trigger] gray@[k]) < gs.len()
                && colors@[gray@[k]] == 1 by {
                assert(entry_colors[gray@[k]] == 1);
                assert(gray@[k] != v as int);
                assert(pre_finish[gray@[k]] == 1);
            }
            assert forall|u: int|
                0 <= u < colors@.len() && (#[trigger] colors@[u]) == 1 implies gray@.contains(
                u,
            ) by {
                assert(u != v as int);
                assert(pre_finish[u] == 1);
                assert(entry_colors[u] == 1);
            }
        }
    }
    None
}

/// Search the whole graph.  `Ok` carries a dependency-first order of all
/// nodes; `Err` carries the edge that closes a cycle.
pub fn sort_graph(g: &Vec<Vec<usize>>) -> (r: Result<Vec<usize>, (usize, usize)>)
    requires
        graph_wf(adj_view(g)),
    ensures
        r matches Ok(order) ==> order@.len() == g@.len() && lists_each_node_once(
            order@,
            g@.len(),
        ) && deps_first(adj_view(g), order@) && acyclic(adj_view(g)),
        r matches Err(e) ==> has_edge(adj_view(g), e.0 as int, e.1 as int) && !acyclic(
            adj_view(g),
        ),
        r is Ok <==> acyclic(adj_view(g)),
{
    let ghost gs = adj_view(g);
    let n = g.len();
    let mut colors: Vec<u8> = Vec::new();
    let mut k: usize = 0;
    while k < n
        invariant
            0 <= k <= n,
            colors@.len() == k,
            forall|u: int| 0 <= u < k ==> (#[trigger] colors@[u]) == 0,
        decreases n - k,
    {
        colors.push(0);
        k = k + 1;
    }
    let mut order: Vec<usize> = Vec::new();
    let mut v: usize = 0;
    while v < n
        invariant
            graph_wf(gs),
            gs == adj_view(g),
            n == g@.len(),
            0 <= v <= n,
            colors@.len() == n,
            search_inv(gs, colors@, order@),
            forall|u: int| 0 <= u < n ==> (#[trigger] colors@[u]) != 1,
            forall|u: int| 0 <= u < v ==> (#[trigger] colors@[u]) == 2,
        decreases n - v,
    {
        if colors[v] == 0 {
            proof {
                assert(gray_inv(gs, colors@, Seq::<int>::empty()));
            }
            let rec = dfs_visit(g, v, &mut colors, &mut order, Ghost(Seq::empty()));
            match rec {
                Some(e) => {
                    return Err(e);
                },
                None => {
                    proof {
                        assert forall|u: int| 0 <= u < n implies (#[trigger] colors@[u]) != 1 by {
                            assert(!Seq::<int>::empty().contains(u));
                        }
                    }
                },
            }
        }
        v = v + 1;
    }
    proof {
        assert forall|u: int| 0 <= u < n implies #[trigger] node_listed(order@, u) by {
            assert(colors@[u] == 2);
        }
        assert(lists_each_node_once(order@, g@.len()));
        lemma_full_order_len(order@, g@.len() as nat);
        lemma_order_implies_acyclic(gs, order@);
    }
    Ok(order)
}

} // verus!
