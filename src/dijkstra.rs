//! Shortest paths over a weighted directed graph of numbered nodes.
use vstd::prelude::*;

verus! {

/// An edge toward node `node`, costing `cost` to take.
#[derive(Debug, Clone, Copy, PartialEq, Eq, Structural)]
pub struct Edge {
    pub node: usize,
    pub cost: usize,
}

/// The edge lists of a graph held as vectors.
pub open spec fn view_graph(g: Seq<Vec<Edge>>) -> Seq<Seq<Edge>> {
    g.map_values(|v: Vec<Edge>| v@)
}

/// Every edge of the graph leads to a node of the graph.
pub open spec fn graph_wf(g: Seq<Seq<Edge>>) -> bool {
    forall|a: int, j: int| 0 <= a < g.len() && 0 <= j < g[a].len() ==> #[trigger] g[a][j].node < g.len()
}

/// The graph holds an edge from `a` to `b`.
pub open spec fn has_edge(g: Seq<Seq<Edge>>, a: int, b: int) -> bool {
    0 <= a < g.len() && exists|j: int| 0 <= j < g[a].len() && #[trigger] g[a][j].node == b
}

/// `w` is a walk: a nonempty sequence of nodes, each linked to the next by an edge.
pub open spec fn is_walk(g: Seq<Seq<Edge>>, w: Seq<int>) -> bool {
    &&& w.len() >= 1
    &&& forall|i: int| 0 <= i < w.len() - 1 ==> #[trigger] has_edge(g, w[i], w[i + 1])
}

/// Some walk leads from `s` to `t`.
pub open spec fn reachable(g: Seq<Seq<Edge>>, s: int, t: int) -> bool {
    exists|w: Seq<int>| is_walk(g, w) && w[0] == s && #[trigger] w.last() == t
}

/// `a`, or the largest `usize` when it is larger.
pub open spec fn capped(a: int) -> int {
    if a > usize::MAX {
        usize::MAX as int
    } else {
        a
    }
}

/// `w` is a route: nodes of the graph, each left for the next by the edge
/// `e[i]` out of `w[i]`.
pub open spec fn is_route(g: Seq<Seq<Edge>>, w: Seq<int>, e: Seq<int>) -> bool {
    &&& w.len() >= 1
    &&& e.len() == w.len() - 1
    &&& forall|i: int| 0 <= i < w.len() ==> 0 <= #[trigger] w[i] < g.len()
    &&& forall|i: int| 0 <= i < e.len() ==> 0 <= #[trigger] e[i] < g[w[i]].len() && g[w[i]][e[i]].node == w[i + 1]
}

/// The cost of a route: its edges' costs added up, capped at the largest `usize`.
pub open spec fn route_cost(g: Seq<Seq<Edge>>, w: Seq<int>, e: Seq<int>) -> int
    decreases e.len(),
{
    if e.len() == 0 {
        0
    } else {
        capped(route_cost(g, w.drop_last(), e.drop_last()) + g[w[e.len() - 1]][e.last()].cost)
    }
}

/// No route from `s` to `t` costs less than `d`.
pub open spec fn no_cheaper(g: Seq<Seq<Edge>>, s: int, t: int, d: int) -> bool {
    forall|w: Seq<int>, e: Seq<int>|
        is_route(g, w, e) && w[0] == s && w.last() == t ==> d <= #[trigger] route_cost(g, w, e)
}

proof fn lemma_route_cost_range(g: Seq<Seq<Edge>>, w: Seq<int>, e: Seq<int>)
    ensures
        0 <= route_cost(g, w, e) <= usize::MAX,
    decreases e.len(),
{
    if e.len() > 0 {
        lemma_route_cost_range(g, w.drop_last(), e.drop_last());
    }
}

/// A route's prefixes are routes, costing no more than it.
proof fn lemma_prefix(g: Seq<Seq<Edge>>, w: Seq<int>, e: Seq<int>, m: int)
    requires
        is_route(g, w, e),
        1 <= m <= w.len(),
    ensures
        is_route(g, w.take(m), e.take(m - 1)),
        route_cost(g, w.take(m), e.take(m - 1)) <= route_cost(g, w, e),
    decreases w.len() - m,
{
    let wm = w.take(m);
    let em = e.take(m - 1);
    assert forall|i: int| 0 <= i < em.len() implies 0 <= #[trigger] em[i] < g[wm[i]].len() && g[wm[i]][em[i]].node == wm[i + 1] by {
        assert(em[i] == e[i] && wm[i] == w[i] && wm[i + 1] == w[i + 1]);
    }
    assert forall|i: int| 0 <= i < wm.len() implies 0 <= #[trigger] wm[i] < g.len() by {
        assert(wm[i] == w[i]);
    }
    if m == w.len() {
        assert(wm =~= w);
        assert(em =~= e);
    } else {
        let wd = w.drop_last();
        let ed = e.drop_last();
        assert forall|i: int| 0 <= i < ed.len() implies 0 <= #[trigger] ed[i] < g[wd[i]].len() && g[wd[i]][ed[i]].node == wd[i + 1] by {
            assert(ed[i] == e[i] && wd[i] == w[i] && wd[i + 1] == w[i + 1]);
        }
        assert forall|i: int| 0 <= i < wd.len() implies 0 <= #[trigger] wd[i] < g.len() by {
            assert(wd[i] == w[i]);
        }
        lemma_prefix(g, wd, ed, m);
        assert(wd.take(m) =~= wm);
        assert(ed.take(m - 1) =~= em);
        lemma_route_cost_range(g, wd, ed);
    }
}

/// The first position of `w` at or after `from` whose node is not settled.
proof fn first_unsettled(visited: Seq<bool>, w: Seq<int>, from: int) -> (k: int)
    requires
        0 <= from < w.len(),
        forall|i: int| 0 <= i < w.len() ==> 0 <= #[trigger] w[i] < visited.len(),
        !visited[w.last()],
        forall|j: int| 0 <= j < from ==> visited[#[trigger] w[j]],
    ensures
        from <= k < w.len(),
        !visited[w[k]],
        forall|j: int| 0 <= j < k ==> visited[#[trigger] w[j]],
    decreases w.len() - from,
{
    if !visited[w[from]] {
        from
    } else {
        first_unsettled(visited, w, from + 1)
    }
}

/// Every settled node's distance is that of a cheapest route to it.
pub open spec fn settled_ok(g: Seq<Seq<Edge>>, dist: Seq<Option<usize>>, visited: Seq<bool>, start: int) -> bool {
    forall|v: int| 0 <= v < g.len() && #[trigger] visited[v] ==> dist[v] is Some && no_cheaper(g, start, v, dist[v]->0 as int)
}

/// Edge `j` out of node `x` has been relaxed: an unsettled node it leads to
/// has a distance no larger than the edge offers.
pub open spec fn relaxed(g: Seq<Seq<Edge>>, dist: Seq<Option<usize>>, visited: Seq<bool>, x: int, j: int) -> bool {
    let y = g[x][j].node as int;
    !visited[y] ==> dist[y] is Some && dist[x] is Some && dist[y]->0 <= capped(dist[x]->0 + g[x][j].cost)
}

/// Every predecessor gives its node's distance through one of its edges.
pub open spec fn tree_ok(g: Seq<Seq<Edge>>, dist: Seq<Option<usize>>, came_from: Seq<Option<usize>>) -> bool {
    forall|v: int|
        0 <= v < came_from.len() && #[trigger] came_from[v] is Some ==> {
            let u = came_from[v]->0 as int;
            &&& dist[u] is Some
            &&& dist[v] is Some
            &&& exists|j: int|
                0 <= j < g[u].len() && #[trigger] g[u][j].node == v && dist[v]->0 == capped(dist[u]->0 + g[u][j].cost)
        }
}

/// The unsettled node `u` with the least distance has no cheaper route.
proof fn lemma_settle(
    g: Seq<Seq<Edge>>,
    dist: Seq<Option<usize>>,
    visited: Seq<bool>,
    start: int,
    u: int,
    w: Seq<int>,
    e: Seq<int>,
)
    requires
        graph_wf(g),
        dist.len() == g.len(),
        visited.len() == g.len(),
        0 <= start < g.len(),
        dist[start] == Some(0usize),
        is_route(g, w, e),
        w[0] == start,
        w.last() == u,
        0 <= u < g.len(),
        !visited[u],
        dist[u] is Some,
        forall|v: int| 0 <= v < g.len() && !visited[v] && #[trigger] dist[v] is Some ==> dist[u]->0 <= dist[v]->0,
        settled_ok(g, dist, visited, start),
        forall|x: int, j: int| 0 <= x < g.len() && visited[x] && 0 <= j < g[x].len() ==> #[trigger] relaxed(g, dist, visited, x, j),
    ensures
        dist[u]->0 <= route_cost(g, w, e),
{
    let k = first_unsettled(visited, w, 0);
    lemma_route_cost_range(g, w, e);
    if k > 0 {
        let x = w[k - 1];
        assert(visited[x]);
        lemma_prefix(g, w, e, k);
        lemma_prefix(g, w, e, k + 1);
        let wk = w.take(k);
        let ek = e.take(k - 1);
        assert(wk[0] == start && wk.last() == x);
        assert(dist[x]->0 <= route_cost(g, wk, ek));
        let j = e[k - 1];
        assert(g[x][j].node == w[k]);
        assert(relaxed(g, dist, visited, x, j));
        let w1 = w.take(k + 1);
        let e1 = e.take(k);
        assert(w1.drop_last() =~= wk);
        assert(e1.drop_last() =~= ek);
        assert(route_cost(g, w1, e1) == capped(route_cost(g, wk, ek) + g[x][j].cost));
    } else {
        assert(w[0] == start);
    }
}

/// Number of entries not yet set.
pub open spec fn unset_count(v: Seq<bool>) -> nat
    decreases v.len(),
{
    if v.len() == 0 {
        0
    } else {
        unset_count(v.drop_last()) + if v.last() {
            0nat
        } else {
            1nat
        }
    }
}

proof fn lemma_unset_count_set(v: Seq<bool>, i: int)
    requires
        0 <= i < v.len(),
        !v[i],
    ensures
        unset_count(v.update(i, true)) + 1 == unset_count(v),
    decreases v.len(),
{
    let u = v.update(i, true);
    if i == v.len() - 1 {
        assert(u.drop_last() =~= v.drop_last());
    } else {
        assert(u.drop_last() =~= v.drop_last().update(i, true));
        lemma_unset_count_set(v.drop_last(), i);
    }
}

proof fn lemma_unset_count_positive(v: Seq<bool>, i: int)
    requires
        0 <= i < v.len(),
        !v[i],
    ensures
        unset_count(v) > 0,
    decreases v.len(),
{
    if i < v.len() - 1 {
        lemma_unset_count_positive(v.drop_last(), i);
    }
}

proof fn lemma_unset_count_all(n: nat)
    ensures
        unset_count(Seq::new(n, |_i: int| false)) == n,
    decreases n,
{
    if n > 0 {
        assert(Seq::new(n, |_i: int| false).drop_last() =~= Seq::new((n - 1) as nat, |_i: int| false));
        lemma_unset_count_all((n - 1) as nat);
    }
}

proof fn lemma_extend_walk(g: Seq<Seq<Edge>>, s: int, a: int, b: int)
    requires
        reachable(g, s, a),
        has_edge(g, a, b),
    ensures
        reachable(g, s, b),
{
    let w = choose|w: Seq<int>| is_walk(g, w) && w[0] == s && #[trigger] w.last() == a;
    let w2 = w.push(b);
    assert forall|i: int| 0 <= i < w2.len() - 1 implies #[trigger] has_edge(g, w2[i], w2[i + 1]) by {
        if i < w.len() - 1 {
            assert(has_edge(g, w[i], w[i + 1]));
        }
    }
    assert(w2.last() == b);
}

proof fn lemma_closed_along_walk(g: Seq<Seq<Edge>>, dist: Seq<Option<usize>>, w: Seq<int>, k: int)
    requires
        dist.len() == g.len(),
        graph_wf(g),
        is_walk(g, w),
        0 <= k < w.len(),
        0 <= w[0] < g.len(),
        dist[w[0]] is Some,
        forall|a: int, b: int| 0 <= a < g.len() && dist[a] is Some && #[trigger] has_edge(g, a, b) ==> dist[b] is Some,
    ensures
        0 <= w[k] < g.len() && dist[w[k]] is Some,
    decreases k,
{
    if k > 0 {
        lemma_closed_along_walk(g, dist, w, k - 1);
        let i = k - 1;
        assert(has_edge(g, w[i], w[i + 1]));
        let j = choose|j: int| 0 <= j < g[w[i]].len() && #[trigger] g[w[i]][j].node == w[i + 1];
        assert(g[w[i]][j].node < g.len());
    }
}

/// Every recorded predecessor is linked to its node by an edge.
pub open spec fn came_from_wf(g: Seq<Seq<Edge>>, came_from: Seq<Option<usize>>) -> bool {
    &&& came_from.len() == g.len()
    &&& forall|n: int| 0 <= n < came_from.len() && #[trigger] came_from[n] is Some ==> has_edge(
        g,
        came_from[n]->0 as int,
        n,
    )
}

fn filled<T: Copy>(n: usize, value: T) -> (r: Vec<T>)
    ensures
        r@ == Seq::new(n as nat, |_i: int| value),
{
    let mut r: Vec<T> = Vec::new();
    let mut i: usize = 0;
    while i < n
        invariant
            i <= n,
            r@ == Seq::new(i as nat, |_i: int| value),
        decreases n - i,
    {
        r.push(value);
        i = i + 1;
        assert(r@ =~= Seq::new(i as nat, |_i: int| value));
    }
    r
}

/// Following predecessors from `goal` reaches `start`: along the way each
/// node other than `start` has a predecessor, of lower rank, also on the way.
pub open spec fn chain_ranked(
    came_from: Seq<Option<usize>>,
    start: int,
    goal: int,
    rank: Seq<nat>,
    on: Seq<bool>,
) -> bool {
    &&& rank.len() == came_from.len()
    &&& on.len() == came_from.len()
    &&& 0 <= goal < on.len()
    &&& on[goal]
    &&& forall|m: int|
        0 <= m < on.len() && #[trigger] on[m] ==> {
            &&& rank[m] < came_from.len()
            &&& m != start ==> {
                &&& came_from[m] is Some
                &&& 0 <= came_from[m]->0 < on.len()
                &&& on[came_from[m]->0 as int]
                &&& rank[came_from[m]->0 as int] < rank[m]
            }
        }
}

/// The predecessor chain from `goal` leads back to `start`.
pub open spec fn leads_back(came_from: Seq<Option<usize>>, start: int, goal: int) -> bool {
    exists|rank: Seq<nat>, on: Seq<bool>| chain_ranked(came_from, start, goal, rank, on)
}

/// `d` is a table of distances for `came_from`: `start` is at 0, each
/// recorded predecessor gives its node's distance through one of its edges,
/// and no route to `goal` is cheaper than its distance.
pub open spec fn distances_for(
    g: Seq<Seq<Edge>>,
    came_from: Seq<Option<usize>>,
    start: int,
    goal: int,
    d: Seq<Option<usize>>,
) -> bool {
    &&& d.len() == g.len()
    &&& d[start] == Some(0usize)
    &&& d[goal] is Some
    &&& no_cheaper(g, start, goal, d[goal]->0 as int)
    &&& tree_ok(g, d, came_from)
}

/// Some table of distances fits `came_from` (see [`distances_for`]).
pub open spec fn optimal_tree(g: Seq<Seq<Edge>>, came_from: Seq<Option<usize>>, start: int, goal: int) -> bool {
    exists|d: Seq<Option<usize>>| #[trigger] distances_for(g, came_from, start, goal, d)
}

/// Dijkstra's search from `start`, stopping when `goal` is settled. Returns,
/// for each node, the node it was last reached from, or `None` when no walk
/// leads from `start` to `goal`.
pub fn shortest_path(graph: &Vec<Vec<Edge>>, start: usize, goal: usize) -> (r: Option<Vec<Option<usize>>>)
    requires
        graph_wf(view_graph(graph@)),
        start < graph.len(),
        goal < graph.len(),
    ensures
        r is None <==> !reachable(view_graph(graph@), start as int, goal as int),
        r matches Some(came_from) ==> came_from_wf(view_graph(graph@), came_from@),
        r matches Some(came_from) ==> leads_back(came_from@, start as int, goal as int),
        r matches Some(came_from) ==> optimal_tree(view_graph(graph@), came_from@, start as int, goal as int),
{
    let ghost g = view_graph(graph@);
    let n = graph.len();
    let mut dist: Vec<Option<usize>> = filled(n, None);
    let mut visited: Vec<bool> = filled(n, false);
    let mut came_from: Vec<Option<usize>> = filled(n, None);
    dist.set(start, Some(0));
    let ghost mut rank: Seq<nat> = Seq::new(n as nat, |_i: int| 0nat);
    let ghost mut count: nat = 0;
    proof {
        let w = seq![start as int];
        assert(is_walk(g, w) && w[0] == start && w.last() == start);
        lemma_unset_count_all(n as nat);
    }
    loop
        invariant
            g == view_graph(graph@),
            graph_wf(g),
            n == g.len(),
            start < n,
            goal < n,
            dist@.len() == n,
            visited@.len() == n,
            came_from_wf(g, came_from@),
            dist@[start as int] is Some,
            !visited@[goal as int],
            forall|a: int| 0 <= a < n && #[trigger] dist@[a] is Some ==> reachable(g, start as int, a),
            forall|a: int| 0 <= a < n && #[trigger] visited@[a] ==> dist@[a] is Some,
            forall|a: int, b: int| 0 <= a < n && visited@[a] && #[trigger] has_edge(g, a, b) ==> dist@[b] is Some,
            rank.len() == n,
            count + unset_count(visited@) == n,
            forall|a: int| 0 <= a < n && #[trigger] visited@[a] ==> rank[a] < count,
            forall|m: int| 0 <= m < n && #[trigger] came_from@[m] is Some ==> visited@[came_from@[m]->0 as int],
            forall|m: int|
                0 <= m < n && #[trigger] visited@[m] && came_from@[m] is Some ==> rank[came_from@[m]->0 as int] < rank[m],
            forall|m: int| 0 <= m < n && m != start && #[trigger] dist@[m] is Some ==> came_from@[m] is Some,
            dist@[start as int] == Some(0usize),
            settled_ok(g, dist@, visited@, start as int),
            forall|x: int, j: int| 0 <= x < n && visited@[x] && 0 <= j < g[x].len() ==> #[trigger] relaxed(g, dist@, visited@, x, j),
            tree_ok(g, dist@, came_from@),
        decreases unset_count(visited@),
    {
        let mut best: Option<usize> = None;
        let mut i: usize = 0;
        while i < n
            invariant
                n == dist@.len(),
                n == visited@.len(),
                i <= n,
                best matches Some(b) ==> b < n && !visited@[b as int] && dist@[b as int] is Some,
                best is None ==> forall|k: int| 0 <= k < i ==> visited@[k] || dist@[k] is None,
                best matches Some(b) ==> forall|k: int|
                    0 <= k < i && !visited@[k] && #[trigger] dist@[k] is Some ==> dist@[b as int]->0 <= dist@[k]->0,
            decreases n - i,
        {
            if !visited[i] {
                if let Some(d) = dist[i] {
                    match best {
                        None => {
                            best = Some(i);
                        },
                        Some(b) => {
                            if let Some(db) = dist[b] {
                                if d < db {
                                    best = Some(i);
                                }
                            }
                        },
                    }
                }
            }
            i = i + 1;
        }
        match best {
            None => {
                proof {
                    assert forall|a: int, b: int|
                        0 <= a < g.len() && dist@[a] is Some && #[trigger] has_edge(g, a, b) implies dist@[b] is Some by {
                        assert(visited@[a]);
                    }
                    if reachable(g, start as int, goal as int) {
                        let w = choose|w: Seq<int>| is_walk(g, w) && w[0] == start && #[trigger] w.last() == goal;
                        lemma_closed_along_walk(g, dist@, w, w.len() - 1);
                    }
                }
                return None;
            },
            Some(u) => {
                proof {
                    assert forall|v: int| 0 <= v < g.len() && !visited@[v] && #[trigger] dist@[v] is Some implies dist@[u as int]->0 <= dist@[v]->0 by {}
                    assert forall|w: Seq<int>, e: Seq<int>|
                        is_route(g, w, e) && w[0] == start && w.last() == u implies dist@[u as int]->0 <= #[trigger] route_cost(g, w, e) by {
                        lemma_settle(g, dist@, visited@, start as int, u as int, w, e);
                    }
                }
                if u == goal {
                    proof {
                        lemma_unset_count_positive(visited@, u as int);
                        let on = visited@.update(u as int, true);
                        let rk = rank.update(u as int, count);
                        assert forall|m: int| 0 <= m < on.len() && #[trigger] on[m] implies {
                            &&& rk[m] < came_from@.len()
                            &&& m != start ==> {
                                &&& came_from@[m] is Some
                                &&& 0 <= came_from@[m]->0 < on.len()
                                &&& on[came_from@[m]->0 as int]
                                &&& rk[came_from@[m]->0 as int] < rk[m]
                            }
                        } by {
                            if m != start {
                                assert(dist@[m] is Some);
                                assert(came_from@[m] is Some);
                                assert(has_edge(g, came_from@[m]->0 as int, m));
                            }
                        }
                        assert(chain_ranked(came_from@, start as int, goal as int, rk, on));
                        assert(tree_ok(g, dist@, came_from@));
                        assert(no_cheaper(g, start as int, goal as int, dist@[goal as int]->0 as int));
                        assert(distances_for(g, came_from@, start as int, goal as int, dist@));
                    }
                    return Some(came_from);
                }
                let ghost vis0 = visited@;
                proof {
                    lemma_unset_count_set(visited@, u as int);
                    rank = rank.update(u as int, count);
                    count = count + 1;
                }
                visited.set(u, true);
                proof {
                    assert forall|x: int, j: int|
                        0 <= x < n && visited@[x] && x != u && 0 <= j < g[x].len() implies #[trigger] relaxed(g, dist@, visited@, x, j) by {
                        assert(relaxed(g, dist@, vis0, x, j));
                    }
                    assert forall|v: int| 0 <= v < g.len() && #[trigger] visited@[v] implies dist@[v] is Some && no_cheaper(
                        g,
                        start as int,
                        v,
                        dist@[v]->0 as int,
                    ) by {
                        if v != u {
                            assert(vis0[v]);
                        }
                    }
                }
                let du = match dist[u] {
                    Some(d) => d,
                    None => 0,
                };
                let edges = &graph[u];
                let mut j: usize = 0;
                while j < edges.len()
                    invariant
                        g == view_graph(graph@),
                        graph_wf(g),
                        n == g.len(),
                        u < n,
                        u != goal,
                        edges@ == g[u as int],
                        j <= edges@.len(),
                        start < n,
                        goal < n,
                        dist@.len() == n,
                        visited@.len() == n,
                        visited@[u as int],
                        came_from_wf(g, came_from@),
                        rank.len() == n,
                        count + unset_count(visited@) == n,
                        forall|a: int| 0 <= a < n && #[trigger] visited@[a] ==> rank[a] < count,
                        forall|m: int| 0 <= m < n && #[trigger] came_from@[m] is Some ==> visited@[came_from@[m]->0 as int],
                        forall|m: int|
                            0 <= m < n && #[trigger] visited@[m] && came_from@[m] is Some ==> rank[came_from@[m]->0 as int] < rank[m],
                        forall|m: int| 0 <= m < n && m != start && #[trigger] dist@[m] is Some ==> came_from@[m] is Some,
                        dist@[start as int] is Some,
                        dist@[u as int] is Some,
                        !visited@[goal as int],
                        forall|a: int| 0 <= a < n && #[trigger] dist@[a] is Some ==> reachable(g, start as int, a),
                        forall|a: int| 0 <= a < n && #[trigger] visited@[a] ==> dist@[a] is Some,
                        forall|a: int, b: int| 0 <= a < n && a != u && visited@[a] && #[trigger] has_edge(g, a, b) ==> dist@[b] is Some,
                        forall|k: int| 0 <= k < j ==> #[trigger] dist@[edges@[k].node as int] is Some,
                        du == dist@[u as int]->0,
                        dist@[start as int] == Some(0usize),
                        settled_ok(g, dist@, visited@, start as int),
                        forall|x: int, k: int|
                            0 <= x < n && visited@[x] && x != u && 0 <= k < g[x].len() ==> #[trigger] relaxed(g, dist@, visited@, x, k),
                        forall|k: int| 0 <= k < j ==> #[trigger] relaxed(g, dist@, visited@, u as int, k),
                        tree_ok(g, dist@, came_from@),
                    decreases edges@.len() - j,
                {
                    let e = edges[j];
                    let m = e.node;
                    assert(g[u as int][j as int].node == m);
                    assert(has_edge(g, u as int, m as int));
                    let better = match dist[m] {
                        None => true,
                        Some(dm) => du.saturating_add(e.cost) < dm,
                    };
                    let ghost d0 = dist@;
                    let ghost c0 = came_from@;
                    if !visited[m] && better {
                        proof {
                            lemma_extend_walk(g, start as int, u as int, m as int);
                        }
                        dist.set(m, Some(du.saturating_add(e.cost)));
                        came_from.set(m, Some(u));
                        proof {
                            assert forall|x: int, k: int|
                                0 <= x < n && visited@[x] && x != u && 0 <= k < g[x].len() implies #[trigger] relaxed(g, dist@, visited@, x, k) by {
                                assert(relaxed(g, d0, visited@, x, k));
                            }
                            assert forall|k: int| 0 <= k < j implies #[trigger] relaxed(g, dist@, visited@, u as int, k) by {
                                assert(relaxed(g, d0, visited@, u as int, k));
                            }
                            assert forall|v: int| 0 <= v < g.len() && #[trigger] visited@[v] implies dist@[v] is Some && no_cheaper(
                                g,
                                start as int,
                                v,
                                dist@[v]->0 as int,
                            ) by {
                                assert(d0[v] == dist@[v]);
                            }
                            assert forall|v: int| 0 <= v < came_from@.len() && #[trigger] came_from@[v] is Some implies {
                                let p = came_from@[v]->0 as int;
                                &&& dist@[p] is Some
                                &&& dist@[v] is Some
                                &&& exists|k: int|
                                    0 <= k < g[p].len() && #[trigger] g[p][k].node == v && dist@[v]->0 == capped(dist@[p]->0 + g[p][k].cost)
                            } by {
                                if v == m {
                                    assert(g[u as int][j as int].node == v);
                                } else {
                                    assert(c0[v] is Some);
                                    let p = c0[v]->0 as int;
                                    assert(visited@[p]);
                                    assert(p != m);
                                }
                            }
                            assert(dist@[start as int] == Some(0usize));
                        }
                    }
                    assert(relaxed(g, dist@, visited@, u as int, j as int));
                    j = j + 1;
                }
                proof {
                    assert forall|b: int| #[trigger] has_edge(g, u as int, b) implies dist@[b] is Some by {
                        let k = choose|k: int| 0 <= k < g[u as int].len() && #[trigger] g[u as int][k].node == b;
                        assert(dist@[edges@[k].node as int] is Some);
                    }
                }
            },
        }
    }
}

/// Each node of `p` after the first was reached from the node before it.
pub open spec fn follows(came_from: Seq<Option<usize>>, p: Seq<usize>) -> bool {
    forall|i: int| 0 <= i < p.len() - 1 ==> came_from[#[trigger] p[i + 1] as int] == Some(p[i])
}

/// Every recorded predecessor is a node of the table.
pub open spec fn came_from_closed(came_from: Seq<Option<usize>>) -> bool {
    forall|n: int| 0 <= n < came_from.len() && #[trigger] came_from[n] is Some ==> came_from[n]->0
        < came_from.len()
}

proof fn lemma_chain_shift(came_from: Seq<Option<usize>>, back: Seq<usize>, i: int, j: int, m: int)
    requires
        0 <= i < j,
        0 <= m,
        j + m < back.len(),
        back[i] == back[j],
        forall|k: int| 0 <= k < back.len() - 1 ==> came_from[#[trigger] back[k] as int] == Some(back[k + 1]),
    ensures
        back[i + m] == back[j + m],
    decreases m,
{
    if m > 0 {
        lemma_chain_shift(came_from, back, i, j, m - 1);
        let a = i + m - 1;
        let b = j + m - 1;
        assert(came_from[back[a] as int] == Some(back[a + 1]));
        assert(came_from[back[b] as int] == Some(back[b + 1]));
    }
}

/// A predecessor chain that ends at `start` and meets it nowhere before
/// repeats no node.
proof fn lemma_chain_distinct(came_from: Seq<Option<usize>>, back: Seq<usize>, start: usize)
    requires
        back.len() >= 1,
        back.last() == start,
        forall|k: int| 0 <= k < back.len() - 1 ==> #[trigger] back[k] != start,
        forall|k: int| 0 <= k < back.len() - 1 ==> came_from[#[trigger] back[k] as int] == Some(back[k + 1]),
    ensures
        forall|a: int, b: int| 0 <= a < b < back.len() ==> back[a] != back[b],
{
    assert forall|a: int, b: int| 0 <= a < b < back.len() implies back[a] != back[b] by {
        if back[a] == back[b] {
            let m = back.len() - 1 - b;
            lemma_chain_shift(came_from, back, a, b, m);
            assert(back[a + m] == start);
            assert(back[a + m] != start);
        }
    }
}

/// Follows the predecessors back from `goal` to `start` and returns the nodes
/// in walking order, from `start` to `goal`; `None` when the chain breaks off
/// or runs longer than the table.
pub fn reconstruct_path(came_from: &Vec<Option<usize>>, start: usize, goal: usize) -> (r: Option<Vec<usize>>)
    requires
        came_from_closed(came_from@),
        start < came_from.len(),
        goal < came_from.len(),
    ensures
        r matches Some(p) ==> {
            &&& p@.len() >= 1
            &&& p@[0] == start
            &&& p@.last() == goal
            &&& follows(came_from@, p@)
            &&& forall|k: int| 0 <= k < p@.len() ==> #[trigger] p@[k] < came_from@.len()
            &&& forall|a: int, b: int| 0 <= a < b < p@.len() ==> p@[a] != p@[b]
        },
        leads_back(came_from@, start as int, goal as int) ==> r is Some,
        start == goal ==> (r matches Some(p) && p@.len() == 1),
{
    let ghost chain = choose|c: (Seq<nat>, Seq<bool>)| chain_ranked(came_from@, start as int, goal as int, c.0, c.1);
    proof {
        if leads_back(came_from@, start as int, goal as int) {
            let (rk, on) = choose|rk: Seq<nat>, on: Seq<bool>| chain_ranked(came_from@, start as int, goal as int, rk, on);
            assert(chain_ranked(came_from@, start as int, goal as int, (rk, on).0, (rk, on).1));
        }
    }
    let mut back: Vec<usize> = Vec::new();
    let mut current = goal;
    let mut steps: usize = 0;
    while current != start
        invariant
            leads_back(came_from@, start as int, goal as int) ==> chain_ranked(came_from@, start as int, goal as int, chain.0, chain.1),
            leads_back(came_from@, start as int, goal as int) ==> chain.1[current as int] && chain.0[current as int] + steps <= chain.0[goal as int],
            came_from_closed(came_from@),
            current < came_from.len(),
            back@.len() == steps,
            steps <= came_from.len(),
            forall|k: int| 0 <= k < back@.len() ==> #[trigger] back@[k] < came_from@.len(),
            forall|k: int| 0 <= k < back@.len() ==> #[trigger] back@[k] != start,
            steps > 0 ==> back@[0] == goal,
            steps == 0 ==> current == goal,
            start == goal ==> steps == 0,
            forall|k: int| 0 <= k < back@.len() - 1 ==> came_from@[#[trigger] back@[k] as int] == Some(back@[k + 1]),
            steps > 0 ==> came_from@[back@.last() as int] == Some(current),
        decreases came_from.len() - steps,
    {
        if steps == came_from.len() {
            return None;
        }
        match came_from[current] {
            Some(p) => {
                back.push(current);
                current = p;
            },
            None => {
                return None;
            },
        }
        steps = steps + 1;
    }
    let ghost before = back@;
    back.push(start);
    proof {
        assert forall|k: int| 0 <= k < back@.len() - 1 implies #[trigger] back@[k] != start by {
            assert(back@[k] == before[k]);
        }
        if steps > 0 {
            assert(came_from@[back@[before.len() - 1] as int] == Some(back@[before.len() as int]));
        }
        assert forall|k: int| 0 <= k < back@.len() - 1 implies came_from@[#[trigger] back@[k] as int] == Some(back@[k + 1]) by {
            if k < before.len() - 1 {
                assert(back@[k] == before[k] && back@[k + 1] == before[k + 1]);
            }
        }
        lemma_chain_distinct(came_from@, back@, start);
    }
    let mut path: Vec<usize> = Vec::new();
    let mut i: usize = back.len();
    while i > 0
        invariant
            i <= back@.len(),
            back@.len() >= 1,
            back@.last() == start,
            back@[0] == goal,
            path@.len() == back@.len() - i,
            forall|k: int| 0 <= k < back@.len() ==> #[trigger] back@[k] < came_from@.len(),
            forall|k: int| 0 <= k < path@.len() ==> #[trigger] path@[k] == back@[back@.len() - 1 - k],
            forall|k: int| 0 <= k < back@.len() - 1 ==> came_from@[#[trigger] back@[k] as int] == Some(back@[k + 1]),
        decreases i,
    {
        i = i - 1;
        path.push(back[i]);
    }
    assert forall|a: int, b: int| 0 <= a < b < path@.len() implies path@[a] != path@[b] by {
        assert(path@[a] == back@[back@.len() - 1 - a] && path@[b] == back@[back@.len() - 1 - b]);
    }
    assert forall|k: int| 0 <= k < path@.len() - 1 implies came_from@[#[trigger] path@[k + 1] as int] == Some(path@[k]) by {
        let b = back@.len() - 1 - (k + 1);
        assert(path@[k + 1] == back@[b]);
        assert(path@[k] == back@[b + 1]);
    }
    Some(path)
}

/// Following a distance table's predecessors from `start` gives a route
/// whose cost is the distance of the node it reaches.
pub proof fn lemma_tree_route(
    g: Seq<Seq<Edge>>,
    came_from: Seq<Option<usize>>,
    d: Seq<Option<usize>>,
    start: int,
    p: Seq<int>,
    m: int,
) -> (e: Seq<int>)
    requires
        graph_wf(g),
        g.len() <= usize::MAX,
        came_from.len() == g.len(),
        d.len() == g.len(),
        d[start] == Some(0usize),
        tree_ok(g, d, came_from),
        1 <= m <= p.len(),
        p[0] == start,
        forall|i: int| 0 <= i < p.len() ==> 0 <= #[trigger] p[i] < g.len(),
        forall|i: int| 0 <= i < p.len() - 1 ==> came_from[#[trigger] p[i + 1]] == Some(p[i] as usize),
    ensures
        is_route(g, p.take(m), e),
        d[p[m - 1]] is Some,
        route_cost(g, p.take(m), e) == d[p[m - 1]]->0,
    decreases m,
{
    if m == 1 {
        let e = Seq::<int>::empty();
        let w = p.take(1);
        assert(w[0] == p[0]);
        e
    } else {
        let e0 = lemma_tree_route(g, came_from, d, start, p, m - 1);
        let a = p[m - 2];
        let b = p[m - 1];
        let i = m - 2;
        assert(came_from[p[i + 1]] == Some(p[i] as usize));
        assert(came_from[b] is Some);
        assert(came_from[b]->0 as int == a);
        let j = choose|j: int| 0 <= j < g[a].len() && #[trigger] g[a][j].node == b && d[b]->0 == capped(d[a]->0 + g[a][j].cost);
        let e = e0.push(j);
        let w = p.take(m);
        assert(w.drop_last() =~= p.take(m - 1));
        assert(e.drop_last() =~= e0);
        assert forall|k: int| 0 <= k < e.len() implies 0 <= #[trigger] e[k] < g[w[k]].len() && g[w[k]][e[k]].node == w[k + 1] by {
            if k < e0.len() {
                assert(e[k] == e0[k]);
                assert(w[k] == p.take(m - 1)[k]);
                assert(w[k + 1] == p.take(m - 1)[k + 1]);
            }
        }
        assert forall|k: int| 0 <= k < w.len() implies 0 <= #[trigger] w[k] < g.len() by {
            assert(w[k] == p[k]);
        }
        e
    }
}

} // verus!
