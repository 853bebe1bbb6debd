//! Level-by-level traversal of `Calls` edges, bounded in hops.
use vstd::prelude::*;
use crate::graph::{calls_edge, lemma_callees_in, lemma_callers_in, lemma_neighbors_in, linked, ArborGraph, GraphEdge, NodeId};

verus! {

/// Which way a traversal moves.
#[derive(Clone, Copy, Debug, PartialEq, Eq, Structural)]
pub enum WalkDir {
    /// Backwards along `Calls` edges, from callee to caller.
    Callers,
    /// Forwards along `Calls` edges, from caller to callee.
    Callees,
    /// Along edges of any kind, either way.
    Neighbors,
}

/// One hop of a traversal in direction `dir`.
pub open spec fn step(edges: Seq<GraphEdge>, dir: WalkDir, u: int, v: int) -> bool {
    match dir {
        WalkDir::Callers => calls_edge(edges, v, u),
        WalkDir::Callees => calls_edge(edges, u, v),
        WalkDir::Neighbors => linked(edges, u, v),
    }
}

/// `p` is a walk from `t` to `v` over vertices `0..n`, one hop at a time.
pub open spec fn is_walk(edges: Seq<GraphEdge>, n: int, dir: WalkDir, t: int, v: int, p: Seq<int>) -> bool {
    &&& p.len() >= 1
    &&& p[0] == t
    &&& p[p.len() - 1] == v
    &&& forall|i: int| 0 <= i < p.len() ==> 0 <= #[trigger] p[i] < n
    &&& forall|i: int| 0 <= i < p.len() - 1 ==> step(edges, dir, #[trigger] p[i], p[i + 1])
}

/// `v` is at most `k` hops from `t`, among vertices `0..n`.
pub open spec fn within(edges: Seq<GraphEdge>, n: int, dir: WalkDir, t: int, v: int, k: nat) -> bool {
    exists|p: Seq<int>| #[trigger] is_walk(edges, n, dir, t, v, p) && p.len() <= k + 1
}

/// `v` is exactly `h` hops from `t`: reachable in `h`, not in fewer.
pub open spec fn at_distance(edges: Seq<GraphEdge>, n: int, dir: WalkDir, t: int, v: int, h: nat) -> bool {
    &&& within(edges, n, dir, t, v, h)
    &&& (h == 0 || !within(edges, n, dir, t, v, (h - 1) as nat))
}

/// What a traversal of `limit` levels returns: each vertex other than `t` within
/// `limit` hops, once, with its exact hop count.
pub open spec fn reach_result(
    edges: Seq<GraphEdge>,
    n: int,
    dir: WalkDir,
    t: int,
    limit: nat,
    found: Seq<usize>,
    hops: Seq<usize>,
) -> bool {
    &&& found.len() == hops.len()
    &&& forall|j: int|
        0 <= j < found.len() ==> {
            &&& (#[trigger] found[j]) < n
            &&& found[j] != t
            &&& 1 <= hops[j] <= limit
            &&& at_distance(edges, n, dir, t, found[j] as int, hops[j] as nat)
        }
    &&& forall|i: int, j: int| 0 <= i < j < found.len() ==> found[i] != found[j]
    &&& forall|i: int, j: int| 0 <= i < j < found.len() ==> hops[i] <= hops[j]
    &&& forall|v: int|
        0 <= v < n && v != t && #[trigger] within(edges, n, dir, t, v, limit) ==> found.contains(v as usize)
}

proof fn lemma_within_mono(edges: Seq<GraphEdge>, n: int, dir: WalkDir, t: int, v: int, a: nat, b: nat)
    requires
        a <= b,
        within(edges, n, dir, t, v, a),
    ensures
        within(edges, n, dir, t, v, b),
{
    let p = choose|p: Seq<int>| #[trigger] is_walk(edges, n, dir, t, v, p) && p.len() <= a + 1;
    assert(is_walk(edges, n, dir, t, v, p) && p.len() <= b + 1);
}

proof fn lemma_within_zero(edges: Seq<GraphEdge>, n: int, dir: WalkDir, t: int, v: int)
    requires
        0 <= t < n,
    ensures
        within(edges, n, dir, t, v, 0) == (v == t),
{
    if v == t {
        let p = seq![t];
        assert(is_walk(edges, n, dir, t, v, p));
    }
    if within(edges, n, dir, t, v, 0) {
        let p = choose|p: Seq<int>| #[trigger] is_walk(edges, n, dir, t, v, p) && p.len() <= 1;
        assert(p[0] == t);
    }
}

proof fn lemma_within_step(edges: Seq<GraphEdge>, n: int, dir: WalkDir, t: int, u: int, v: int, k: nat)
    requires
        0 <= v < n,
        within(edges, n, dir, t, u, k),
        step(edges, dir, u, v),
    ensures
        within(edges, n, dir, t, v, k + 1),
{
    let p = choose|p: Seq<int>| #[trigger] is_walk(edges, n, dir, t, u, p) && p.len() <= k + 1;
    let q = p.push(v);
    assert forall|i: int| 0 <= i < q.len() - 1 implies step(edges, dir, #[trigger] q[i], q[i + 1]) by {
        if i < p.len() - 1 {
            assert(q[i] == p[i] && q[i + 1] == p[i + 1]);
        } else {
            assert(q[i] == u);
        }
    }
    assert forall|i: int| 0 <= i < q.len() implies 0 <= #[trigger] q[i] < n by {
        if i < p.len() {
            assert(q[i] == p[i]);
        }
    }
    assert(is_walk(edges, n, dir, t, v, q));
}

proof fn lemma_within_unfold(edges: Seq<GraphEdge>, n: int, dir: WalkDir, t: int, v: int, k: nat)
    requires
        within(edges, n, dir, t, v, k + 1),
        !within(edges, n, dir, t, v, k),
    ensures
        exists|u: int| 0 <= u < n && #[trigger] within(edges, n, dir, t, u, k) && step(edges, dir, u, v),
{
    let p = choose|p: Seq<int>| #[trigger] is_walk(edges, n, dir, t, v, p) && p.len() <= k + 2;
    if p.len() <= k + 1 {
        assert(within(edges, n, dir, t, v, k));
    }
    let u = p[p.len() - 2];
    let q = p.drop_last();
    assert forall|i: int| 0 <= i < q.len() - 1 implies step(edges, dir, #[trigger] q[i], q[i + 1]) by {
        assert(q[i] == p[i] && q[i + 1] == p[i + 1]);
    }
    assert forall|i: int| 0 <= i < q.len() implies 0 <= #[trigger] q[i] < n by {
        assert(q[i] == p[i]);
    }
    assert(is_walk(edges, n, dir, t, u, q));
    assert(step(edges, dir, p[p.len() - 2], p[p.len() - 1]));
    assert(0 <= u < n && within(edges, n, dir, t, u, k) && step(edges, dir, u, v));
}

/// Reaching within `a` hops means reaching within any `b >= a`.
pub proof fn lemma_within_mono_pub(edges: Seq<GraphEdge>, n: int, dir: WalkDir, t: int, v: int, a: nat, b: nat)
    requires
        a <= b,
        within(edges, n, dir, t, v, a),
    ensures
        within(edges, n, dir, t, v, b),
{
    lemma_within_mono(edges, n, dir, t, v, a, b);
}

/// Within zero hops lies the start alone.
pub proof fn lemma_within_zero_pub(edges: Seq<GraphEdge>, n: int, dir: WalkDir, t: int, v: int)
    requires
        0 <= t < n,
    ensures
        within(edges, n, dir, t, v, 0) == (v == t),
{
    lemma_within_zero(edges, n, dir, t, v);
}

impl ArborGraph {
    /// The vertices one hop from `u` in direction `dir`.
    fn step_list(&self, u: NodeId, dir: WalkDir) -> (r: Vec<NodeId>)
        requires
            self.wf(),
            u.index < self.nodes_view().len(),
        ensures
            forall|j: int| 0 <= j < r@.len() ==> (#[trigger] r@[j]).index < self.nodes_view().len()
                && step(self.edges_view(), dir, u.index as int, r@[j].index as int),
            forall|v: int| 0 <= v < self.nodes_view().len() && step(self.edges_view(), dir, u.index as int, v)
                ==> exists|j: int| 0 <= j < r@.len() && (#[trigger] r@[j]).index == v,
    {
        let r = match dir {
            WalkDir::Callers => self.callers_of(u),
            WalkDir::Callees => self.callees_of(u),
            WalkDir::Neighbors => self.neighbors_of(u),
        };
        proof {
            let edges = self.edges_view();
            if dir == WalkDir::Neighbors {
                lemma_neighbors_in(edges, u.index);
                crate::graph::lemma_neighbors_bounded(edges, u.index, self.nodes_view().len() as int);
                assert forall|v: int| 0 <= v < self.nodes_view().len() && step(edges, dir, u.index as int, v)
                    implies exists|j: int| 0 <= j < r@.len() && (#[trigger] r@[j]).index == v by {
                    let j = choose|j: int| 0 <= j < crate::graph::neighbors_in(edges, u.index).len() && #[trigger] crate::graph::neighbors_in(edges, u.index)[j] as int == v;
                    assert(r@[j].index == v);
                }
                assert forall|j: int| 0 <= j < r@.len() implies (#[trigger] r@[j]).index < self.nodes_view().len()
                    && step(edges, dir, u.index as int, r@[j].index as int) by {
                    assert(linked(edges, u.index as int, crate::graph::neighbors_in(edges, u.index)[j] as int));
                }
            } else if dir == WalkDir::Callers {
                lemma_callers_in(edges, u.index);
                assert forall|v: int| 0 <= v < self.nodes_view().len() && step(edges, dir, u.index as int, v)
                    implies exists|j: int| 0 <= j < r@.len() && (#[trigger] r@[j]).index == v by {
                    let e = choose|e: int| 0 <= e < edges.len() && #[trigger] edges[e].from.index == v && edges[e].to.index == u.index && crate::graph::is_call(edges[e]);
                    assert(crate::graph::callers_in(edges, u.index).contains(edges[e].from.index));
                    let j = choose|j: int| 0 <= j < crate::graph::callers_in(edges, u.index).len() && crate::graph::callers_in(edges, u.index)[j] == edges[e].from.index;
                    assert(r@[j].index == v);
                }
                assert forall|j: int| 0 <= j < r@.len() implies (#[trigger] r@[j]).index < self.nodes_view().len()
                    && step(edges, dir, u.index as int, r@[j].index as int) by {
                    assert(calls_edge(edges, crate::graph::callers_in(edges, u.index)[j] as int, u.index as int));
                    let e = choose|e: int| 0 <= e < edges.len() && #[trigger] edges[e].from.index == r@[j].index && edges[e].to.index == u.index && crate::graph::is_call(edges[e]);
                }
            } else {
                lemma_callees_in(edges, u.index);
                assert forall|v: int| 0 <= v < self.nodes_view().len() && step(edges, dir, u.index as int, v)
                    implies exists|j: int| 0 <= j < r@.len() && (#[trigger] r@[j]).index == v by {
                    let e = choose|e: int| 0 <= e < edges.len() && #[trigger] edges[e].from.index == u.index && edges[e].to.index == v && crate::graph::is_call(edges[e]);
                    assert(crate::graph::callees_in(edges, u.index).contains(edges[e].to.index));
                    let j = choose|j: int| 0 <= j < crate::graph::callees_in(edges, u.index).len() && crate::graph::callees_in(edges, u.index)[j] == edges[e].to.index;
                    assert(r@[j].index == v);
                }
                assert forall|j: int| 0 <= j < r@.len() implies (#[trigger] r@[j]).index < self.nodes_view().len()
                    && step(edges, dir, u.index as int, r@[j].index as int) by {
                    assert(calls_edge(edges, u.index as int, crate::graph::callees_in(edges, u.index)[j] as int));
                    let e = choose|e: int| 0 <= e < edges.len() && #[trigger] edges[e].from.index == u.index && edges[e].to.index == r@[j].index && crate::graph::is_call(edges[e]);
                }
            }
        }
        r
    }

    /// Every vertex other than `target` within `limit` hops of it in direction `dir`,
    /// each once, with its hop count; nearer levels come first.
    pub fn reach_within(&self, target: NodeId, dir: WalkDir, limit: usize) -> (r: (Vec<usize>, Vec<usize>))
        requires
            self.wf(),
            target.index < self.nodes_view().len(),
        ensures
            reach_result(self.edges_view(), self.nodes_view().len() as int, dir, target.index as int, limit as nat, r.0@, r.1@),
    {
        let ghost edges = self.edges_view();
        let n = self.node_count();
        let ghost ni = n as int;
        let ghost t = target.index as int;
        let mut visited: Vec<bool> = Vec::new();
        let mut q: usize = 0;
        while q < n
            invariant
                q <= n,
                t == target.index as int,
                visited@.len() == q,
                forall|v: int| 0 <= v < q ==> (#[trigger] visited@[v]) == (v == t),
            decreases n - q,
        {
            visited.push(q == target.index);
            q = q + 1;
        }
        let mut frontier: Vec<usize> = Vec::new();
        frontier.push(target.index);
        let mut found: Vec<usize> = Vec::new();
        let mut hops: Vec<usize> = Vec::new();
        let mut level: usize = 0;
        proof {
            assert forall|v: int| 0 <= v < n && #[trigger] at_distance(edges, ni, dir, t, v, 0)
                implies frontier@.contains(v as usize) by {
                lemma_within_zero(edges, ni, dir, t, v);
                assert(frontier@[0] == v as usize);
            }
            assert forall|v: int| 0 <= v < n implies (#[trigger] visited@[v]) == within(edges, ni, dir, t, v, 0) by {
                lemma_within_zero(edges, ni, dir, t, v);
            }
            assert forall|j: int| 0 <= j < frontier@.len() implies (#[trigger] frontier@[j]) < n
                && at_distance(edges, ni, dir, t, frontier@[j] as int, 0) by {
                lemma_within_zero(edges, ni, dir, t, t);
            }
        }
        while level < limit
            invariant
                self.wf(),
                edges == self.edges_view(),
                n == self.nodes_view().len(),
                ni == n as int,
                0 <= t < n,
                t == target.index,
                level <= limit,
                visited@.len() == n,
                forall|v: int| 0 <= v < n ==> (#[trigger] visited@[v]) == within(edges, ni, dir, t, v, level as nat),
                forall|j: int| 0 <= j < frontier@.len() ==> (#[trigger] frontier@[j]) < n
                    && at_distance(edges, ni, dir, t, frontier@[j] as int, level as nat),
                forall|v: int| 0 <= v < n && #[trigger] at_distance(edges, ni, dir, t, v, level as nat)
                    ==> frontier@.contains(v as usize),
                reach_result(edges, ni, dir, t, level as nat, found@, hops@),
            decreases limit - level,
        {
            let ghost lv = level as nat;
            proof {
                assert forall|j: int| 0 <= j < found@.len() implies visited@[#[trigger] found@[j] as int] by {
                    lemma_within_mono(edges, ni, dir, t, found@[j] as int, hops@[j] as nat, lv);
                }
            }
            let mut fi: usize = 0;
            while fi < frontier.len()
                invariant
                    self.wf(),
                    edges == self.edges_view(),
                    n == self.nodes_view().len(),
                    ni == n as int,
                    0 <= t < n,
                    lv == level as nat,
                    level < limit,
                    fi <= frontier@.len(),
                    visited@.len() == n,
                    forall|j: int| 0 <= j < frontier@.len() ==> (#[trigger] frontier@[j]) < n
                        && at_distance(edges, ni, dir, t, frontier@[j] as int, lv),
                    forall|v: int| 0 <= v < n && #[trigger] at_distance(edges, ni, dir, t, v, lv)
                        ==> frontier@.contains(v as usize),
                    // visited: within `level` hops, or one hop from a frontier vertex done so far
                    forall|v: int| 0 <= v < n ==> (#[trigger] visited@[v]) == (within(edges, ni, dir, t, v, lv)
                        || exists|x: int| 0 <= x < fi && #[trigger] step(edges, dir, frontier@[x] as int, v)),
                    found@.len() == hops@.len(),
                    forall|j: int| 0 <= j < found@.len() ==> {
                        &&& (#[trigger] found@[j]) < n
                        &&& found@[j] != t
                        &&& 1 <= hops@[j] <= lv + 1
                        &&& at_distance(edges, ni, dir, t, found@[j] as int, hops@[j] as nat)
                        &&& visited@[found@[j] as int]
                    },
                    forall|i: int, j: int| 0 <= i < j < found@.len() ==> found@[i] != found@[j],
                    forall|i: int, j: int| 0 <= i < j < found@.len() ==> hops@[i] <= hops@[j],
                    forall|v: int| 0 <= v < n && v != t && #[trigger] visited@[v] ==> found@.contains(v as usize),
                decreases frontier@.len() - fi,
            {
                let u = frontier[fi];
                let nbrs = self.step_list(NodeId { index: u }, dir);
                let mut j: usize = 0;
                while j < nbrs.len()
                    invariant
                        self.wf(),
                        edges == self.edges_view(),
                        n == self.nodes_view().len(),
                        ni == n as int,
                        0 <= t < n,
                        lv == level as nat,
                        level < limit,
                        fi < frontier@.len(),
                        u == frontier@[fi as int],
                        u < n,
                        at_distance(edges, ni, dir, t, u as int, lv),
                        j <= nbrs@.len(),
                        visited@.len() == n,
                        forall|m: int| 0 <= m < nbrs@.len() ==> (#[trigger] nbrs@[m]).index < n
                            && step(edges, dir, u as int, nbrs@[m].index as int),
                        forall|v: int| 0 <= v < n ==> (#[trigger] visited@[v]) == (within(edges, ni, dir, t, v, lv)
                            || (exists|x: int| 0 <= x < fi && #[trigger] step(edges, dir, frontier@[x] as int, v))
                            || (exists|m: int| 0 <= m < j && (#[trigger] nbrs@[m]).index == v)),
                        found@.len() == hops@.len(),
                        forall|k: int| 0 <= k < found@.len() ==> {
                            &&& (#[trigger] found@[k]) < n
                            &&& found@[k] != t
                            &&& 1 <= hops@[k] <= lv + 1
                            &&& at_distance(edges, ni, dir, t, found@[k] as int, hops@[k] as nat)
                            &&& visited@[found@[k] as int]
                        },
                        forall|i: int, k: int| 0 <= i < k < found@.len() ==> found@[i] != found@[k],
                        forall|i: int, k: int| 0 <= i < k < found@.len() ==> hops@[i] <= hops@[k],
                        forall|v: int| 0 <= v < n && v != t && #[trigger] visited@[v] ==> found@.contains(v as usize),
                    decreases nbrs@.len() - j,
                {
                    let v = nbrs[j].index;
                    let ghost old_visited = visited@;
                    let ghost old_found = found@;
                    if !visited[v] {
                        proof {
                            assert(!within(edges, ni, dir, t, v as int, lv));
                            lemma_within_step(edges, ni, dir, t, u as int, v as int, lv);
                            assert(v as int != t) by {
                                lemma_within_zero(edges, ni, dir, t, t);
                                lemma_within_mono(edges, ni, dir, t, t, 0, lv);
                            }
                        }
                        let ghost old_hops = hops@;
                        visited.set(v, true);
                        found.push(v);
                        hops.push(level + 1);
                        proof {
                            assert forall|i: int, k: int| 0 <= i < k < found@.len() implies hops@[i] <= hops@[k] by {
                                if k == found@.len() - 1 {
                                    assert(hops@[i] == old_hops[i]);
                                    assert(old_found[i] < n);
                                    assert(old_hops[i] <= lv + 1);
                                } else {
                                    assert(hops@[i] == old_hops[i] && hops@[k] == old_hops[k]);
                                }
                            }
                            assert forall|i: int, k: int| 0 <= i < k < found@.len() implies found@[i] != found@[k] by {
                                if k == found@.len() - 1 && i < k {
                                    assert(old_visited[found@[i] as int]);
                                }
                            }
                            assert forall|w: int| 0 <= w < n && w != t && #[trigger] visited@[w] implies found@.contains(w as usize) by {
                                if w == v {
                                    assert(found@[found@.len() - 1] == v);
                                } else {
                                    assert(old_visited[w]);
                                    let p = choose|p: int| 0 <= p < old_found.len() && old_found[p] == w as usize;
                                    assert(found@[p] == w as usize);
                                }
                            }
                        }
                    }
                    proof {
                        assert forall|w: int| 0 <= w < n implies (#[trigger] visited@[w]) == (within(edges, ni, dir, t, w, lv)
                            || (exists|x: int| 0 <= x < fi && #[trigger] step(edges, dir, frontier@[x] as int, w))
                            || (exists|m: int| 0 <= m < j + 1 && (#[trigger] nbrs@[m]).index == w)) by {
                            if w == v {
                                assert(nbrs@[j as int].index == w);
                            } else {
                                assert(visited@[w] == old_visited[w]);
                                if exists|m: int| 0 <= m < j + 1 && (#[trigger] nbrs@[m]).index == w {
                                    let m = choose|m: int| 0 <= m < j + 1 && (#[trigger] nbrs@[m]).index == w;
                                    assert(m < j);
                                }
                            }
                        }
                    }
                    j = j + 1;
                }
                proof {
                    assert forall|w: int| 0 <= w < n implies (#[trigger] visited@[w]) == (within(edges, ni, dir, t, w, lv)
                        || exists|x: int| 0 <= x < fi + 1 && #[trigger] step(edges, dir, frontier@[x] as int, w)) by {
                        if exists|x: int| 0 <= x < fi + 1 && #[trigger] step(edges, dir, frontier@[x] as int, w) {
                            let x = choose|x: int| 0 <= x < fi + 1 && #[trigger] step(edges, dir, frontier@[x] as int, w);
                            if x == fi {
                                assert(step(edges, dir, u as int, w));
                                let m = choose|m: int| 0 <= m < nbrs@.len() && (#[trigger] nbrs@[m]).index == w;
                            }
                        }
                        if exists|m: int| 0 <= m < nbrs@.len() && (#[trigger] nbrs@[m]).index == w {
                            let m = choose|m: int| 0 <= m < nbrs@.len() && (#[trigger] nbrs@[m]).index == w;
                            assert(step(edges, dir, frontier@[fi as int] as int, w));
                        }
                    }
                }
                fi = fi + 1;
            }
            proof {
                // Everything visited so far is exactly what lies within one more level.
                assert forall|w: int| 0 <= w < n implies (#[trigger] visited@[w]) == within(edges, ni, dir, t, w, lv + 1) by {
                    if within(edges, ni, dir, t, w, lv + 1) && !within(edges, ni, dir, t, w, lv) {
                        lemma_within_unfold(edges, ni, dir, t, w, lv);
                        let u = choose|u: int| 0 <= u < ni && #[trigger] within(edges, ni, dir, t, u, lv) && step(edges, dir, u, w);
                        if lv > 0 && within(edges, ni, dir, t, u, (lv - 1) as nat) {
                            lemma_within_step(edges, ni, dir, t, u, w, (lv - 1) as nat);
                        } else {
                            assert(at_distance(edges, ni, dir, t, u, lv));
                            assert(frontier@.contains(u as usize));
                            let x = choose|x: int| 0 <= x < frontier@.len() && frontier@[x] == u as usize;
                            assert(step(edges, dir, frontier@[x] as int, w));
                        }
                    }
                    if exists|x: int| 0 <= x < frontier@.len() && #[trigger] step(edges, dir, frontier@[x] as int, w) {
                        let x = choose|x: int| 0 <= x < frontier@.len() && #[trigger] step(edges, dir, frontier@[x] as int, w);
                        let u = frontier@[x] as int;
                        lemma_within_step(edges, ni, dir, t, u, w, lv);
                        assert(within(edges, ni, dir, t, w, lv + 1));
                    }
                }
                lemma_within_zero(edges, ni, dir, t, t);
                lemma_within_mono(edges, ni, dir, t, t, 0, lv);
            }
            // The vertices first reached at this level form the next frontier.
            let mut next: Vec<usize> = Vec::new();
            let mut k: usize = 0;
            while k < found.len()
                invariant
                    k <= found@.len(),
                    found@.len() == hops@.len(),
                    forall|m: int| 0 <= m < next@.len() ==> (#[trigger] next@[m]) < n
                        && at_distance(edges, ni, dir, t, next@[m] as int, lv + 1),
                    forall|m: int| 0 <= m < k && hops@[m] == level + 1 ==> next@.contains(#[trigger] found@[m]),
                    forall|j: int| 0 <= j < found@.len() ==> {
                        &&& (#[trigger] found@[j]) < n
                        &&& at_distance(edges, ni, dir, t, found@[j] as int, hops@[j] as nat)
                    },
                    level < limit,
                    lv == level as nat,
                decreases found@.len() - k,
            {
                if hops[k] == level + 1 {
                    let ghost before = next@;
                    next.push(found[k]);
                    proof {
                        assert forall|m: int| 0 <= m < k + 1 && hops@[m] == level + 1 implies next@.contains(#[trigger] found@[m]) by {
                            if m < k {
                                let p = choose|p: int| 0 <= p < before.len() && before[p] == found@[m];
                                assert(next@[p] == found@[m]);
                            } else {
                                assert(next@[next@.len() - 1] == found@[m]);
                            }
                        }
                    }
                }
                k = k + 1;
            }
            proof {
                assert forall|v: int| 0 <= v < n && #[trigger] at_distance(edges, ni, dir, t, v, lv + 1)
                    implies next@.contains(v as usize) by {
                    assert(v != t);
                    assert(visited@[v]);
                    assert(found@.contains(v as usize));
                    let p = choose|p: int| 0 <= p < found@.len() && found@[p] == v as usize;
                    let h = hops@[p] as nat;
                    assert(at_distance(edges, ni, dir, t, v, h));
                    if h < lv + 1 {
                        lemma_within_mono(edges, ni, dir, t, v, h, lv);
                    } else if h > lv + 1 {
                        lemma_within_mono(edges, ni, dir, t, v, lv + 1, (h - 1) as nat);
                    }
                    assert(hops@[p] == level + 1);
                }
                assert forall|v: int| 0 <= v < n && v != t && #[trigger] within(edges, ni, dir, t, v, lv + 1)
                    implies found@.contains(v as usize) by {
                    assert(visited@[v]);
                }
            }
            frontier = next;
            level = level + 1;
        }
        (found, hops)
    }
}

/// Two exact hop counts of one vertex agree.
pub proof fn lemma_hop_unique(edges: Seq<GraphEdge>, n: int, dir: WalkDir, t: int, v: int, a: nat, b: nat)
    requires
        at_distance(edges, n, dir, t, v, a),
        at_distance(edges, n, dir, t, v, b),
    ensures
        a == b,
{
    if a < b {
        lemma_within_mono(edges, n, dir, t, v, a, (b - 1) as nat);
    } else if b < a {
        lemma_within_mono(edges, n, dir, t, v, b, (a - 1) as nat);
    }
}

/// `p` is a path of vertex positions from `u` to `v` along `Calls` edges.
pub open spec fn call_path(edges: Seq<GraphEdge>, n: int, u: int, v: int, p: Seq<NodeId>) -> bool {
    is_walk(edges, n, WalkDir::Callees, u, v, p.map_values(|x: NodeId| x.index as int))
}

impl ArborGraph {
    fn has_call_edge(&self, u: usize, v: usize) -> (r: bool)
        ensures
            r == calls_edge(self.edges_view(), u as int, v as int),
    {
        let es = self.edges();
        let mut k: usize = 0;
        while k < es.len()
            invariant
                k <= es@.len(),
                es@ == self.edges_view(),
                forall|j: int| 0 <= j < k ==> !(#[trigger] es@[j].from.index == u && es@[j].to.index == v && crate::graph::is_call(es@[j])),
            decreases es@.len() - k,
        {
            let e = es[k];
            if e.from.index == u && e.to.index == v && e.edge.kind == crate::graph::EdgeKind::Calls {
                return true;
            }
            k = k + 1;
        }
        false
    }

    /// A shortest path from `u` to `v` along `Calls` edges, as the vertices on it; `None`
    /// when `v` cannot be reached from `u`.
    pub fn find_path(&self, u: NodeId, v: NodeId) -> (r: Option<Vec<NodeId>>)
        requires
            self.wf(),
            u.index < self.nodes_view().len(),
            v.index < self.nodes_view().len(),
            self.nodes_view().len() < usize::MAX,
        ensures
            r.is_some() ==> call_path(self.edges_view(), self.nodes_view().len() as int, u.index as int, v.index as int, r.unwrap()@)
                && at_distance(self.edges_view(), self.nodes_view().len() as int, WalkDir::Callees, u.index as int, v.index as int, (r.unwrap()@.len() - 1) as nat),
            r.is_none() ==> !within(self.edges_view(), self.nodes_view().len() as int, WalkDir::Callees, u.index as int, v.index as int, self.nodes_view().len() as nat),
    {
        let ghost edges = self.edges_view();
        let n = self.node_count();
        let ghost ni = n as int;
        let ghost t = u.index as int;
        if u.index == v.index {
            let p = vec![u];
            proof {
                let q = p@.map_values(|x: NodeId| x.index as int);
                assert(q =~= seq![t]);
                assert(is_walk(edges, ni, WalkDir::Callees, t, t, q));
                lemma_within_zero(edges, ni, WalkDir::Callees, t, t);
            }
            return Some(p);
        }
        let (found, hops) = self.reach_within(u, WalkDir::Callees, n);
        let mut j: usize = 0;
        while j < found.len() && found[j] != v.index
            invariant
                j <= found@.len(),
                forall|m: int| 0 <= m < j ==> found@[m] != v.index,
            decreases found@.len() - j,
        {
            j = j + 1;
        }
        if j == found.len() {
            proof {
                if within(edges, ni, WalkDir::Callees, t, v.index as int, n as nat) {
                    assert(found@.contains(v.index));
                }
            }
            return None;
        }
        let h = hops[j];
        assert(h <= n);
        let mut rev: Vec<usize> = Vec::new();
        rev.push(v.index);
        let mut cur = v.index;
        let mut level = h;
        while level > 1
            invariant
                self.wf(),
                edges == self.edges_view(),
                n == self.nodes_view().len(),
                ni == n as int,
                0 <= t < n,
                reach_result(edges, ni, WalkDir::Callees, t, n as nat, found@, hops@),
                1 <= level <= h,
                h <= n,
                rev@.len() == h - level + 1,
                rev@[0] == v.index,
                rev@[rev@.len() - 1] == cur,
                forall|k: int| 0 <= k < rev@.len() ==> #[trigger] rev@[k] < n,
                forall|k: int| 0 <= k < rev@.len() - 1 ==> calls_edge(edges, #[trigger] rev@[k + 1] as int, rev@[k] as int),
                at_distance(edges, ni, WalkDir::Callees, t, cur as int, level as nat),
                cur < n,
            decreases level,
        {
            proof {
                lemma_within_unfold(edges, ni, WalkDir::Callees, t, cur as int, (level - 1) as nat);
                let w = choose|w: int| 0 <= w < ni && #[trigger] within(edges, ni, WalkDir::Callees, t, w, (level - 1) as nat)
                    && step(edges, WalkDir::Callees, w, cur as int);
                if level >= 2 && within(edges, ni, WalkDir::Callees, t, w, (level - 2) as nat) {
                    lemma_within_step(edges, ni, WalkDir::Callees, t, w, cur as int, (level - 2) as nat);
                }
                assert(at_distance(edges, ni, WalkDir::Callees, t, w, (level - 1) as nat));
                lemma_within_zero(edges, ni, WalkDir::Callees, t, w);
                lemma_within_mono(edges, ni, WalkDir::Callees, t, w, (level - 1) as nat, n as nat);
                assert(w != t) by {
                    if w == t {
                        lemma_within_zero(edges, ni, WalkDir::Callees, t, t);
                    }
                }
                assert(found@.contains(w as usize));
            }
            let mut k: usize = 0;
            let mut pred: Option<usize> = None;
            while k < found.len() && pred.is_none()
                invariant
                    level > 1,
                    k <= found@.len(),
                    found@.len() == hops@.len(),
                    edges == self.edges_view(),
                    pred.is_none() ==> forall|m: int| 0 <= m < k ==> !(hops@[m] == level - 1 && #[trigger] calls_edge(edges, found@[m] as int, cur as int)),
                    pred.is_some() ==> exists|m: int| 0 <= m < found@.len() && found@[m] == pred.unwrap() && hops@[m] == level - 1 && #[trigger] calls_edge(edges, found@[m] as int, cur as int),
                decreases found@.len() - k + if pred.is_none() { 1int } else { 0int },
            {
                if hops[k] == level - 1 && self.has_call_edge(found[k], cur) {
                    pred = Some(found[k]);
                } else {
                    k = k + 1;
                }
            }
            match pred {
                Some(w) => {
                    proof {
                        let m = choose|m: int| 0 <= m < found@.len() && found@[m] == w && hops@[m] == level - 1 && #[trigger] calls_edge(edges, found@[m] as int, cur as int);
                        assert(at_distance(edges, ni, WalkDir::Callees, t, w as int, hops@[m] as nat));
                    }
                    let ghost before = rev@;
                    rev.push(w);
                    proof {
                        assert forall|q: int| 0 <= q < rev@.len() - 1 implies calls_edge(edges, #[trigger] rev@[q + 1] as int, rev@[q] as int) by {
                            if q < before.len() - 1 {
                                assert(rev@[q] == before[q] && rev@[q + 1] == before[q + 1]);
                            } else {
                                assert(rev@[q] == cur && rev@[q + 1] == w);
                            }
                        }
                        assert forall|q: int| 0 <= q < rev@.len() implies #[trigger] rev@[q] < n by {
                            if q < before.len() {
                                assert(rev@[q] == before[q]);
                            }
                        }
                    }
                    cur = w;
                    level = level - 1;
                },
                None => {
                    proof {
                        let w = choose|w: int| 0 <= w < ni && #[trigger] within(edges, ni, WalkDir::Callees, t, w, (level - 1) as nat)
                            && step(edges, WalkDir::Callees, w, cur as int);
                        let m = choose|m: int| 0 <= m < found@.len() && found@[m] == w as usize;
                        lemma_hop_unique(edges, ni, WalkDir::Callees, t, w, hops@[m] as nat, (level - 1) as nat);
                        assert(hops@[m] == level - 1 && calls_edge(edges, found@[m] as int, cur as int));
                    }
                    return None;
                },
            }
        }
        // The walk: u, then the reversed chain from the first hop to v.
        proof {
            lemma_within_unfold(edges, ni, WalkDir::Callees, t, cur as int, 0);
            let w = choose|w: int| 0 <= w < ni && #[trigger] within(edges, ni, WalkDir::Callees, t, w, 0)
                && step(edges, WalkDir::Callees, w, cur as int);
            lemma_within_zero(edges, ni, WalkDir::Callees, t, w);
        }
        let mut path: Vec<NodeId> = Vec::new();
        path.push(u);
        let len = rev.len();
        let mut q: usize = 0;
        while q < len
            invariant
                len == rev@.len(),
                len == h,
                q <= len,
                path@.len() == q + 1,
                path@[0].index == t,
                forall|k: int| 1 <= k <= q ==> (#[trigger] path@[k]).index == rev@[len - k],
                forall|k: int| 0 <= k < rev@.len() ==> #[trigger] rev@[k] < n,
            decreases len - q,
        {
            path.push(NodeId { index: rev[len - 1 - q] });
            q = q + 1;
        }
        proof {
            let pv = path@.map_values(|x: NodeId| x.index as int);
            assert(pv.len() == h + 1);
            assert forall|i: int| 0 <= i < pv.len() implies 0 <= #[trigger] pv[i] < ni by {
                if i > 0 {
                    assert(path@[i].index == rev@[len - i]);
                }
            }
            assert forall|i: int| 0 <= i < pv.len() - 1 implies step(edges, WalkDir::Callees, #[trigger] pv[i], pv[i + 1]) by {
                if i == 0 {
                    assert(pv[1] == rev@[len - 1] as int);
                } else {
                    assert(pv[i] == rev@[len - i] as int);
                    assert(pv[i + 1] == rev@[len - i - 1] as int);
                    assert(calls_edge(edges, rev@[(len - i - 1) + 1] as int, rev@[len - i - 1] as int));
                }
            }
            assert(pv[pv.len() - 1] == rev@[0] as int);
            assert(is_walk(edges, ni, WalkDir::Callees, t, v.index as int, pv));
        }
        Some(path)
    }
}

} // verus!
