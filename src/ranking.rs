//! Centrality by a damped random walk over `Calls` edges, in fixed point.
use vstd::prelude::*;
use crate::graph::{callees_in, callers_in, ArborGraph, GraphEdge, NodeId};

verus! {

/// The fixed-point unit of centrality: this value stands for 1.0.
pub const CENTRALITY_ONE: u64 = 1_000_000_000;

pub open spec fn sat_add(a: u64, b: u64) -> u64 {
    if a as nat + b as nat > u64::MAX { u64::MAX } else { (a + b) as u64 }
}

/// The out-degree used to share a vertex's score: its `Calls` edges out, at least 1.
pub open spec fn share_degree(edges: Seq<GraphEdge>, u: int) -> nat {
    let d = callees_in(edges, u as usize).len();
    if d == 0 { 1 } else { d }
}

/// What the callers `us` pass on: each its score divided by its out-degree, summed
/// (saturating).
pub open spec fn inflow(edges: Seq<GraphEdge>, scores: Seq<u64>, us: Seq<usize>) -> u64
    decreases us.len(),
{
    if us.len() == 0 {
        0
    } else {
        let u = us.last() as int;
        sat_add(inflow(edges, scores, us.drop_last()), (scores[u] as nat / share_degree(edges, u)) as u64)
    }
}

/// The teleport share of each of `n` vertices with damping `dp` percent.
pub open spec fn base_share(n: nat, dp: nat) -> nat {
    ((((100 - dp) as nat * (CENTRALITY_ONE as nat)) / 100) / n) as nat
}

/// One round: `(1 - d)/N + d * inflow` for every vertex.
pub open spec fn next_scores(edges: Seq<GraphEdge>, n: nat, dp: nat, scores: Seq<u64>) -> Seq<u64> {
    Seq::new(
        n,
        |v: int| sat_add(
            base_share(n, dp) as u64,
            ((inflow(edges, scores, callers_in(edges, v as usize)) as nat * dp) / 100) as u64,
        ),
    )
}

/// The scores after `k` rounds, starting from `1/N` each.
pub open spec fn rounds(edges: Seq<GraphEdge>, n: nat, dp: nat, k: nat) -> Seq<u64>
    decreases k,
{
    if k == 0 {
        Seq::new(n, |v: int| ((CENTRALITY_ONE as nat) / n) as u64)
    } else {
        next_scores(edges, n, dp, rounds(edges, n, dp, (k - 1) as nat))
    }
}

/// The largest of `s` (0 when empty).
pub open spec fn seq_max(s: Seq<u64>) -> u64
    decreases s.len(),
{
    if s.len() == 0 {
        0
    } else {
        let m = seq_max(s.drop_last());
        if s.last() > m { s.last() } else { m }
    }
}

/// Scaled so that the largest becomes `CENTRALITY_ONE` (unchanged when all are 0).
pub open spec fn normalized(s: Seq<u64>) -> Seq<u64> {
    let m = seq_max(s);
    if m == 0 {
        s
    } else {
        Seq::new(s.len(), |v: int| ((s[v] as nat * (CENTRALITY_ONE as nat)) / m as nat) as u64)
    }
}

/// The centrality of every vertex after `k` rounds with damping `dp` percent.
pub open spec fn centrality_of(edges: Seq<GraphEdge>, n: nat, dp: nat, k: nat) -> Seq<u64> {
    if n == 0 {
        Seq::empty()
    } else {
        normalized(rounds(edges, n, dp, k))
    }
}

/// One score per vertex, by position.
pub struct CentralityScores {
    scores: Vec<u64>,
}

impl CentralityScores {
    pub closed spec fn view(&self) -> Seq<u64> {
        self.scores@
    }

    /// The score of `id` (0 when unknown).
    pub fn get(&self, id: NodeId) -> (r: u64)
        ensures
            id.index < self.view().len() ==> r == self.view()[id.index as int],
            id.index >= self.view().len() ==> r == 0,
    {
        if id.index < self.scores.len() {
            self.scores[id.index]
        } else {
            0
        }
    }

    pub fn len(&self) -> (r: usize)
        ensures
            r == self.view().len(),
    {
        self.scores.len()
    }

    /// The scores, indexed by vertex position.
    pub fn into_map(self) -> (r: Vec<u64>)
        ensures
            r@ == self.view(),
    {
        self.scores
    }
}

proof fn lemma_seq_max(s: Seq<u64>)
    ensures
        forall|i: int| 0 <= i < s.len() ==> s[i] <= seq_max(s),
        s.len() > 0 ==> exists|i: int| 0 <= i < s.len() && s[i] == seq_max(s),
    decreases s.len(),
{
    if s.len() > 0 {
        let p = s.drop_last();
        lemma_seq_max(p);
        assert forall|i: int| 0 <= i < s.len() implies s[i] <= seq_max(s) by {
            if i < p.len() {
                assert(s[i] == p[i]);
            }
        }
        if s.last() <= seq_max(p) && p.len() > 0 {
            let i = choose|i: int| 0 <= i < p.len() && p[i] == seq_max(p);
            assert(s[i] == p[i]);
        } else {
            assert(s[s.len() - 1] == seq_max(s));
        }
    }
}

/// After normalisation no score exceeds 1.0, and, when the largest raw score is
/// positive, some vertex scores exactly 1.0.
pub proof fn lemma_normalized_max(s: Seq<u64>)
    ensures
        forall|i: int| 0 <= i < s.len() && seq_max(s) > 0 ==> #[trigger] normalized(s)[i] <= (CENTRALITY_ONE as nat),
        s.len() > 0 && seq_max(s) > 0 ==> exists|i: int| 0 <= i < s.len() && #[trigger] normalized(s)[i] == (CENTRALITY_ONE as nat),
{
    lemma_seq_max(s);
    let m = seq_max(s);
    if m > 0 {
        assert forall|i: int| 0 <= i < s.len() implies #[trigger] normalized(s)[i] <= (CENTRALITY_ONE as nat) by {
            assert(s[i] <= m);
            assert(s[i] as nat * (CENTRALITY_ONE as nat) <= m as nat * (CENTRALITY_ONE as nat)) by (nonlinear_arith)
                requires s[i] <= m;
            assert((s[i] as nat * (CENTRALITY_ONE as nat)) / m as nat <= (CENTRALITY_ONE as nat)) by (nonlinear_arith)
                requires s[i] as nat * (CENTRALITY_ONE as nat) <= m as nat * (CENTRALITY_ONE as nat), m > 0;
        }
        if s.len() > 0 {
            let i = choose|i: int| 0 <= i < s.len() && s[i] == m;
            assert((m as nat * (CENTRALITY_ONE as nat)) / m as nat == (CENTRALITY_ONE as nat)) by (nonlinear_arith)
                requires m > 0;
            assert(normalized(s)[i] == (CENTRALITY_ONE as nat));
        }
    }
}

/// Every score after at least one round is at least the teleport share.
proof fn lemma_rounds_floor(edges: Seq<GraphEdge>, n: nat, dp: nat, k: nat, v: int)
    requires
        n > 0,
        dp <= 100,
        0 <= v < n,
    ensures
        k > 0 ==> rounds(edges, n, dp, k)[v] >= base_share(n, dp),
        k == 0 ==> rounds(edges, n, dp, k)[v] == (CENTRALITY_ONE as nat) / n,
{
    assert(base_share(n, dp) <= (CENTRALITY_ONE as nat)) by (nonlinear_arith)
        requires dp <= 100, n > 0, base_share(n, dp) == ((((100 - dp) as nat * (CENTRALITY_ONE as nat)) / 100) / n) as nat;
}

/// Centrality normalisation: with at least one vertex and a positive teleport share
/// (damping below 100% and not too many vertices), the largest score is exactly 1.0
/// and none exceeds it.
pub proof fn lemma_centrality_normalized(edges: Seq<GraphEdge>, n: nat, dp: nat, k: nat)
    requires
        n > 0,
        dp <= 100,
        base_share(n, dp) >= 1,
    ensures
        forall|i: int| 0 <= i < n ==> #[trigger] centrality_of(edges, n, dp, k)[i] <= (CENTRALITY_ONE as nat),
        exists|i: int| 0 <= i < n && #[trigger] centrality_of(edges, n, dp, k)[i] == (CENTRALITY_ONE as nat),
{
    let s = rounds(edges, n, dp, k);
    assert(s.len() == n) by {
        if k > 0 {
            assert(s == next_scores(edges, n, dp, rounds(edges, n, dp, (k - 1) as nat)));
        }
    }
    lemma_seq_max(s);
    lemma_rounds_floor(edges, n, dp, k, 0);
    assert((CENTRALITY_ONE as nat) / n >= base_share(n, dp)) by (nonlinear_arith)
        requires dp <= 100, n > 0, base_share(n, dp) == ((((100 - dp) as nat * (CENTRALITY_ONE as nat)) / 100) / n) as nat;
    assert(s[0] >= 1);
    assert(seq_max(s) > 0);
    lemma_normalized_max(s);
    assert(centrality_of(edges, n, dp, k) == normalized(s));
    let i = choose|i: int| 0 <= i < s.len() && #[trigger] normalized(s)[i] == (CENTRALITY_ONE as nat);
    assert(centrality_of(edges, n, dp, k)[i] == (CENTRALITY_ONE as nat));
}

fn share_degrees(g: &ArborGraph) -> (r: Vec<u64>)
    requires
        g.wf(),
    ensures
        r@.len() == g.nodes_view().len(),
        forall|u: int| 0 <= u < r@.len() ==> #[trigger] r@[u] as nat == share_degree(g.edges_view(), u),
{
    let n = g.node_count();
    let mut out: Vec<u64> = Vec::new();
    let mut u: usize = 0;
    while u < n
        invariant
            n == g.nodes_view().len(),
            u <= n,
            out@.len() == u,
            forall|w: int| 0 <= w < u ==> #[trigger] out@[w] as nat == share_degree(g.edges_view(), w),
        decreases n - u,
    {
        let d = g.callees_of(NodeId { index: u }).len();
        proof {
            assert(callees_in(g.edges_view(), u).len() <= g.edges_view().len()) by {
                lemma_callees_len(g.edges_view(), u);
            }
        }
        out.push(if d == 0 { 1 } else { d as u64 });
        u = u + 1;
    }
    out
}

proof fn lemma_callees_len(edges: Seq<GraphEdge>, u: usize)
    ensures
        callees_in(edges, u).len() <= edges.len(),
    decreases edges.len(),
{
    if edges.len() > 0 {
        lemma_callees_len(edges.drop_last(), u);
    }
}

fn one_round(g: &ArborGraph, degrees: &Vec<u64>, scores: &Vec<u64>, dp: u64) -> (r: Vec<u64>)
    requires
        g.wf(),
        g.nodes_view().len() > 0,
        dp <= 100,
        degrees@.len() == g.nodes_view().len(),
        scores@.len() == g.nodes_view().len(),
        forall|u: int| 0 <= u < degrees@.len() ==> #[trigger] degrees@[u] as nat == share_degree(g.edges_view(), u),
    ensures
        r@ == next_scores(g.edges_view(), g.nodes_view().len() as nat, dp as nat, scores@),
{
    let n = g.node_count();
    let ghost edges = g.edges_view();
    let keep: u128 = (100 - dp) as u128;
    assert(keep <= 100);
    let scaled: u128 = keep * 1_000_000_000u128;
    let base: u64 = ((scaled / 100) / (n as u128)) as u64;
    proof {
        assert((((100 - dp) as nat * (CENTRALITY_ONE as nat)) / 100) / (n as nat) <= (CENTRALITY_ONE as nat)) by (nonlinear_arith)
            requires dp <= 100, n > 0;
        assert(base as nat == base_share(n as nat, dp as nat));
    }
    let mut out: Vec<u64> = Vec::new();
    let mut v: usize = 0;
    while v < n
        invariant
            g.wf(),
            n == g.nodes_view().len(),
            edges == g.edges_view(),
            dp <= 100,
            base as nat == base_share(n as nat, dp as nat),
            degrees@.len() == n,
            scores@.len() == n,
            forall|u: int| 0 <= u < degrees@.len() ==> #[trigger] degrees@[u] as nat == share_degree(edges, u),
            v <= n,
            out@.len() == v,
            forall|w: int| 0 <= w < v ==> #[trigger] out@[w] == next_scores(edges, n as nat, dp as nat, scores@)[w],
        decreases n - v,
    {
        let callers = g.callers_of(NodeId { index: v });
        proof {
            crate::graph::lemma_callers_in(edges, v);
        }
        let ghost cs = callers_in(edges, v);
        let mut acc: u64 = 0;
        let mut j: usize = 0;
        while j < callers.len()
            invariant
                g.wf(),
                n == g.nodes_view().len(),
                edges == g.edges_view(),
                cs == callers_in(edges, v),
                callers@.len() == cs.len(),
                forall|m: int| 0 <= m < callers@.len() ==> (#[trigger] callers@[m]).index == cs[m],
                degrees@.len() == n,
                scores@.len() == n,
                forall|u: int| 0 <= u < degrees@.len() ==> #[trigger] degrees@[u] as nat == share_degree(edges, u),
                j <= callers@.len(),
                dp <= 100,
                v < n,
                acc == inflow(edges, scores@, cs.subrange(0, j as int)),
            decreases callers@.len() - j,
        {
            let u = callers[j].index;
            proof {
                crate::graph::lemma_callers_in(edges, v);
                assert(crate::graph::calls_edge(edges, cs[j as int] as int, v as int));
                let k = choose|k: int| 0 <= k < edges.len() && #[trigger] edges[k].from.index == cs[j as int] && edges[k].to.index == v && crate::graph::is_call(edges[k]);
                assert(u < n);
                assert(cs.subrange(0, j + 1).drop_last() =~= cs.subrange(0, j as int));
                assert(cs.subrange(0, j + 1).last() == u);
            }
            let part = scores[u] / degrees[u];
            acc = acc.saturating_add(part);
            j = j + 1;
        }
        assert(cs.subrange(0, j as int) =~= cs);
        proof {
            assert(acc as nat * dp as nat <= acc as nat * 100) by (nonlinear_arith)
                requires dp <= 100;
            assert((acc as nat * dp as nat) / 100 <= acc) by (nonlinear_arith)
                requires dp <= 100;
        }
        let damped: u64 = ((acc as u128 * dp as u128) / 100) as u64;
        out.push(base.saturating_add(damped));
        v = v + 1;
    }
    assert(out@ =~= next_scores(edges, n as nat, dp as nat, scores@));
    out
}

fn max_of(s: &Vec<u64>) -> (r: u64)
    ensures
        r == seq_max(s@),
{
    let mut m: u64 = 0;
    let mut i: usize = 0;
    while i < s.len()
        invariant
            i <= s@.len(),
            m == seq_max(s@.subrange(0, i as int)),
        decreases s@.len() - i,
    {
        assert(s@.subrange(0, i + 1).drop_last() =~= s@.subrange(0, i as int));
        if s[i] > m {
            m = s[i];
        }
        i = i + 1;
    }
    assert(s@.subrange(0, i as int) =~= s@);
    m
}

/// Runs `iterations` rounds of the damped random walk (damping in percent, 85 being the
/// usual) from `1/N` each, then scales so that the largest score is `CENTRALITY_ONE`.
pub fn compute_centrality(graph: &ArborGraph, iterations: usize, damping_percent: u64) -> (r: CentralityScores)
    requires
        graph.wf(),
        damping_percent <= 100,
    ensures
        r.view() == centrality_of(graph.edges_view(), graph.nodes_view().len() as nat, damping_percent as nat, iterations as nat),
{
    let n = graph.node_count();
    if n == 0 {
        let r = CentralityScores { scores: Vec::new() };
        assert(r.view() =~= Seq::<u64>::empty());
        return r;
    }
    let ghost edges = graph.edges_view();
    let degrees = share_degrees(graph);
    let mut scores: Vec<u64> = Vec::new();
    let init = CENTRALITY_ONE / (n as u64);
    let mut i: usize = 0;
    while i < n
        invariant
            i <= n,
            init as nat == (CENTRALITY_ONE as nat) / (n as nat),
            scores@.len() == i,
            forall|w: int| 0 <= w < i ==> #[trigger] scores@[w] == init,
        decreases n - i,
    {
        scores.push(init);
        i = i + 1;
    }
    assert(scores@ =~= rounds(edges, n as nat, damping_percent as nat, 0));
    let mut k: usize = 0;
    while k < iterations
        invariant
            graph.wf(),
            n == graph.nodes_view().len(),
            n > 0,
            edges == graph.edges_view(),
            damping_percent <= 100,
            degrees@.len() == n,
            forall|u: int| 0 <= u < degrees@.len() ==> #[trigger] degrees@[u] as nat == share_degree(edges, u),
            k <= iterations,
            scores@ == rounds(edges, n as nat, damping_percent as nat, k as nat),
            scores@.len() == n,
        decreases iterations - k,
    {
        scores = one_round(graph, &degrees, &scores, damping_percent);
        k = k + 1;
    }
    let m = max_of(&scores);
    if m > 0 {
        let mut out: Vec<u64> = Vec::new();
        let mut v: usize = 0;
        proof {
            lemma_seq_max(scores@);
        }
        while v < n
            invariant
                v <= n,
                scores@.len() == n,
                m == seq_max(scores@),
                m > 0,
                forall|w: int| 0 <= w < scores@.len() ==> scores@[w] <= m,
                out@.len() == v,
                forall|w: int| 0 <= w < v ==> #[trigger] out@[w] == normalized(scores@)[w],
            decreases n - v,
        {
            let x = scores[v];
            proof {
                assert(x as nat * (CENTRALITY_ONE as nat) <= m as nat * (CENTRALITY_ONE as nat)) by (nonlinear_arith)
                    requires x <= m;
                assert((x as nat * (CENTRALITY_ONE as nat)) / m as nat <= (CENTRALITY_ONE as nat)) by (nonlinear_arith)
                    requires x as nat * (CENTRALITY_ONE as nat) <= m as nat * (CENTRALITY_ONE as nat), m > 0;
            }
            let y = ((x as u128 * CENTRALITY_ONE as u128) / m as u128) as u64;
            out.push(y);
            v = v + 1;
        }
        assert(out@ =~= normalized(scores@));
        CentralityScores { scores: out }
    } else {
        CentralityScores { scores }
    }
}

impl ArborGraph {
    /// Computes centrality with the usual settings (20 rounds, damping 85%) and stores it.
    pub fn rank(&mut self)
        requires
            old(self).wf(),
        ensures
            final(self).wf(),
            final(self).nodes_view() == old(self).nodes_view(),
            final(self).edges_view() == old(self).edges_view(),
            final(self).centrality_view() == centrality_of(old(self).edges_view(), old(self).nodes_view().len() as nat, 85, 20),
    {
        let scores = compute_centrality(self, 20, 85).into_map();
        proof {
            let n = self.nodes_view().len() as nat;
            if n > 0 {
                let s = rounds(self.edges_view(), n, 85, 20);
                assert(s.len() == n);
            }
        }
        self.set_centrality(scores);
    }
}

} // verus!
