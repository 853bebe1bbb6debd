//! Impact analysis: the bounded upstream and downstream reach of a vertex.
use vstd::prelude::*;
use vstd::string::*;
use crate::graph::{ArborGraph, EdgeKind, GraphEdge, NodeId};
use crate::query::{describes, NodeInfo};
use crate::reach::{reach_result, WalkDir};

verus! {

/// Direct for vertices one hop away, transitive beyond.
#[derive(Clone, Copy, Debug, PartialEq, Eq, Hash, Structural)]
pub enum ImpactSeverity {
    Direct,
    Transitive,
}

impl ImpactSeverity {
    pub fn as_str(&self) -> (r: &'static str)
        ensures
            *self == ImpactSeverity::Direct ==> r@ == "direct"@,
            *self == ImpactSeverity::Transitive ==> r@ == "transitive"@,
    {
        match self {
            ImpactSeverity::Direct => "direct",
            ImpactSeverity::Transitive => "transitive",
        }
    }
}

/// One vertex reached by an impact traversal.
#[derive(Clone, Debug)]
pub struct AffectedNode {
    pub node_id: NodeId,
    pub node_info: NodeInfo,
    pub severity: ImpactSeverity,
    pub hop_distance: usize,
    /// The kind of the edge followed out of the target towards this vertex.
    pub entry_edge: EdgeKind,
}

/// Both reaches of a target vertex.
#[derive(Clone, Debug)]
pub struct ImpactAnalysis {
    pub target: NodeInfo,
    /// Vertices that reach the target along `Calls` edges (its callers, transitively).
    pub upstream: Vec<AffectedNode>,
    /// Vertices the target reaches along `Calls` edges (its callees, transitively).
    pub downstream: Vec<AffectedNode>,
    pub total_affected: usize,
    pub max_depth: usize,
    pub query_time_ms: u64,
}

/// The number of hops a traversal explores: `max_depth`, or the vertex count when it is 0.
pub open spec fn effective_depth(max_depth: usize, n: int) -> nat {
    if max_depth == 0 {
        n as nat
    } else {
        max_depth as nat
    }
}

/// The records `recs` are exactly the reach of `t` in direction `dir` within `limit`
/// hops, each with its vertex's snapshot, hop count and severity.
pub open spec fn impact_side(g: ArborGraph, dir: WalkDir, t: int, limit: nat, recs: Seq<AffectedNode>) -> bool {
    &&& reach_result(
        g.edges_view(),
        g.nodes_view().len() as int,
        dir,
        t,
        limit,
        recs.map_values(|a: AffectedNode| a.node_id.index),
        recs.map_values(|a: AffectedNode| a.hop_distance),
    )
    &&& forall|j: int|
        0 <= j < recs.len() ==> {
            &&& describes(
                (#[trigger] recs[j]).node_info,
                g.nodes_view()[recs[j].node_id.index as int],
                g.centrality_view()[recs[j].node_id.index as int],
            )
            &&& (recs[j].severity == ImpactSeverity::Direct <==> recs[j].hop_distance == 1)
            &&& recs[j].entry_edge == EdgeKind::Calls
        }
}

impl ArborGraph {
    fn affected_records(&self, found: &Vec<usize>, hops: &Vec<usize>) -> (r: Vec<AffectedNode>)
        requires
            self.wf(),
            found@.len() == hops@.len(),
            forall|j: int| 0 <= j < found@.len() ==> (#[trigger] found@[j]) < self.nodes_view().len(),
        ensures
            r@.len() == found@.len(),
            forall|j: int| 0 <= j < r@.len() ==> {
                &&& (#[trigger] r@[j]).node_id.index == found@[j]
                &&& r@[j].hop_distance == hops@[j]
                &&& describes(r@[j].node_info, self.nodes_view()[found@[j] as int], self.centrality_view()[found@[j] as int])
                &&& (r@[j].severity == ImpactSeverity::Direct <==> r@[j].hop_distance == 1)
                &&& r@[j].entry_edge == EdgeKind::Calls
            },
    {
        let mut out: Vec<AffectedNode> = Vec::new();
        let mut j: usize = 0;
        while j < found.len()
            invariant
                self.wf(),
                found@.len() == hops@.len(),
                forall|m: int| 0 <= m < found@.len() ==> (#[trigger] found@[m]) < self.nodes_view().len(),
                j <= found@.len(),
                out@.len() == j,
                forall|m: int| 0 <= m < j ==> {
                    &&& (#[trigger] out@[m]).node_id.index == found@[m]
                    &&& out@[m].hop_distance == hops@[m]
                    &&& describes(out@[m].node_info, self.nodes_view()[found@[m] as int], self.centrality_view()[found@[m] as int])
                    &&& (out@[m].severity == ImpactSeverity::Direct <==> out@[m].hop_distance == 1)
                    &&& out@[m].entry_edge == EdgeKind::Calls
                },
            decreases found@.len() - j,
        {
            let v = found[j];
            let id = NodeId { index: v };
            let node = self.get(id).unwrap();
            let info = NodeInfo::from_node(node, self.centrality(id));
            let severity = if hops[j] == 1 { ImpactSeverity::Direct } else { ImpactSeverity::Transitive };
            out.push(AffectedNode { node_id: id, node_info: info, severity, hop_distance: hops[j], entry_edge: EdgeKind::Calls });
            j = j + 1;
        }
        out
    }

    /// Two bounded traversals from `target`: upstream over callers, downstream over
    /// callees, each listing every other vertex within `max_depth` hops (all
    /// reachable ones when `max_depth` is 0) once, with its hop distance.
    pub fn analyze_impact(&self, target: NodeId, max_depth: usize) -> (r: ImpactAnalysis)
        requires
            self.wf(),
            target.index < self.nodes_view().len(),
            self.nodes_view().len() <= usize::MAX / 2,
        ensures
            describes(r.target, self.nodes_view()[target.index as int], self.centrality_view()[target.index as int]),
            impact_side(*self, WalkDir::Callers, target.index as int, effective_depth(max_depth, self.nodes_view().len() as int), r.upstream@),
            impact_side(*self, WalkDir::Callees, target.index as int, effective_depth(max_depth, self.nodes_view().len() as int), r.downstream@),
            r.total_affected == r.upstream@.len() + r.downstream@.len(),
            r.max_depth == max_depth,
            r.query_time_ms == 0,
    {
        let limit = if max_depth == 0 { self.node_count() } else { max_depth };
        let (up_found, up_hops) = self.reach_within(target, WalkDir::Callers, limit);
        let (down_found, down_hops) = self.reach_within(target, WalkDir::Callees, limit);
        let upstream = self.affected_records(&up_found, &up_hops);
        let downstream = self.affected_records(&down_found, &down_hops);
        proof {
            let ghost n = self.nodes_view().len() as int;
            assert(upstream@.map_values(|a: AffectedNode| a.node_id.index) =~= up_found@);
            assert(upstream@.map_values(|a: AffectedNode| a.hop_distance) =~= up_hops@);
            assert(downstream@.map_values(|a: AffectedNode| a.node_id.index) =~= down_found@);
            assert(downstream@.map_values(|a: AffectedNode| a.hop_distance) =~= down_hops@);
            lemma_distinct_bounded_len(up_found@, n);
            lemma_distinct_bounded_len(down_found@, n);
        }
        let node = self.get(target).unwrap();
        let total = upstream.len() + downstream.len();
        ImpactAnalysis {
            target: NodeInfo::from_node(node, self.centrality(target)),
            upstream,
            downstream,
            total_affected: total,
            max_depth,
            query_time_ms: 0,
        }
    }
}

/// A sequence of distinct values below `n` has at most `n` elements.
pub proof fn lemma_distinct_bounded_len(s: Seq<usize>, n: int)
    requires
        forall|j: int| 0 <= j < s.len() ==> (#[trigger] s[j]) < n,
        forall|i: int, j: int| 0 <= i < j < s.len() ==> s[i] != s[j],
    ensures
        s.len() <= if n < 0 { 0 } else { n },
{
    let set = s.to_set();
    assert(s.no_duplicates());
    s.unique_seq_to_set();
    if n <= 0 {
        if s.len() > 0 {
            assert(s[0] < n);
        }
    } else {
        vstd::seq_lib::seq_to_set_is_finite(s);
        let f = |v: usize| v as int;
        let mapped = set.map(f);
        assert(vstd::relations::injective_on(f, set)) by {
            assert forall|a: usize, b: usize| set.contains(a) && set.contains(b) && #[trigger] f(a) == #[trigger] f(b) implies a == b by {}
        }
        vstd::set_lib::lemma_map_size(set, mapped, f);
        let range = vstd::set_lib::set_int_range(0, n);
        vstd::set_lib::lemma_int_range(0, n);
        assert(mapped.subset_of(range)) by {
            assert forall|i: int| mapped.contains(i) implies range.contains(i) by {
                let v = choose|v: usize| set.contains(v) && f(v) == i;
                let j = choose|j: int| 0 <= j < s.len() && s[j] == v;
            }
        }
        vstd::set_lib::lemma_len_subset(mapped, range);
    }
}

/// A vertex reported both upstream and downstream of a target lies on a cycle through
/// it: the target reaches it along callees, and it reaches the target (a walk along
/// callers from the target), each within the depth bound.
pub proof fn lemma_impact_overlap_cycle(g: ArborGraph, t: int, d: nat, up: Seq<AffectedNode>, down: Seq<AffectedNode>, a: int, b: int)
    requires
        impact_side(g, WalkDir::Callers, t, d, up),
        impact_side(g, WalkDir::Callees, t, d, down),
        0 <= a < up.len(),
        0 <= b < down.len(),
        up[a].node_id == down[b].node_id,
    ensures
        crate::reach::within(g.edges_view(), g.nodes_view().len() as int, WalkDir::Callees, t, down[b].node_id.index as int, d),
        crate::reach::within(g.edges_view(), g.nodes_view().len() as int, WalkDir::Callers, t, down[b].node_id.index as int, d),
{
    let n = g.nodes_view().len() as int;
    let uf = up.map_values(|x: AffectedNode| x.node_id.index);
    let uh = up.map_values(|x: AffectedNode| x.hop_distance);
    let df = down.map_values(|x: AffectedNode| x.node_id.index);
    let dh = down.map_values(|x: AffectedNode| x.hop_distance);
    assert(uf[a] == up[a].node_id.index && uh[a] == up[a].hop_distance);
    assert(df[b] == down[b].node_id.index && dh[b] == down[b].hop_distance);
    crate::reach::lemma_within_mono_pub(g.edges_view(), n, WalkDir::Callers, t, uf[a] as int, uh[a] as nat, d);
    crate::reach::lemma_within_mono_pub(g.edges_view(), n, WalkDir::Callees, t, df[b] as int, dh[b] as nat, d);
}

/// No vertex of an impact result lies farther than the depth bound.
pub proof fn lemma_impact_bounds(g: ArborGraph, dir: WalkDir, t: int, d: nat, recs: Seq<AffectedNode>)
    requires
        impact_side(g, dir, t, d, recs),
    ensures
        forall|j: int| 0 <= j < recs.len() ==> 1 <= #[trigger] recs[j].hop_distance <= d,
{
    let hs = recs.map_values(|x: AffectedNode| x.hop_distance);
    let fs = recs.map_values(|x: AffectedNode| x.node_id.index);
    assert forall|j: int| 0 <= j < recs.len() implies 1 <= #[trigger] recs[j].hop_distance <= d by {
        assert(hs[j] == recs[j].hop_distance);
        assert(fs[j] == recs[j].node_id.index);
    }
}

} // verus!
