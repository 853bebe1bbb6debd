//! The in-memory directed multigraph of code entities.
use vstd::prelude::*;
use crate::node::CodeNode;

verus! {

/// Position of a vertex in its graph.
#[derive(Clone, Copy, Debug, PartialEq, Eq, Hash, Structural)]
pub struct NodeId {
    pub index: usize,
}

impl NodeId {
    pub fn new(index: usize) -> (r: NodeId)
        ensures
            r.index == index,
    {
        NodeId { index }
    }

    pub fn index(&self) -> (r: usize)
        ensures
            r == self.index,
    {
        self.index
    }
}

/// The relationship an edge records.
#[derive(Clone, Copy, Debug, PartialEq, Eq, Hash, Structural)]
pub enum EdgeKind {
    Calls,
    Imports,
    Extends,
    Implements,
    Contains,
}

#[derive(Clone, Copy, Debug, PartialEq, Eq, Structural)]
pub struct Edge {
    pub kind: EdgeKind,
}

impl Edge {
    pub fn new(kind: EdgeKind) -> (r: Edge)
        ensures
            r.kind == kind,
    {
        Edge { kind }
    }
}

/// One directed edge between two vertices.
#[derive(Clone, Copy, Debug, PartialEq, Eq, Structural)]
pub struct GraphEdge {
    pub from: NodeId,
    pub to: NodeId,
    pub edge: Edge,
}

/// The vertices, in insertion order, and the edges between them, with a
/// centrality score per vertex (fixed point: `CENTRALITY_ONE` stands for 1.0).
pub struct ArborGraph {
    nodes: Vec<CodeNode>,
    edges: Vec<GraphEdge>,
    centrality: Vec<u64>,
}

/// Whether `e` is a `Calls` edge.
pub open spec fn is_call(e: GraphEdge) -> bool {
    e.edge.kind == EdgeKind::Calls
}

/// The targets of the `Calls` edges leaving `n`, in edge order.
pub open spec fn callees_in(edges: Seq<GraphEdge>, n: usize) -> Seq<usize>
    decreases edges.len(),
{
    if edges.len() == 0 {
        Seq::empty()
    } else {
        let rest = callees_in(edges.drop_last(), n);
        let e = edges.last();
        if e.from.index == n && is_call(e) {
            rest.push(e.to.index)
        } else {
            rest
        }
    }
}

/// The sources of the `Calls` edges entering `n`, in edge order.
pub open spec fn callers_in(edges: Seq<GraphEdge>, n: usize) -> Seq<usize>
    decreases edges.len(),
{
    if edges.len() == 0 {
        Seq::empty()
    } else {
        let rest = callers_in(edges.drop_last(), n);
        let e = edges.last();
        if e.to.index == n && is_call(e) {
            rest.push(e.from.index)
        } else {
            rest
        }
    }
}

/// The vertices joined to `n` by any edge, either way: for each edge in order,
/// the source of an edge entering `n`, then the target of an edge leaving it.
pub open spec fn neighbors_in(edges: Seq<GraphEdge>, n: usize) -> Seq<usize>
    decreases edges.len(),
{
    if edges.len() == 0 {
        Seq::empty()
    } else {
        let rest = neighbors_in(edges.drop_last(), n);
        let e = edges.last();
        let r1 = if e.to.index == n { rest.push(e.from.index) } else { rest };
        if e.from.index == n { r1.push(e.to.index) } else { r1 }
    }
}

/// There is a `Calls` edge from `u` to `v`.
pub open spec fn calls_edge(edges: Seq<GraphEdge>, u: int, v: int) -> bool {
    exists|k: int|
        0 <= k < edges.len() && #[trigger] edges[k].from.index == u && edges[k].to.index == v
            && is_call(edges[k])
}

pub proof fn lemma_callees_in(edges: Seq<GraphEdge>, n: usize)
    ensures
        forall|j: int|
            0 <= j < callees_in(edges, n).len() ==> calls_edge(edges, n as int, #[trigger] callees_in(edges, n)[j] as int),
        forall|k: int|
            0 <= k < edges.len() && edges[k].from.index == n && is_call(edges[k]) ==>
                callees_in(edges, n).contains(#[trigger] edges[k].to.index),
    decreases edges.len(),
{
    if edges.len() > 0 {
        let pre = edges.drop_last();
        lemma_callees_in(pre, n);
        assert forall|j: int| 0 <= j < callees_in(edges, n).len() implies calls_edge(edges, n as int, #[trigger] callees_in(edges, n)[j] as int) by {
            let rest = callees_in(pre, n);
            if j < rest.len() {
                let k = choose|k: int| 0 <= k < pre.len() && #[trigger] pre[k].from.index == n && pre[k].to.index == rest[j] && is_call(pre[k]);
                assert(edges[k] == pre[k]);
            } else {
                assert(edges[edges.len() - 1].from.index == n);
            }
        }
        assert forall|k: int| 0 <= k < edges.len() && edges[k].from.index == n && is_call(edges[k]) implies
            callees_in(edges, n).contains(#[trigger] edges[k].to.index) by {
            let rest = callees_in(pre, n);
            if k < pre.len() {
                assert(pre[k] == edges[k]);
                assert(rest.contains(pre[k].to.index));
                let j = choose|j: int| 0 <= j < rest.len() && rest[j] == edges[k].to.index;
                assert(callees_in(edges, n)[j] == edges[k].to.index);
            } else {
                assert(callees_in(edges, n).last() == edges[k].to.index);
            }
        }
    }
}

pub proof fn lemma_callers_in(edges: Seq<GraphEdge>, n: usize)
    ensures
        forall|j: int|
            0 <= j < callers_in(edges, n).len() ==> calls_edge(edges, #[trigger] callers_in(edges, n)[j] as int, n as int),
        forall|k: int|
            0 <= k < edges.len() && edges[k].to.index == n && is_call(edges[k]) ==>
                callers_in(edges, n).contains(#[trigger] edges[k].from.index),
    decreases edges.len(),
{
    if edges.len() > 0 {
        let pre = edges.drop_last();
        lemma_callers_in(pre, n);
        assert forall|j: int| 0 <= j < callers_in(edges, n).len() implies calls_edge(edges, #[trigger] callers_in(edges, n)[j] as int, n as int) by {
            let rest = callers_in(pre, n);
            if j < rest.len() {
                let k = choose|k: int| 0 <= k < pre.len() && #[trigger] pre[k].from.index == rest[j] && pre[k].to.index == n && is_call(pre[k]);
                assert(edges[k] == pre[k]);
            } else {
                assert(edges[edges.len() - 1].to.index == n);
            }
        }
        assert forall|k: int| 0 <= k < edges.len() && edges[k].to.index == n && is_call(edges[k]) implies
            callers_in(edges, n).contains(#[trigger] edges[k].from.index) by {
            let rest = callers_in(pre, n);
            if k < pre.len() {
                assert(pre[k] == edges[k]);
                assert(rest.contains(pre[k].from.index));
                let j = choose|j: int| 0 <= j < rest.len() && rest[j] == edges[k].from.index;
                assert(callers_in(edges, n)[j] == edges[k].from.index);
            } else {
                assert(callers_in(edges, n).last() == edges[k].from.index);
            }
        }
    }
}

/// There is an edge of any kind between `u` and `v`, either way.
pub open spec fn linked(edges: Seq<GraphEdge>, u: int, v: int) -> bool {
    exists|k: int|
        0 <= k < edges.len() && ((#[trigger] edges[k].from.index == u && edges[k].to.index == v)
            || (edges[k].from.index == v && edges[k].to.index == u))
}

pub proof fn lemma_neighbors_in(edges: Seq<GraphEdge>, n: usize)
    ensures
        forall|j: int|
            0 <= j < neighbors_in(edges, n).len() ==> linked(edges, n as int, #[trigger] neighbors_in(edges, n)[j] as int),
        forall|v: int| linked(edges, n as int, v) ==> exists|j: int|
            0 <= j < neighbors_in(edges, n).len() && #[trigger] neighbors_in(edges, n)[j] as int == v,
    decreases edges.len(),
{
    if edges.len() > 0 {
        let pre = edges.drop_last();
        lemma_neighbors_in(pre, n);
        let rest = neighbors_in(pre, n);
        let e = edges.last();
        let r1 = if e.to.index == n { rest.push(e.from.index) } else { rest };
        let r2 = if e.from.index == n { r1.push(e.to.index) } else { r1 };
        assert(neighbors_in(edges, n) == r2);
        assert forall|j: int| 0 <= j < r2.len() implies linked(edges, n as int, #[trigger] r2[j] as int) by {
            if j < rest.len() {
                assert(r2[j] == rest[j]);
                let k = choose|k: int| 0 <= k < pre.len() && ((#[trigger] pre[k].from.index == n && pre[k].to.index == rest[j])
                    || (pre[k].from.index == rest[j] && pre[k].to.index == n));
                assert(edges[k] == pre[k]);
            } else {
                assert(edges[edges.len() - 1] == e);
            }
        }
        assert forall|v: int| linked(edges, n as int, v) implies exists|j: int|
            0 <= j < r2.len() && #[trigger] r2[j] as int == v by {
            let k = choose|k: int| 0 <= k < edges.len() && ((#[trigger] edges[k].from.index == n && edges[k].to.index == v)
                || (edges[k].from.index == v && edges[k].to.index == n));
            if k < pre.len() {
                assert(pre[k] == edges[k]);
                assert(linked(pre, n as int, v));
                let j = choose|j: int| 0 <= j < rest.len() && #[trigger] rest[j] as int == v;
                assert(r2[j] == rest[j]);
            } else {
                assert(edges[k] == e);
                if e.to.index == n && e.from.index as int == v {
                    assert(r1[r1.len() - 1] as int == v);
                    assert(r2[r1.len() - 1] == r1[r1.len() - 1]);
                } else {
                    assert(r2[r2.len() - 1] as int == v);
                }
            }
        }
    }
}

pub proof fn lemma_neighbors_bounded(edges: Seq<GraphEdge>, n: usize, bound: int)
    requires
        forall|k: int| 0 <= k < edges.len() ==> (#[trigger] edges[k]).from.index < bound && edges[k].to.index < bound,
    ensures
        forall|j: int| 0 <= j < neighbors_in(edges, n).len() ==> #[trigger] neighbors_in(edges, n)[j] < bound,
    decreases edges.len(),
{
    if edges.len() > 0 {
        let pre = edges.drop_last();
        assert forall|k: int| 0 <= k < pre.len() implies (#[trigger] pre[k]).from.index < bound && pre[k].to.index < bound by {
            assert(pre[k] == edges[k]);
        }
        lemma_neighbors_bounded(pre, n, bound);
        let rest = neighbors_in(pre, n);
        let e = edges.last();
        assert(e == edges[edges.len() - 1]);
        assert(e.from.index < bound && e.to.index < bound);
        let r1 = if e.to.index == n { rest.push(e.from.index) } else { rest };
        assert forall|j: int| 0 <= j < r1.len() implies r1[j] < bound by {
            if j < rest.len() {
                assert(r1[j] == rest[j]);
            }
        }
        let r2 = if e.from.index == n { r1.push(e.to.index) } else { r1 };
        assert(neighbors_in(edges, n) == r2);
        assert forall|j: int| 0 <= j < r2.len() implies r2[j] < bound by {
            if j < r1.len() {
                assert(r2[j] == r1[j]);
            }
        }
    }
}

impl ArborGraph {
    pub closed spec fn nodes_view(&self) -> Seq<CodeNode> {
        self.nodes@
    }

    pub closed spec fn edges_view(&self) -> Seq<GraphEdge> {
        self.edges@
    }

    pub closed spec fn centrality_view(&self) -> Seq<u64> {
        self.centrality@
    }

    /// Every edge joins two present vertices, vertex identities are distinct, and
    /// there is one score per vertex.
    pub open spec fn wf(&self) -> bool {
        &&& forall|k: int|
            0 <= k < self.edges_view().len() ==> (#[trigger] self.edges_view()[k]).from.index
                < self.nodes_view().len() && self.edges_view()[k].to.index
                < self.nodes_view().len()
        &&& forall|i: int, j: int|
            0 <= i < self.nodes_view().len() && 0 <= j < self.nodes_view().len() && i != j
                ==> (#[trigger] self.nodes_view()[i]).id@ != (#[trigger] self.nodes_view()[j]).id@
        &&& self.centrality_view().len() == self.nodes_view().len()
    }

    /// No edge runs from a vertex to itself.
    pub open spec fn no_self_edges(&self) -> bool {
        forall|k: int|
            0 <= k < self.edges_view().len() ==> (#[trigger] self.edges_view()[k]).from.index
                != self.edges_view()[k].to.index
    }

    pub fn new() -> (r: ArborGraph)
        ensures
            r.wf(),
            r.nodes_view().len() == 0,
            r.edges_view().len() == 0,
    {
        ArborGraph { nodes: Vec::new(), edges: Vec::new(), centrality: Vec::new() }
    }

    pub fn node_count(&self) -> (r: usize)
        ensures
            r == self.nodes_view().len(),
    {
        self.nodes.len()
    }

    pub fn edge_count(&self) -> (r: usize)
        ensures
            r == self.edges_view().len(),
    {
        self.edges.len()
    }

    /// Position of the vertex whose identity is `id`, if any.
    pub fn find_id(&self, id: &String) -> (r: Option<usize>)
        ensures
            match r {
                Some(i) => i < self.nodes_view().len() && self.nodes_view()[i as int].id@ == id@,
                None => forall|i: int|
                    0 <= i < self.nodes_view().len() ==> (#[trigger] self.nodes_view()[i]).id@ != id@,
            },
    {
        let mut i: usize = 0;
        while i < self.nodes.len()
            invariant
                i <= self.nodes@.len(),
                forall|j: int| 0 <= j < i ==> (#[trigger] self.nodes@[j]).id@ != id@,
            decreases self.nodes@.len() - i,
        {
            if self.nodes[i].id == *id {
                return Some(i);
            }
            i = i + 1;
        }
        None
    }

    /// Adds a vertex. When a vertex with the same identity is present, the graph is
    /// left as it is and that vertex's position is returned.
    pub fn add_node(&mut self, node: CodeNode) -> (r: NodeId)
        requires
            old(self).wf(),
        ensures
            final(self).wf(),
            final(self).edges_view() == old(self).edges_view(),
            r.index < final(self).nodes_view().len(),
            final(self).nodes_view()[r.index as int].id@ == node.id@,
            (exists|i: int|
                0 <= i < old(self).nodes_view().len() && (#[trigger] old(self).nodes_view()[i]).id@
                    == node.id@) ==> final(self).nodes_view() == old(self).nodes_view()
                && final(self).centrality_view() == old(self).centrality_view(),
            (forall|i: int|
                0 <= i < old(self).nodes_view().len() ==> (#[trigger] old(self).nodes_view()[i]).id@
                    != node.id@) ==> final(self).nodes_view() == old(self).nodes_view().push(node)
                && final(self).centrality_view() == old(self).centrality_view().push(0),
    {
        match self.find_id(&node.id) {
            Some(i) => NodeId { index: i },
            None => {
                let idx = self.nodes.len();
                self.nodes.push(node);
                self.centrality.push(0);
                proof {
                    assert forall|i: int, j: int|
                        0 <= i < self.nodes@.len() && 0 <= j < self.nodes@.len() && i != j
                            implies (#[trigger] self.nodes@[i]).id@ != (#[trigger] self.nodes@[j]).id@ by {
                        if i < idx && j < idx {
                            assert(old(self).nodes@[i] == self.nodes@[i]);
                            assert(old(self).nodes@[j] == self.nodes@[j]);
                        } else if i < idx {
                            assert(old(self).nodes@[i] == self.nodes@[i]);
                        } else {
                            assert(old(self).nodes@[j] == self.nodes@[j]);
                        }
                    }
                }
                NodeId { index: idx }
            },
        }
    }

    /// Adds an edge between two present vertices.
    pub fn add_edge(&mut self, from: NodeId, to: NodeId, edge: Edge)
        requires
            old(self).wf(),
            from.index < old(self).nodes_view().len(),
            to.index < old(self).nodes_view().len(),
        ensures
            final(self).wf(),
            final(self).nodes_view() == old(self).nodes_view(),
            final(self).centrality_view() == old(self).centrality_view(),
            final(self).edges_view() == old(self).edges_view().push(
                GraphEdge { from, to, edge },
            ),
    {
        self.edges.push(GraphEdge { from, to, edge });
    }

    /// Replaces every edge with `edges`, whose endpoints are present vertices.
    pub fn replace_edges(&mut self, edges: Vec<GraphEdge>)
        requires
            old(self).wf(),
            forall|k: int| 0 <= k < edges@.len() ==> (#[trigger] edges@[k]).from.index < old(self).nodes_view().len()
                && edges@[k].to.index < old(self).nodes_view().len(),
        ensures
            final(self).wf(),
            final(self).nodes_view() == old(self).nodes_view(),
            final(self).centrality_view() == old(self).centrality_view(),
            final(self).edges_view() == edges@,
    {
        self.edges = edges;
    }

    /// The vertex at `id`, if present.
    pub fn get(&self, id: NodeId) -> (r: Option<&CodeNode>)
        ensures
            id.index < self.nodes_view().len() ==> r == Some(&self.nodes_view()[id.index as int]),
            id.index >= self.nodes_view().len() ==> r.is_none(),
    {
        if id.index < self.nodes.len() {
            Some(&self.nodes[id.index])
        } else {
            None
        }
    }

    /// The vertex whose identity is `key`, or else the first whose qualified name is `key`.
    pub fn get_index(&self, key: &str) -> (r: Option<NodeId>)
        ensures
            match r {
                Some(n) => n.index < self.nodes_view().len() && (self.nodes_view()[n.index as int].id@
                    == key@ || self.nodes_view()[n.index as int].qualified_name@ == key@),
                None => forall|i: int|
                    0 <= i < self.nodes_view().len() ==> (#[trigger] self.nodes_view()[i]).id@ != key@
                        && self.nodes_view()[i].qualified_name@ != key@,
            },
            (exists|i: int|
                0 <= i < self.nodes_view().len() && (#[trigger] self.nodes_view()[i]).id@ == key@)
                ==> r.is_some() && self.nodes_view()[r.unwrap().index as int].id@ == key@,
    {
        let k = String::from_str(key);
        match self.find_id(&k) {
            Some(i) => Some(NodeId { index: i }),
            None => {
                let mut i: usize = 0;
                while i < self.nodes.len()
                    invariant
                        i <= self.nodes@.len(),
                        k@ == key@,
                        forall|j: int| 0 <= j < self.nodes@.len() ==> (#[trigger] self.nodes@[j]).id@ != key@,
                        forall|j: int| 0 <= j < i ==> (#[trigger] self.nodes@[j]).qualified_name@ != key@,
                    decreases self.nodes@.len() - i,
                {
                    if self.nodes[i].qualified_name == k {
                        return Some(NodeId { index: i });
                    }
                    i = i + 1;
                }
                None
            },
        }
    }

    /// Positions of the vertices whose short name is `name`, in insertion order.
    pub fn find_by_name(&self, name: &str) -> (r: Vec<NodeId>)
        ensures
            forall|j: int| 0 <= j < r@.len() ==> (#[trigger] r@[j]).index < self.nodes_view().len()
                && self.nodes_view()[r@[j].index as int].name@ == name@,
            forall|i: int| 0 <= i < self.nodes_view().len() && (#[trigger] self.nodes_view()[i]).name@ == name@
                ==> r@.contains(NodeId { index: i as usize }),
    {
        let k = String::from_str(name);
        let mut out: Vec<NodeId> = Vec::new();
        let mut i: usize = 0;
        while i < self.nodes.len()
            invariant
                i <= self.nodes@.len(),
                k@ == name@,
                forall|j: int| 0 <= j < out@.len() ==> (#[trigger] out@[j]).index < self.nodes@.len()
                    && self.nodes@[out@[j].index as int].name@ == name@,
                forall|m: int| 0 <= m < i && (#[trigger] self.nodes@[m]).name@ == name@
                    ==> out@.contains(NodeId { index: m as usize }),
            decreases self.nodes@.len() - i,
        {
            let ghost old_out = out@;
            if self.nodes[i].name == k {
                out.push(NodeId { index: i });
            }
            proof {
                assert forall|m: int| 0 <= m < i + 1 && (#[trigger] self.nodes@[m]).name@ == name@
                    implies out@.contains(NodeId { index: m as usize }) by {
                    if m < i {
                        assert(old_out.contains(NodeId { index: m as usize }));
                        let w = choose|w: int| 0 <= w < old_out.len() && old_out[w] == NodeId { index: m as usize };
                        assert(out@[w] == old_out[w]);
                    } else {
                        assert(out@[out@.len() - 1] == NodeId { index: i });
                    }
                }
            }
            i = i + 1;
        }
        out
    }

    /// Targets of the `Calls` edges leaving `id`, in edge order (repeated for parallel edges).
    pub fn callees_of(&self, id: NodeId) -> (r: Vec<NodeId>)
        ensures
            r@.len() == callees_in(self.edges_view(), id.index).len(),
            forall|j: int| 0 <= j < r@.len() ==> (#[trigger] r@[j]).index == callees_in(self.edges_view(), id.index)[j],
    {
        let mut out: Vec<NodeId> = Vec::new();
        let mut k: usize = 0;
        while k < self.edges.len()
            invariant
                k <= self.edges@.len(),
                out@.len() == callees_in(self.edges@.subrange(0, k as int), id.index).len(),
                forall|j: int| 0 <= j < out@.len() ==> (#[trigger] out@[j]).index == callees_in(self.edges@.subrange(0, k as int), id.index)[j],
            decreases self.edges@.len() - k,
        {
            let e = self.edges[k];
            assert(self.edges@.subrange(0, k + 1).drop_last() =~= self.edges@.subrange(0, k as int));
            if e.from.index == id.index && e.edge.kind == EdgeKind::Calls {
                out.push(e.to);
            }
            k = k + 1;
        }
        assert(self.edges@.subrange(0, k as int) =~= self.edges@);
        out
    }

    /// Sources of the `Calls` edges entering `id`, in edge order (repeated for parallel edges).
    pub fn callers_of(&self, id: NodeId) -> (r: Vec<NodeId>)
        ensures
            r@.len() == callers_in(self.edges_view(), id.index).len(),
            forall|j: int| 0 <= j < r@.len() ==> (#[trigger] r@[j]).index == callers_in(self.edges_view(), id.index)[j],
    {
        let mut out: Vec<NodeId> = Vec::new();
        let mut k: usize = 0;
        while k < self.edges.len()
            invariant
                k <= self.edges@.len(),
                out@.len() == callers_in(self.edges@.subrange(0, k as int), id.index).len(),
                forall|j: int| 0 <= j < out@.len() ==> (#[trigger] out@[j]).index == callers_in(self.edges@.subrange(0, k as int), id.index)[j],
            decreases self.edges@.len() - k,
        {
            let e = self.edges[k];
            assert(self.edges@.subrange(0, k + 1).drop_last() =~= self.edges@.subrange(0, k as int));
            if e.to.index == id.index && e.edge.kind == EdgeKind::Calls {
                out.push(e.from);
            }
            k = k + 1;
        }
        assert(self.edges@.subrange(0, k as int) =~= self.edges@);
        out
    }

    /// Vertices joined to `id` by an edge of any kind, in either direction.
    pub fn neighbors_of(&self, id: NodeId) -> (r: Vec<NodeId>)
        ensures
            r@.len() == neighbors_in(self.edges_view(), id.index).len(),
            forall|j: int| 0 <= j < r@.len() ==> (#[trigger] r@[j]).index == neighbors_in(self.edges_view(), id.index)[j],
    {
        let mut out: Vec<NodeId> = Vec::new();
        let mut k: usize = 0;
        while k < self.edges.len()
            invariant
                k <= self.edges@.len(),
                out@.len() == neighbors_in(self.edges@.subrange(0, k as int), id.index).len(),
                forall|j: int| 0 <= j < out@.len() ==> (#[trigger] out@[j]).index == neighbors_in(self.edges@.subrange(0, k as int), id.index)[j],
            decreases self.edges@.len() - k,
        {
            let e = self.edges[k];
            assert(self.edges@.subrange(0, k + 1).drop_last() =~= self.edges@.subrange(0, k as int));
            if e.to.index == id.index {
                out.push(e.from);
            }
            if e.from.index == id.index {
                out.push(e.to);
            }
            k = k + 1;
        }
        assert(self.edges@.subrange(0, k as int) =~= self.edges@);
        out
    }

    /// Vertices with a `Calls` edge into `id`.
    pub fn get_callers(&self, id: NodeId) -> (r: Vec<&CodeNode>)
        requires
            self.wf(),
        ensures
            r@.len() == callers_in(self.edges_view(), id.index).len(),
            forall|j: int| 0 <= j < r@.len() ==> *(#[trigger] r@[j]) == self.nodes_view()[callers_in(self.edges_view(), id.index)[j] as int],
    {
        let ids = self.callers_of(id);
        proof { lemma_callers_in(self.edges@, id.index); }
        self.resolve_all(&ids)
    }

    /// Vertices that `id` has a `Calls` edge into.
    pub fn get_callees(&self, id: NodeId) -> (r: Vec<&CodeNode>)
        requires
            self.wf(),
        ensures
            r@.len() == callees_in(self.edges_view(), id.index).len(),
            forall|j: int| 0 <= j < r@.len() ==> *(#[trigger] r@[j]) == self.nodes_view()[callees_in(self.edges_view(), id.index)[j] as int],
    {
        let ids = self.callees_of(id);
        proof { lemma_callees_in(self.edges@, id.index); }
        self.resolve_all(&ids)
    }

    fn resolve_all(&self, ids: &Vec<NodeId>) -> (r: Vec<&CodeNode>)
        requires
            forall|j: int| 0 <= j < ids@.len() ==> (#[trigger] ids@[j]).index < self.nodes@.len(),
        ensures
            r@.len() == ids@.len(),
            forall|j: int| 0 <= j < r@.len() ==> *(#[trigger] r@[j]) == self.nodes@[ids@[j].index as int],
    {
        let mut out: Vec<&CodeNode> = Vec::new();
        let mut j: usize = 0;
        while j < ids.len()
            invariant
                j <= ids@.len(),
                forall|m: int| 0 <= m < ids@.len() ==> (#[trigger] ids@[m]).index < self.nodes@.len(),
                out@.len() == j,
                forall|m: int| 0 <= m < j ==> *(#[trigger] out@[m]) == self.nodes@[ids@[m].index as int],
            decreases ids@.len() - j,
        {
            out.push(&self.nodes[ids[j].index]);
            j = j + 1;
        }
        out
    }

    /// The stored centrality of `id` (0 when unknown).
    pub fn centrality(&self, id: NodeId) -> (r: u64)
        ensures
            id.index < self.centrality_view().len() ==> r == self.centrality_view()[id.index as int],
            id.index >= self.centrality_view().len() ==> r == 0,
    {
        if id.index < self.centrality.len() {
            self.centrality[id.index]
        } else {
            0
        }
    }

    /// Stores one centrality score per vertex.
    pub fn set_centrality(&mut self, scores: Vec<u64>)
        requires
            old(self).wf(),
            scores@.len() == old(self).nodes_view().len(),
        ensures
            final(self).wf(),
            final(self).nodes_view() == old(self).nodes_view(),
            final(self).edges_view() == old(self).edges_view(),
            final(self).centrality_view() == scores@,
    {
        self.centrality = scores;
    }

    /// All vertices, in insertion order.
    pub fn nodes(&self) -> (r: &Vec<CodeNode>)
        ensures
            r@ == self.nodes_view(),
    {
        &self.nodes
    }

    /// All edges, in insertion order.
    pub fn edges(&self) -> (r: &Vec<GraphEdge>)
        ensures
            r@ == self.edges_view(),
    {
        &self.edges
    }
}

/// In a well-formed graph without self-edges, every edge joins two vertices of different
/// identity.
pub proof fn lemma_edges_join_distinct_ids(g: ArborGraph)
    requires
        g.wf(),
        g.no_self_edges(),
    ensures
        forall|k: int| 0 <= k < g.edges_view().len() ==> (#[trigger] g.edges_view()[k]).from.index < g.nodes_view().len()
            && g.edges_view()[k].to.index < g.nodes_view().len()
            && g.nodes_view()[g.edges_view()[k].from.index as int].id@ != g.nodes_view()[g.edges_view()[k].to.index as int].id@,
{
    assert forall|k: int| 0 <= k < g.edges_view().len() implies (#[trigger] g.edges_view()[k]).from.index < g.nodes_view().len()
        && g.edges_view()[k].to.index < g.nodes_view().len()
        && g.nodes_view()[g.edges_view()[k].from.index as int].id@ != g.nodes_view()[g.edges_view()[k].to.index as int].id@ by {
        let i = g.edges_view()[k].from.index as int;
        let j = g.edges_view()[k].to.index as int;
        assert(i != j);
        assert(g.nodes_view()[i].id@ != g.nodes_view()[j].id@);
    }
}

/// Vertex `n` matches `query` (already lower-cased) by name or qualified name, ignoring case.
pub open spec fn search_hit(n: CodeNode, query: Seq<char>) -> bool {
    crate::text::contains_seq(crate::text::lower_of(n.name@), query)
        || crate::text::contains_seq(crate::text::lower_of(n.qualified_name@), query)
}

impl ArborGraph {
    /// The first `limit` vertices, in insertion order, whose name or qualified name holds
    /// `query`, ignoring case.
    pub fn search(&self, query: &str, limit: usize) -> (r: Vec<NodeId>)
        ensures
            r@.len() <= limit,
            forall|j: int| 0 <= j < r@.len() ==> (#[trigger] r@[j]).index < self.nodes_view().len()
                && search_hit(self.nodes_view()[r@[j].index as int], crate::text::lower_of(query@)),
            forall|a: int, b: int| 0 <= a < b < r@.len() ==> (#[trigger] r@[a]).index < (#[trigger] r@[b]).index,
            r@.len() < limit ==> forall|i: int| 0 <= i < self.nodes_view().len()
                && search_hit(#[trigger] self.nodes_view()[i], crate::text::lower_of(query@))
                ==> r@.contains(NodeId { index: i as usize }),
    {
        let q = crate::text::lowercase(query);
        let qc = crate::text::chars_of(q.as_str());
        let mut out: Vec<NodeId> = Vec::new();
        let mut i: usize = 0;
        while i < self.nodes.len() && out.len() < limit
            invariant
                i <= self.nodes@.len(),
                qc@ == crate::text::lower_of(query@),
                out@.len() <= limit,
                forall|j: int| 0 <= j < out@.len() ==> (#[trigger] out@[j]).index < i
                    && search_hit(self.nodes@[out@[j].index as int], qc@),
                forall|a: int, b: int| 0 <= a < b < out@.len() ==> (#[trigger] out@[a]).index < (#[trigger] out@[b]).index,
                forall|m: int| 0 <= m < i && search_hit(#[trigger] self.nodes@[m], qc@) ==> out@.contains(NodeId { index: m as usize }),
            decreases self.nodes@.len() - i,
        {
            let name = crate::text::chars_of(crate::text::lowercase(self.nodes[i].name.as_str()).as_str());
            let qn = crate::text::chars_of(crate::text::lowercase(self.nodes[i].qualified_name.as_str()).as_str());
            let ghost before = out@;
            if crate::text::contains_chars(&name, &qc) || crate::text::contains_chars(&qn, &qc) {
                out.push(NodeId { index: i });
                proof {
                    assert forall|m: int| 0 <= m < i + 1 && search_hit(#[trigger] self.nodes@[m], qc@) implies out@.contains(NodeId { index: m as usize }) by {
                        if m < i {
                            let w = choose|w: int| 0 <= w < before.len() && before[w] == NodeId { index: m as usize };
                            assert(out@[w] == before[w]);
                        } else {
                            assert(out@[out@.len() - 1] == NodeId { index: m as usize });
                        }
                    }
                }
            }
            i = i + 1;
        }
        out
    }
}

} // verus!
