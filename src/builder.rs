//! Two-pass graph construction: ingest vertices, then resolve reference names into
//! `Calls` edges.
use vstd::prelude::*;
use crate::graph::{ArborGraph, Edge, EdgeKind, GraphEdge, NodeId};
use crate::node::CodeNode;
use crate::symbol_table::{lemma_resolution, lemma_resolution_registered, resolution, Symbol, SymbolTable};

verus! {

/// The reference names of a vertex, as character sequences.
pub open spec fn refs_of(n: CodeNode) -> Seq<Seq<char>> {
    n.references@.map_values(|s: String| s@)
}

/// The edges that the names `refs` of vertex `i` resolve to, in order: one `Calls`
/// edge per name that resolves to a vertex other than `i`.
pub open spec fn edges_from_refs(
    nodes: Seq<CodeNode>,
    syms: Seq<Symbol>,
    i: int,
    refs: Seq<Seq<char>>,
) -> Seq<GraphEdge>
    decreases refs.len(),
{
    if refs.len() == 0 {
        Seq::empty()
    } else {
        let prev = edges_from_refs(nodes, syms, i, refs.drop_last());
        match resolution(syms, refs.last(), nodes[i].file@) {
            Some(t) => if t.index != i as usize {
                prev.push(
                    GraphEdge {
                        from: NodeId { index: i as usize },
                        to: t,
                        edge: Edge { kind: EdgeKind::Calls },
                    },
                )
            } else {
                prev
            },
            None => prev,
        }
    }
}

/// The edges of the resolve pass over the first `n` vertices, vertex by vertex.
pub open spec fn resolved_edges(nodes: Seq<CodeNode>, syms: Seq<Symbol>, n: int) -> Seq<GraphEdge>
    decreases n,
{
    if n <= 0 {
        Seq::empty()
    } else {
        resolved_edges(nodes, syms, n - 1) + edges_from_refs(nodes, syms, n - 1, refs_of(nodes[n - 1]))
    }
}

/// `n` is one of `nodes`.
pub open spec fn one_of(n: CodeNode, nodes: Seq<CodeNode>) -> bool {
    exists|k: int| 0 <= k < nodes.len() && nodes[k] == n
}

/// Collects vertices and their names, then links them.
pub struct GraphBuilder {
    graph: ArborGraph,
    symbols: SymbolTable,
}

impl GraphBuilder {
    pub closed spec fn graph_view(&self) -> ArborGraph {
        self.graph
    }

    pub closed spec fn symbols_view(&self) -> Seq<Symbol> {
        self.symbols.view()
    }

    /// The graph is well formed and every registered name points at one of its vertices.
    pub closed spec fn wf(&self) -> bool {
        &&& self.graph.wf()
        &&& self.symbols.wf()
        &&& forall|k: int|
            0 <= k < self.symbols.view().len() ==> (#[trigger] self.symbols.view()[k]).id.index
                < self.graph.nodes_view().len()
    }

    /// What a resolve pass leaves: the same vertices and names, and exactly the edges
    /// that the references resolve to.
    pub open spec fn resolve_post(before: &GraphBuilder, after: &GraphBuilder) -> bool {
        &&& after.graph_view().nodes_view() == before.graph_view().nodes_view()
        &&& after.symbols_view() == before.symbols_view()
        &&& after.graph_view().edges_view() == resolved_edges(
            before.graph_view().nodes_view(),
            before.symbols_view(),
            before.graph_view().nodes_view().len() as int,
        )
    }

    /// What ingesting `nodes` leaves: the old vertices stay in place with the same edges;
    /// every given vertex's identity is present and every added vertex is a given one; and
    /// each given vertex's short name, then qualified name, is registered, in its file, as
    /// naming the vertex with its identity.
    pub open spec fn ingested(before: GraphBuilder, after: GraphBuilder, nodes: Seq<CodeNode>) -> bool {
        &&& before.graph_view().nodes_view().is_prefix_of(after.graph_view().nodes_view())
        &&& after.graph_view().edges_view() == before.graph_view().edges_view()
        &&& forall|k: int| 0 <= k < nodes.len() ==> exists|i: int|
            0 <= i < after.graph_view().nodes_view().len()
            && (#[trigger] after.graph_view().nodes_view()[i]).id@ == (#[trigger] nodes[k]).id@
        &&& forall|i: int|
            before.graph_view().nodes_view().len() <= i < after.graph_view().nodes_view().len()
            ==> one_of(#[trigger] after.graph_view().nodes_view()[i], nodes)
        &&& after.symbols_view().len() == before.symbols_view().len() + 2 * nodes.len()
        &&& before.symbols_view().is_prefix_of(after.symbols_view())
        &&& forall|k: int| 0 <= k < nodes.len() ==> {
            let a = #[trigger] after.symbols_view()[before.symbols_view().len() + 2 * k];
            let b = after.symbols_view()[before.symbols_view().len() + 2 * k + 1];
            &&& a.fqn == nodes[k].name@ && a.file == nodes[k].file@
            &&& b.fqn == nodes[k].qualified_name@ && b.file == nodes[k].file@
            &&& a.id == b.id
            &&& a.id.index < after.graph_view().nodes_view().len()
            &&& after.graph_view().nodes_view()[a.id.index as int].id@ == nodes[k].id@
        }
    }

    pub fn new() -> (r: GraphBuilder)
        ensures
            r.wf(),
            r.graph_view().nodes_view().len() == 0,
            r.graph_view().edges_view().len() == 0,
            r.symbols_view().len() == 0,
    {
        GraphBuilder { graph: ArborGraph::new(), symbols: SymbolTable::new() }
    }

    /// Ingests `nodes`: each is added to the graph (a vertex whose identity is already
    /// present is kept as it was), and its short name and qualified name are registered,
    /// in that order, as naming that vertex, defined in its file.
    pub fn add_nodes(&mut self, nodes: Vec<CodeNode>)
        requires
            old(self).wf(),
        ensures
            final(self).wf(),
            Self::ingested(*old(self), *final(self), nodes@),
            old(self).graph_view().nodes_view().is_prefix_of(final(self).graph_view().nodes_view()),
            final(self).graph_view().edges_view() == old(self).graph_view().edges_view(),
            forall|k: int| 0 <= k < nodes@.len() ==> exists|i: int|
                0 <= i < final(self).graph_view().nodes_view().len()
                && (#[trigger] final(self).graph_view().nodes_view()[i]).id@ == (#[trigger] nodes@[k]).id@,
            forall|i: int|
                old(self).graph_view().nodes_view().len() <= i < final(self).graph_view().nodes_view().len()
                ==> one_of(#[trigger] final(self).graph_view().nodes_view()[i], nodes@),
            final(self).symbols_view().len() == old(self).symbols_view().len() + 2 * nodes@.len(),
            old(self).symbols_view().is_prefix_of(final(self).symbols_view()),
            forall|k: int| 0 <= k < nodes@.len() ==> {
                let a = #[trigger] final(self).symbols_view()[old(self).symbols_view().len() + 2 * k];
                let b = final(self).symbols_view()[old(self).symbols_view().len() + 2 * k + 1];
                &&& a.fqn == nodes@[k].name@ && a.file == nodes@[k].file@
                &&& b.fqn == nodes@[k].qualified_name@ && b.file == nodes@[k].file@
                &&& a.id == b.id
                &&& final(self).graph_view().nodes_view()[a.id.index as int].id@ == nodes@[k].id@
            },
    {
        let ghost g0 = self.graph.nodes_view();
        let ghost s0 = self.symbols.view();
        let ghost orig = nodes@;
        let len = nodes.len();
        let mut pending = nodes;
        // Reverse once so that popping hands the nodes over in their given order.
        let mut rev: Vec<CodeNode> = Vec::new();
        while pending.len() > 0
            invariant
                len == orig.len(),
                pending@ == orig.subrange(0, pending@.len() as int),
                rev@.len() == len - pending@.len(),
                forall|j: int| 0 <= j < rev@.len() ==> #[trigger] rev@[j] == orig[len - 1 - j],
            decreases pending@.len(),
        {
            let x = pending.pop().unwrap();
            rev.push(x);
            assert(pending@ =~= orig.subrange(0, pending@.len() as int));
        }
        let mut k: usize = 0;
        while k < len
            invariant
                self.wf(),
                0 <= k <= len,
                len == orig.len(),
                rev@.len() == len - k,
                forall|j: int| 0 <= j < rev@.len() ==> #[trigger] rev@[j] == orig[len - 1 - j],
                g0.is_prefix_of(self.graph.nodes_view()),
                self.graph.edges_view() == old(self).graph.edges_view(),
                forall|m: int| 0 <= m < k ==> exists|i: int|
                    0 <= i < self.graph.nodes_view().len()
                    && (#[trigger] self.graph.nodes_view()[i]).id@ == (#[trigger] orig[m]).id@,
                forall|i: int|
                    g0.len() <= i < self.graph.nodes_view().len()
                    ==> exists|m: int| 0 <= m < k && (#[trigger] self.graph.nodes_view()[i]) == (#[trigger] orig[m]),
                self.symbols.view().len() == s0.len() + 2 * k,
                s0.is_prefix_of(self.symbols.view()),
                forall|m: int| 0 <= m < k ==> {
                    let a = #[trigger] self.symbols.view()[s0.len() + 2 * m];
                    let b = self.symbols.view()[s0.len() + 2 * m + 1];
                    &&& a.fqn == orig[m].name@ && a.file == orig[m].file@
                    &&& b.fqn == orig[m].qualified_name@ && b.file == orig[m].file@
                    &&& a.id == b.id
                    &&& self.graph.nodes_view()[a.id.index as int].id@ == orig[m].id@
                },
            decreases len - k,
        {
            let node = rev.pop().unwrap();
            assert(node == orig[k as int]);
            let name = node.name.clone();
            let qualified = node.qualified_name.clone();
            let file = node.file.clone();
            let ghost g1 = self.graph.nodes_view();
            let ghost s1 = self.symbols.view();
            let id = self.graph.add_node(node);
            self.symbols.insert(name, id, file.clone());
            self.symbols.insert(qualified, id, file);
            proof {
                let g2 = self.graph.nodes_view();
                let s2 = self.symbols.view();
                assert(g1.is_prefix_of(g2));
                assert forall|j: int| 0 <= j < s2.len() implies (#[trigger] s2[j]).id.index < g2.len() by {
                    if j < s1.len() {
                        assert(s2[j] == s1[j]);
                    }
                }
                assert forall|m: int| 0 <= m < k + 1 implies exists|i: int|
                    0 <= i < g2.len() && (#[trigger] g2[i]).id@ == (#[trigger] orig[m]).id@ by {
                    if m < k {
                        let i = choose|i: int| 0 <= i < g1.len() && (#[trigger] g1[i]).id@ == orig[m].id@;
                        assert(g2[i] == g1[i]);
                    } else {
                        assert(g2[id.index as int].id@ == orig[m].id@);
                    }
                }
                assert forall|i: int| g0.len() <= i < g2.len() implies exists|m: int|
                    0 <= m < k + 1 && (#[trigger] g2[i]) == (#[trigger] orig[m]) by {
                    if i < g1.len() {
                        assert(g2[i] == g1[i]);
                        let m = choose|m: int| 0 <= m < k && (#[trigger] g1[i]) == (#[trigger] orig[m]);
                    } else {
                        assert(g2 == g1.push(orig[k as int]));
                        assert(g2[i] == orig[k as int]);
                    }
                }
                assert(s0.is_prefix_of(s2)) by {
                    assert forall|j: int| 0 <= j < s0.len() implies s2[j] == s0[j] by {
                        assert(s2[j] == s1[j]);
                    }
                }
                assert forall|m: int| 0 <= m < k + 1 implies {
                    let a = #[trigger] s2[s0.len() + 2 * m];
                    let b = s2[s0.len() + 2 * m + 1];
                    &&& a.fqn == orig[m].name@ && a.file == orig[m].file@
                    &&& b.fqn == orig[m].qualified_name@ && b.file == orig[m].file@
                    &&& a.id == b.id
                    &&& g2[a.id.index as int].id@ == orig[m].id@
                } by {
                    if m < k {
                        assert(s2[s0.len() + 2 * m] == s1[s0.len() + 2 * m]);
                        assert(s2[s0.len() + 2 * m + 1] == s1[s0.len() + 2 * m + 1]);
                        let a = s1[s0.len() + 2 * m];
                        assert(a.id.index < g1.len());
                        assert(g2[a.id.index as int] == g1[a.id.index as int]);
                    }
                }
            }
            k = k + 1;
        }
        proof {
            let g = self.graph.nodes_view();
            assert(orig == nodes@);
            assert forall|i: int|
                old(self).graph_view().nodes_view().len() <= i < self.graph_view().nodes_view().len()
                implies one_of(#[trigger] self.graph_view().nodes_view()[i], nodes@) by {
                let m = choose|m: int| 0 <= m < k && (#[trigger] g[i]) == (#[trigger] orig[m]);
                assert(self.graph_view().nodes_view()[i] == nodes@[m]);
            }
        }
    }

    /// Replaces the graph's edges with one `Calls` edge per reference name that
    /// resolves, from its vertex's file, to another vertex.
    pub fn resolve_edges(&mut self)
        requires
            old(self).wf(),
        ensures
            final(self).wf(),
            Self::resolve_post(old(self), final(self)),
    {
        let ghost nodes = self.graph.nodes_view();
        let ghost syms = self.symbols.view();
        let count = self.graph.node_count();
        let mut out: Vec<GraphEdge> = Vec::new();
        let mut i: usize = 0;
        while i < count
            invariant
                self.wf(),
                nodes == self.graph.nodes_view(),
                syms == self.symbols.view(),
                count == nodes.len(),
                i <= count,
                out@ == resolved_edges(nodes, syms, i as int),
                forall|k: int| 0 <= k < out@.len() ==> (#[trigger] out@[k]).from.index < count
                    && out@[k].to.index < count,
            decreases count - i,
        {
            let node = &self.graph.nodes()[i];
            let refs = &node.references;
            let ghost before = out@;
            let mut j: usize = 0;
            while j < refs.len()
                invariant
                    self.wf(),
                    nodes == self.graph.nodes_view(),
                    syms == self.symbols.view(),
                    count == nodes.len(),
                    i < count,
                    *node == nodes[i as int],
                    refs@ == nodes[i as int].references@,
                    j <= refs@.len(),
                    out@ == before + edges_from_refs(nodes, syms, i as int, refs_of(nodes[i as int]).subrange(0, j as int)),
                    forall|k: int| 0 <= k < out@.len() ==> (#[trigger] out@[k]).from.index < count
                        && out@[k].to.index < count,
                decreases refs@.len() - j,
            {
                let ghost rs = refs_of(nodes[i as int]);
                assert(rs.subrange(0, j + 1).drop_last() =~= rs.subrange(0, j as int));
                assert(rs.subrange(0, j + 1).last() == refs@[j as int]@);
                let target = self.symbols.resolve_with_context(refs[j].as_str(), node.file.as_str());
                proof {
                    lemma_resolution(syms, refs@[j as int]@, nodes[i as int].file@, target);
                }
                match target {
                    Some(t) => {
                        if t.index != i {
                            proof {
                                lemma_resolution_registered(syms, refs@[j as int]@, nodes[i as int].file@, target);
                                let q = choose|q: int| 0 <= q < syms.len() && (#[trigger] syms[q]).id == t;
                                assert(syms[q].id.index < count);
                            }
                            out.push(GraphEdge { from: NodeId { index: i }, to: t, edge: Edge { kind: EdgeKind::Calls } });
                        }
                    },
                    None => {},
                }
                j = j + 1;
            }
            assert(refs_of(nodes[i as int]).subrange(0, j as int) =~= refs_of(nodes[i as int]));
            i = i + 1;
        }
        self.graph.replace_edges(out);
    }

    /// Resolves the edges and hands over the graph.
    pub fn build(self) -> (r: ArborGraph)
        requires
            self.wf(),
        ensures
            r.wf(),
            r.no_self_edges(),
            r.nodes_view() == self.graph_view().nodes_view(),
            r.edges_view() == resolved_edges(
                self.graph_view().nodes_view(),
                self.symbols_view(),
                self.graph_view().nodes_view().len() as int,
            ),
    {
        let mut b = self;
        b.resolve_edges();
        proof {
            lemma_resolved_no_self(b.graph.nodes_view(), b.symbols.view(), b.graph.nodes_view().len() as int);
        }
        b.graph
    }

    /// Hands over the graph as ingested, with no edges resolved.
    pub fn build_without_resolve(self) -> (r: ArborGraph)
        requires
            self.wf(),
        ensures
            r == self.graph_view(),
            r.wf(),
    {
        self.graph
    }
}

proof fn lemma_refs_no_self(nodes: Seq<CodeNode>, syms: Seq<Symbol>, i: int, refs: Seq<Seq<char>>)
    ensures
        forall|k: int| 0 <= k < edges_from_refs(nodes, syms, i, refs).len() ==>
            (#[trigger] edges_from_refs(nodes, syms, i, refs)[k]).from.index != edges_from_refs(nodes, syms, i, refs)[k].to.index,
    decreases refs.len(),
{
    if refs.len() > 0 {
        let prev = edges_from_refs(nodes, syms, i, refs.drop_last());
        lemma_refs_no_self(nodes, syms, i, refs.drop_last());
        let cur = edges_from_refs(nodes, syms, i, refs);
        assert forall|k: int| 0 <= k < cur.len() implies (#[trigger] cur[k]).from.index != cur[k].to.index by {
            if k < prev.len() {
                assert(cur[k] == prev[k]);
            }
        }
    }
}

proof fn lemma_resolved_no_self(nodes: Seq<CodeNode>, syms: Seq<Symbol>, n: int)
    ensures
        forall|k: int| 0 <= k < resolved_edges(nodes, syms, n).len() ==>
            (#[trigger] resolved_edges(nodes, syms, n)[k]).from.index != resolved_edges(nodes, syms, n)[k].to.index,
    decreases n,
{
    if n > 0 {
        lemma_resolved_no_self(nodes, syms, n - 1);
        lemma_refs_no_self(nodes, syms, n - 1, refs_of(nodes[n - 1]));
        let a = resolved_edges(nodes, syms, n - 1);
        let b = edges_from_refs(nodes, syms, n - 1, refs_of(nodes[n - 1]));
        assert forall|k: int| 0 <= k < (a + b).len() implies (#[trigger] (a + b)[k]).from.index != (a + b)[k].to.index by {
            if k < a.len() {
                assert((a + b)[k] == a[k]);
            } else {
                assert((a + b)[k] == b[k - a.len()]);
            }
        }
    }
}

/// A second resolve pass leaves exactly the edges of the first.
pub proof fn lemma_resolve_idempotent(b0: GraphBuilder, b1: GraphBuilder, b2: GraphBuilder)
    requires
        GraphBuilder::resolve_post(&b0, &b1),
        GraphBuilder::resolve_post(&b1, &b2),
    ensures
        b2.graph_view().edges_view() == b1.graph_view().edges_view(),
        b2.graph_view().nodes_view() == b1.graph_view().nodes_view(),
{
}

/// Some vertex of `s` has identity `id`.
pub open spec fn has_id(s: Seq<CodeNode>, id: Seq<char>) -> bool {
    exists|i: int| 0 <= i < s.len() && s[i].id@ == id
}

/// The facts a registration uses of a vertex: name, qualified name, file, identity.
pub open spec fn summary(n: CodeNode) -> (Seq<char>, Seq<char>, Seq<char>, Seq<char>) {
    (n.name@, n.qualified_name@, n.file@, n.id@)
}

/// The vertices of `s` outside `file`, in order.
pub open spec fn outside(s: Seq<CodeNode>, file: Seq<char>) -> Seq<(Seq<char>, Seq<char>, Seq<char>, Seq<char>)>
    decreases s.len(),
{
    if s.len() == 0 {
        Seq::empty()
    } else if s.last().file@ != file {
        outside(s.drop_last(), file).push(summary(s.last()))
    } else {
        outside(s.drop_last(), file)
    }
}

/// `syms` registers, for each vertex of `ins` in turn, its short name and then its
/// qualified name, defined in its file, as naming the vertex of `g` with its identity.
pub open spec fn registers(syms: Seq<Symbol>, ins: Seq<(Seq<char>, Seq<char>, Seq<char>, Seq<char>)>, g: Seq<CodeNode>) -> bool {
    &&& syms.len() == 2 * ins.len()
    &&& forall|k: int| 0 <= k < ins.len() ==> {
        let a = #[trigger] syms[2 * k];
        let b = syms[2 * k + 1];
        &&& a.fqn == ins[k].0 && a.file == ins[k].2
        &&& b.fqn == ins[k].1 && b.file == ins[k].2
        &&& a.id == b.id
        &&& a.id.index < g.len()
        &&& g[a.id.index as int].id@ == ins[k].3
    }
}

impl ArborGraph {
    /// The graph after `file` changed: its vertices replaced by `nodes` (none when it was
    /// deleted), rebuilt from the rest and the new ones so that every edge is resolved
    /// again, as a cold build of the current files would.
    pub fn replace_file(&self, file: &str, nodes: Vec<CodeNode>) -> (r: ArborGraph)
        requires
            self.wf(),
        ensures
            r.wf(),
            r.no_self_edges(),
            forall|j: int| 0 <= j < self.nodes_view().len() && (#[trigger] self.nodes_view()[j]).file@ != file@
                ==> has_id(r.nodes_view(), self.nodes_view()[j].id@),
            forall|k: int| 0 <= k < nodes@.len() ==> has_id(r.nodes_view(), (#[trigger] nodes@[k]).id@),
            forall|i: int| 0 <= i < r.nodes_view().len() ==> has_id(nodes@, (#[trigger] r.nodes_view()[i]).id@)
                || exists|j: int| 0 <= j < self.nodes_view().len() && self.nodes_view()[j].file@ != file@
                    && self.nodes_view()[j].id@ == r.nodes_view()[i].id@,
            exists|syms: Seq<Symbol>| registers(syms, outside(self.nodes_view(), file@) + nodes@.map_values(|n: CodeNode| summary(n)), r.nodes_view())
                && r.edges_view() == #[trigger] resolved_edges(r.nodes_view(), syms, r.nodes_view().len() as int),
    {
        let key = String::from_str(file);
        let all = self.nodes();
        let mut kept: Vec<CodeNode> = Vec::new();
        let mut j: usize = 0;
        while j < all.len()
            invariant
                all@ == self.nodes_view(),
                key@ == file@,
                j <= all@.len(),
                kept@.map_values(|n: CodeNode| summary(n)) == outside(all@.subrange(0, j as int), file@),
                forall|m: int| 0 <= m < kept@.len() ==> exists|x: int| 0 <= x < all@.len() && all@[x].file@ != file@
                    && all@[x].id@ == (#[trigger] kept@[m]).id@,
                forall|x: int| 0 <= x < j && (#[trigger] all@[x]).file@ != file@ ==> has_id(kept@, all@[x].id@),
            decreases all@.len() - j,
        {
            proof {
                assert(all@.subrange(0, j + 1).drop_last() =~= all@.subrange(0, j as int));
            }
            let ghost before0 = kept@;
            if all[j].file != key {
                let ghost before = kept@;
                kept.push(all[j].snapshot());
                proof {
                    assert forall|x: int| 0 <= x < j + 1 && (#[trigger] all@[x]).file@ != file@ implies has_id(kept@, all@[x].id@) by {
                        if x < j {
                            let w = choose|w: int| 0 <= w < before.len() && before[w].id@ == all@[x].id@;
                            assert(kept@[w] == before[w]);
                        } else {
                            assert(kept@[kept@.len() - 1].id@ == all@[x].id@);
                        }
                    }
                    assert forall|m: int| 0 <= m < kept@.len() implies exists|x: int| 0 <= x < all@.len() && all@[x].file@ != file@
                        && all@[x].id@ == (#[trigger] kept@[m]).id@ by {
                        if m < before.len() {
                            assert(kept@[m] == before[m]);
                        } else {
                            assert(all@[j as int].id@ == kept@[m].id@);
                        }
                    }
                }
            }
            proof {
                let v = kept@.map_values(|n: CodeNode| summary(n));
                let pre = before0.map_values(|n: CodeNode| summary(n));
                if all@[j as int].file@ != file@ {
                    assert(kept@ == before0.push(kept@[kept@.len() - 1]));
                    assert(v =~= pre.push(summary(kept@[kept@.len() - 1])));
                }
                assert(v =~= outside(all@.subrange(0, j + 1), file@));
            }
            j = j + 1;
        }
        assert(all@.subrange(0, j as int) =~= all@);
        let ghost kv = kept@;
        let ghost nv = nodes@;
        let mut b = GraphBuilder::new();
        let ghost z = b.symbols_view().len();
        b.add_nodes(kept);
        let ghost g1 = b.graph_view().nodes_view();
        let ghost s1 = b.symbols_view();
        b.add_nodes(nodes);
        let ghost g2 = b.graph_view().nodes_view();
        let ghost s2 = b.symbols_view();
        let r = b.build();
        proof {
            let ins = outside(self.nodes_view(), file@) + nv.map_values(|n: CodeNode| summary(n));
            let kl = kv.len() as int;
            assert forall|k: int| 0 <= k < ins.len() implies {
                let a = #[trigger] s2[2 * k];
                let bb = s2[2 * k + 1];
                &&& a.fqn == ins[k].0 && a.file == ins[k].2
                &&& bb.fqn == ins[k].1 && bb.file == ins[k].2
                &&& a.id == bb.id
                &&& a.id.index < g2.len()
                &&& g2[a.id.index as int].id@ == ins[k].3
            } by {
                assert(z == 0);
                assert(outside(self.nodes_view(), file@) == kv.map_values(|n: CodeNode| summary(n)));
                if k < kl {
                    assert(ins[k] == summary(kv[k]));
                    let a = s1[z + 2 * k];
                    let bb = s1[z + 2 * k + 1];
                    assert(a.fqn == kv[k].name@ && a.file == kv[k].file@);
                    assert(s2[2 * k] == s1[2 * k] && s2[2 * k + 1] == s1[2 * k + 1]);
                    assert(a.id.index < g1.len());
                    assert(g2[a.id.index as int] == g1[a.id.index as int]);
                } else {
                    let m = k - kl;
                    assert(ins[k] == summary(nv[m]));
                    assert(s1.len() == 2 * kl);
                    let a = s2[s1.len() + 2 * m];
                    assert(a.fqn == nv[m].name@);
                    assert(2 * k == s1.len() + 2 * m);
                    assert(a.id.index < g2.len());
                }
            }
            assert(registers(s2, ins, g2));
            assert forall|x: int| 0 <= x < self.nodes_view().len() && (#[trigger] self.nodes_view()[x]).file@ != file@
                implies has_id(r.nodes_view(), self.nodes_view()[x].id@) by {
                let w = choose|w: int| 0 <= w < kv.len() && kv[w].id@ == self.nodes_view()[x].id@;
                let i = choose|i: int| 0 <= i < g1.len() && (#[trigger] g1[i]).id@ == (#[trigger] kv[w]).id@;
                assert(g2[i] == g1[i]);
            }
            assert forall|k: int| 0 <= k < nv.len() implies has_id(r.nodes_view(), (#[trigger] nv[k]).id@) by {
                let i = choose|i: int| 0 <= i < g2.len() && (#[trigger] g2[i]).id@ == (#[trigger] nv[k]).id@;
            }
            assert forall|i: int| 0 <= i < r.nodes_view().len() implies has_id(nv, (#[trigger] r.nodes_view()[i]).id@)
                || exists|x: int| 0 <= x < self.nodes_view().len() && self.nodes_view()[x].file@ != file@
                    && self.nodes_view()[x].id@ == r.nodes_view()[i].id@ by {
                if i < g1.len() {
                    assert(g2[i] == g1[i]);
                    assert(one_of(g1[i], kv));
                    let m = choose|m: int| 0 <= m < kv.len() && kv[m] == g1[i];
                    let x = choose|x: int| 0 <= x < self.nodes_view().len() && self.nodes_view()[x].file@ != file@
                        && self.nodes_view()[x].id@ == (#[trigger] kv[m]).id@;
                } else {
                    assert(one_of(g2[i], nv));
                    let m = choose|m: int| 0 <= m < nv.len() && nv[m] == g2[i];
                    assert(nv[m].id@ == g2[i].id@);
                }
            }
        }
        r
    }
}

/// Ingesting vertices into an empty builder leaves one vertex per distinct identity
/// given: every given identity is present, every vertex has a given identity, and no
/// identity appears twice.
pub proof fn lemma_ingested_identities(b0: GraphBuilder, b1: GraphBuilder, nodes: Seq<CodeNode>)
    requires
        b0.graph_view().nodes_view().len() == 0,
        b1.wf(),
        GraphBuilder::ingested(b0, b1, nodes),
    ensures
        forall|k: int| 0 <= k < nodes.len() ==> has_id(b1.graph_view().nodes_view(), (#[trigger] nodes[k]).id@),
        forall|i: int| 0 <= i < b1.graph_view().nodes_view().len()
            ==> has_id(nodes, (#[trigger] b1.graph_view().nodes_view()[i]).id@),
        forall|i: int, j: int| 0 <= i < j < b1.graph_view().nodes_view().len()
            ==> (#[trigger] b1.graph_view().nodes_view()[i]).id@ != (#[trigger] b1.graph_view().nodes_view()[j]).id@,
{
    let g = b1.graph_view().nodes_view();
    assert forall|k: int| 0 <= k < nodes.len() implies has_id(g, (#[trigger] nodes[k]).id@) by {
        let i = choose|i: int| 0 <= i < g.len() && (#[trigger] g[i]).id@ == (#[trigger] nodes[k]).id@;
    }
    assert forall|i: int| 0 <= i < g.len() implies has_id(nodes, (#[trigger] g[i]).id@) by {
        assert(one_of(g[i], nodes));
        let k = choose|k: int| 0 <= k < nodes.len() && nodes[k] == g[i];
    }
    assert forall|i: int, j: int| 0 <= i < j < g.len() implies (#[trigger] g[i]).id@ != (#[trigger] g[j]).id@ by {
        assert(b1.graph_view().wf());
    }
}

} // verus!
