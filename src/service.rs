//! Request parameters of the query surface, the agent tool server's decisions, and
//! the graph export record.
use vstd::prelude::*;
use vstd::string::*;
use crate::confidence::{direct_count, level_of, reasons_of, role_of, texts, ConfidenceExplanation, NodeRole};
use crate::graph::{callees_in, callers_in, ArborGraph, NodeId};
use crate::impact::{effective_depth, impact_side, ImpactAnalysis};
use crate::node::{kind_name, CodeNode};
use crate::reach::{at_distance, call_path, within, WalkDir};
use crate::query::describes;
use crate::ranking::CENTRALITY_ONE;
use crate::text::{
    chars_eq, chars_of, contains_chars, contains_seq, decimal, is_qualified_suffix, lower_of, lowercase,
    qualified_suffix, starts_with_chars, starts_with_seq, to_decimal,
};

verus! {

/// The result count used when a request names none.
pub fn default_limit() -> (r: usize)
    ensures
        r == 10,
{
    10
}

/// The impact depth used when a request names none.
pub fn default_depth() -> (r: usize)
    ensures
        r == 3,
{
    3
}

/// The token budget used when a request names none.
pub fn default_max_tokens() -> (r: usize)
    ensures
        r == 8000,
{
    8000
}

/// Parameters of `discover`.
#[derive(Clone, Debug)]
pub struct DiscoverParams {
    pub query: String,
    pub limit: usize,
}

/// Parameters of `impact`.
#[derive(Clone, Debug)]
pub struct ImpactParams {
    pub node: String,
    pub depth: usize,
}

/// Parameters of `context`.
#[derive(Clone, Debug)]
pub struct ContextParams {
    pub task: String,
    pub max_tokens: usize,
    pub include_source: bool,
}

/// Parameters of `search`.
#[derive(Clone, Debug)]
pub struct SearchParams {
    pub query: String,
    pub kind: Option<String>,
    pub limit: usize,
}

/// Parameters of `node.get`.
#[derive(Clone, Debug)]
pub struct NodeGetParams {
    pub id: String,
}

impl DiscoverParams {
    /// A request for `query` with the default limit.
    pub fn with_defaults(query: String) -> (r: DiscoverParams)
        ensures
            r.query@ == query@ && r.limit == 10,
    {
        DiscoverParams { query, limit: default_limit() }
    }
}

impl ImpactParams {
    /// A request for `node` with the default depth.
    pub fn with_defaults(node: String) -> (r: ImpactParams)
        ensures
            r.node@ == node@ && r.depth == 3,
    {
        ImpactParams { node, depth: default_depth() }
    }
}

impl ContextParams {
    /// A request for `task` with the default budget and no source.
    pub fn with_defaults(task: String) -> (r: ContextParams)
        ensures
            r.task@ == task@ && r.max_tokens == 8000 && !r.include_source,
    {
        ContextParams { task, max_tokens: default_max_tokens(), include_source: false }
    }
}

impl SearchParams {
    /// A request for `query` of any kind with the default limit.
    pub fn with_defaults(query: String) -> (r: SearchParams)
        ensures
            r.query@ == query@ && r.kind.is_none() && r.limit == 10,
    {
        SearchParams { query, kind: None, limit: default_limit() }
    }
}

/// JSON-RPC error codes.
pub const METHOD_NOT_FOUND: i32 = -32601;
pub const INVALID_PARAMS: i32 = -32602;
pub const INTERNAL_ERROR: i32 = -32603;
pub const PARSE_ERROR: i32 = -32700;

/// A tool failure with its JSON-RPC code.
#[derive(Clone, Debug, PartialEq, Eq)]
pub struct ToolError {
    pub code: i32,
    pub message: String,
}

/// Where the visualizer should look: a vertex's identity, file and first line.
#[derive(Clone, Debug)]
pub struct SpotlightRequest {
    pub node_id: String,
    pub file: String,
    pub line: u32,
}

/// The agent tool server over one graph.
pub struct McpServer {
    graph: ArborGraph,
    spotlight: bool,
}

/// The vertex a name picks among `s`: the one with that identity, else the first with
/// that qualified name, else the first with that short name.
pub open spec fn named_vertex(s: Seq<CodeNode>, name: Seq<char>) -> Option<NodeId> {
    if exists|i: int| 0 <= i < s.len() && (#[trigger] s[i]).id@ == name {
        Some(NodeId { index: (choose|i: int| 0 <= i < s.len() && (#[trigger] s[i]).id@ == name) as usize })
    } else if exists|i: int| 0 <= i < s.len() && (#[trigger] s[i]).qualified_name@ == name {
        Some(NodeId { index: (choose|i: int| first_qn(s, name, i)) as usize })
    } else if exists|i: int| 0 <= i < s.len() && (#[trigger] s[i]).name@ == name {
        Some(NodeId { index: (choose|i: int| first_name(s, name, i)) as usize })
    } else {
        None
    }
}

pub open spec fn first_qn(s: Seq<CodeNode>, name: Seq<char>, i: int) -> bool {
    0 <= i < s.len() && s[i].qualified_name@ == name && forall|j: int| 0 <= j < i ==> (#[trigger] s[j]).qualified_name@ != name
}

pub open spec fn first_name(s: Seq<CodeNode>, name: Seq<char>, i: int) -> bool {
    0 <= i < s.len() && s[i].name@ == name && forall|j: int| 0 <= j < i ==> (#[trigger] s[j]).name@ != name
}

proof fn lemma_named_vertex_id(s: Seq<CodeNode>, name: Seq<char>, i: int)
    requires
        0 <= i < s.len() && s[i].id@ == name,
        i <= usize::MAX,
        forall|j: int| 0 <= j < s.len() && (#[trigger] s[j]).id@ == name ==> j == i,
    ensures
        named_vertex(s, name) == Some(NodeId { index: i as usize }),
{
    let c = choose|j: int| 0 <= j < s.len() && (#[trigger] s[j]).id@ == name;
    assert(c == i);
}

proof fn lemma_named_vertex_qn(s: Seq<CodeNode>, name: Seq<char>, i: int)
    requires
        first_qn(s, name, i),
        i <= usize::MAX,
        forall|j: int| 0 <= j < s.len() ==> (#[trigger] s[j]).id@ != name,
    ensures
        named_vertex(s, name) == Some(NodeId { index: i as usize }),
{
    assert(s[i].qualified_name@ == name);
    let c = choose|j: int| first_qn(s, name, j);
    assert(first_qn(s, name, i));
    if c < i {
        assert(s[c].qualified_name@ != name);
    } else if c > i {
        assert(s[i].qualified_name@ != name);
    }
}

proof fn lemma_named_vertex_name(s: Seq<CodeNode>, name: Seq<char>, i: int)
    requires
        first_name(s, name, i),
        i <= usize::MAX,
        forall|j: int| 0 <= j < s.len() ==> (#[trigger] s[j]).id@ != name && s[j].qualified_name@ != name,
    ensures
        named_vertex(s, name) == Some(NodeId { index: i as usize }),
{
    assert(s[i].name@ == name);
    let c = choose|j: int| first_name(s, name, j);
    assert(first_name(s, name, i));
    if c < i {
        assert(s[c].name@ != name);
    } else if c > i {
        assert(s[i].name@ != name);
    }
    assert(!exists|j: int| 0 <= j < s.len() && (#[trigger] s[j]).qualified_name@ == name);
}

impl McpServer {
    pub closed spec fn graph_view(&self) -> ArborGraph {
        self.graph
    }

    pub closed spec fn spotlight_on(&self) -> bool {
        self.spotlight
    }

    pub fn new(graph: ArborGraph) -> (r: McpServer)
        ensures
            r.graph_view() == graph,
            !r.spotlight_on(),
    {
        McpServer { graph, spotlight: false }
    }

    /// A server that also asks the visualizer to show each vertex a tool looks at.
    pub fn with_spotlight(graph: ArborGraph) -> (r: McpServer)
        ensures
            r.graph_view() == graph,
            r.spotlight_on(),
    {
        McpServer { graph, spotlight: true }
    }

    pub fn graph(&self) -> (r: &ArborGraph)
        ensures
            *r == self.graph_view(),
    {
        &self.graph
    }

    /// The vertex a tool argument names: the one with that identity, else the first
    /// with that qualified name, else the first with that short name.
    pub fn resolve(&self, name: &str) -> (r: Option<NodeId>)
        requires
            self.graph_view().wf(),
        ensures
            r == named_vertex(self.graph_view().nodes_view(), name@),
            r.is_some() ==> r.unwrap().index < self.graph_view().nodes_view().len(),
    {
        let ghost s = self.graph.nodes_view();
        let k = String::from_str(name);
        match self.graph.find_id(&k) {
            Some(i) => {
                proof {
                    assert forall|j: int| 0 <= j < s.len() && (#[trigger] s[j]).id@ == name@ implies j == i by {
                        if j != i {
                            assert(s[j].id@ != s[i as int].id@);
                        }
                    }
                    lemma_named_vertex_id(s, name@, i as int);
                }
                return Some(NodeId { index: i });
            },
            None => {},
        }
        let nodes = self.graph.nodes();
        let mut i: usize = 0;
        while i < nodes.len()
            invariant
                nodes@ == s,
                s == self.graph_view().nodes_view(),
                k@ == name@,
                i <= s.len(),
                forall|j: int| 0 <= j < s.len() ==> (#[trigger] s[j]).id@ != name@,
                forall|j: int| 0 <= j < i ==> (#[trigger] s[j]).qualified_name@ != name@,
            decreases s.len() - i,
        {
            if nodes[i].qualified_name == k {
                proof { lemma_named_vertex_qn(s, name@, i as int); }
                return Some(NodeId { index: i });
            }
            i = i + 1;
        }
        let mut i: usize = 0;
        while i < nodes.len()
            invariant
                nodes@ == s,
                s == self.graph_view().nodes_view(),
                k@ == name@,
                i <= s.len(),
                forall|j: int| 0 <= j < s.len() ==> (#[trigger] s[j]).id@ != name@ && s[j].qualified_name@ != name@,
                forall|j: int| 0 <= j < i ==> (#[trigger] s[j]).name@ != name@,
            decreases s.len() - i,
        {
            if nodes[i].name == k {
                proof { lemma_named_vertex_name(s, name@, i as int); }
                return Some(NodeId { index: i });
            }
            i = i + 1;
        }
        None
    }

    /// Where the visualizer should look for the vertex `name` names, when spotlight is on.
    pub fn spotlight_target(&self, name: &str) -> (r: Option<SpotlightRequest>)
        requires
            self.graph_view().wf(),
        ensures
            !self.spotlight_on() ==> r.is_none(),
    {
        if !self.spotlight {
            return None;
        }
        match self.resolve(name) {
            Some(n) => {
                let node = self.graph.get(n).unwrap();
                Some(SpotlightRequest { node_id: node.id.clone(), file: node.file.clone(), line: node.line_start })
            },
            None => None,
        }
    }

    /// The `analyze_impact` tool: the impact of the vertex `name` names, with its
    /// confidence and role; `None` when no vertex answers to the name.
    pub fn analyze_impact_tool(&self, name: &str, max_depth: usize) -> (r: Option<(ImpactAnalysis, ConfidenceExplanation, NodeRole)>)
        requires
            self.graph_view().wf(),
            self.graph_view().nodes_view().len() <= usize::MAX / 2,
        ensures
            r.is_none() <==> named_vertex(self.graph_view().nodes_view(), name@).is_none(),
            r.is_some() ==> {
                let (a, c, role) = r.unwrap();
                let t = named_vertex(self.graph_view().nodes_view(), name@).unwrap().index as int;
                let g = self.graph_view();
                let d = effective_depth(max_depth, g.nodes_view().len() as int);
                &&& describes(a.target, g.nodes_view()[t], g.centrality_view()[t])
                &&& impact_side(g, WalkDir::Callers, t, d, a.upstream@)
                &&& impact_side(g, WalkDir::Callees, t, d, a.downstream@)
                &&& a.total_affected == a.upstream@.len() + a.downstream@.len()
                &&& a.max_depth == max_depth
                &&& c.level == level_of(a.upstream@.len(), a.downstream@.len(), a.total_affected as nat)
                &&& texts(c.reasons@) == reasons_of(a.upstream@.len(), a.downstream@.len(), a.total_affected as nat, direct_count(a.upstream@))
                &&& role == role_of(a.upstream@.len(), a.downstream@.len())
            },
    {
        match self.resolve(name) {
            Some(t) => {
                let a = self.graph.analyze_impact(t, max_depth);
                let c = ConfidenceExplanation::from_analysis(&a);
                let role = NodeRole::from_analysis(&a);
                Some((a, c, role))
            },
            None => None,
        }
    }

    /// The `find_path` tool: a shortest `Calls` path between the vertices two names
    /// name; an invalid-parameters error when either name answers to no vertex.
    pub fn find_path_tool(&self, start: &str, end: &str) -> (r: Result<Option<Vec<NodeId>>, ToolError>)
        requires
            self.graph_view().wf(),
            self.graph_view().nodes_view().len() < usize::MAX,
        ensures
            (named_vertex(self.graph_view().nodes_view(), start@).is_none()
                || named_vertex(self.graph_view().nodes_view(), end@).is_none())
                <==> r is Err,
            r is Err ==> r->Err_0.code == INVALID_PARAMS,
            r is Ok ==> {
                let g = self.graph_view();
                let n = g.nodes_view().len() as int;
                let u = named_vertex(g.nodes_view(), start@).unwrap().index as int;
                let v = named_vertex(g.nodes_view(), end@).unwrap().index as int;
                match r->Ok_0 {
                    Some(p) => call_path(g.edges_view(), n, u, v, p@)
                        && at_distance(g.edges_view(), n, WalkDir::Callees, u, v, (p@.len() - 1) as nat),
                    None => !within(g.edges_view(), n, WalkDir::Callees, u, v, n as nat),
                }
            },
    {
        match (self.resolve(start), self.resolve(end)) {
            (Some(u), Some(v)) => Ok(self.graph.find_path(u, v)),
            _ => Err(ToolError { code: INVALID_PARAMS, message: String::from_str("Could not resolve start or end node.") }),
        }
    }

    /// The `get_logic_path` tool: a Markdown brief of the vertex `start` names, with its
    /// kind, file, centrality and signature, and tables of its callees and callers.
    pub fn generate_context(&self, start: &str) -> (r: String)
        requires
            self.graph_view().wf(),
        ensures
            named_vertex(self.graph_view().nodes_view(), start@).is_none()
                ==> r@ == "Node '"@ + start@ + "' not found in the graph. Check the name or ID."@,
            named_vertex(self.graph_view().nodes_view(), start@).is_some()
                ==> r@ == brief_of(self.graph_view(), named_vertex(self.graph_view().nodes_view(), start@).unwrap().index as int),
    {
        let t = match self.resolve(start) {
            Some(t) => t,
            None => {
                return String::from_str("Node '").concat(start).concat("' not found in the graph. Check the name or ID.");
            },
        };
        let node = self.graph.get(t).unwrap();
        let mut brief = String::from_str("# Architectural Brief: `").concat(node.name.as_str()).concat("`\n\n");
        brief.append("| Property | Value |\n|----------|-------|\n");
        brief.append("| **Type** | ");
        brief.append(node.kind.to_string().as_str());
        brief.append(" |\n| **File** | `");
        brief.append(node.file.as_str());
        brief.append("` |\n| **Impact Level** | ");
        brief.append(fixed2(self.graph.centrality(t)).as_str());
        brief.append(" |\n");
        let ghost head = brief@;
        match &node.signature {
            Some(sig) => {
                brief.append("| **Signature** | `");
                brief.append(sig.as_str());
                brief.append("` |\n");
            },
            None => {},
        }
        let ghost with_sig = brief@;
        brief.append("\n## Dependencies (Callees)\n\n");
        let callees = self.graph.callees_of(t);
        proof {
            self.lemma_ids_in_range(callees@, t, true);
        }
        if callees.len() == 0 {
            brief.append("*None - This is a leaf node.*\n");
        } else {
            self.append_table(&mut brief, &callees);
        }
        let ghost with_deps = brief@;
        brief.append("\n## Usage (Callers)\n\n");
        let callers = self.graph.callers_of(t);
        proof {
            self.lemma_ids_in_range(callers@, t, false);
        }
        if callers.len() == 0 {
            brief.append("*None - Potential entry point or dead code.*\n");
        } else {
            self.append_table(&mut brief, &callers);
        }
        proof {
            let g = self.graph_view();
            let ti = t.index as int;
            assert(callees@.map_values(|x: NodeId| x.index) =~= callees_in(g.edges_view(), t.index));
            assert(callers@.map_values(|x: NodeId| x.index) =~= callers_in(g.edges_view(), t.index));
            assert(head =~= brief_head(g, ti));
            assert(with_sig =~= brief_head(g, ti) + sig_row(g.nodes_view()[ti]));
            assert(brief@ =~= brief_of(g, ti));
        }
        brief
    }

    proof fn lemma_ids_in_range(&self, ids: Seq<NodeId>, t: NodeId, out: bool)
        requires
            self.graph_view().wf(),
            out ==> ids.len() == callees_in(self.graph_view().edges_view(), t.index).len()
                && forall|j: int| 0 <= j < ids.len() ==> (#[trigger] ids[j]).index == callees_in(self.graph_view().edges_view(), t.index)[j],
            !out ==> ids.len() == callers_in(self.graph_view().edges_view(), t.index).len()
                && forall|j: int| 0 <= j < ids.len() ==> (#[trigger] ids[j]).index == callers_in(self.graph_view().edges_view(), t.index)[j],
        ensures
            forall|j: int| 0 <= j < ids.len() ==> (#[trigger] ids[j]).index < self.graph_view().nodes_view().len(),
    {
        let g = self.graph_view();
        let e = g.edges_view();
        crate::graph::lemma_callees_in(e, t.index);
        crate::graph::lemma_callers_in(e, t.index);
        assert forall|j: int| 0 <= j < ids.len() implies (#[trigger] ids[j]).index < g.nodes_view().len() by {
            if out {
                assert(crate::graph::calls_edge(e, t.index as int, callees_in(e, t.index)[j] as int));
                let k = choose|k: int| 0 <= k < e.len() && #[trigger] e[k].from.index == t.index as int && e[k].to.index == callees_in(e, t.index)[j] as int && crate::graph::is_call(e[k]);
            } else {
                assert(crate::graph::calls_edge(e, callers_in(e, t.index)[j] as int, t.index as int));
                let k = choose|k: int| 0 <= k < e.len() && #[trigger] e[k].from.index == callers_in(e, t.index)[j] as int && e[k].to.index == t.index as int && crate::graph::is_call(e[k]);
            }
        }
    }

    fn append_table(&self, out: &mut String, ids: &Vec<NodeId>)
        requires
            self.graph_view().wf(),
            forall|j: int| 0 <= j < ids@.len() ==> (#[trigger] ids@[j]).index < self.graph_view().nodes_view().len(),
        ensures
            final(out)@ == old(out)@ + table_of(self.graph_view(), ids@.map_values(|x: NodeId| x.index)),
    {
        out.append("| Symbol | Type | Impact | File |\n|--------|------|--------|------|\n");
        let ghost start = out@;
        let ghost all = ids@.map_values(|x: NodeId| x.index);
        let mut i: usize = 0;
        while i < ids.len()
            invariant
                self.graph_view().wf(),
                forall|j: int| 0 <= j < ids@.len() ==> (#[trigger] ids@[j]).index < self.graph_view().nodes_view().len(),
                all == ids@.map_values(|x: NodeId| x.index),
                i <= ids@.len(),
                out@ == start + table_rows(self.graph_view(), all.subrange(0, i as int)),
            decreases ids@.len() - i,
        {
            let ghost before = out@;
            let n = self.graph.get(ids[i]).unwrap();
            out.append("| `");
            out.append(n.name.as_str());
            out.append("` | ");
            out.append(n.kind.to_string().as_str());
            out.append(" | ");
            out.append(fixed2(self.graph.centrality(ids[i])).as_str());
            out.append(" | `");
            out.append(n.file.as_str());
            out.append("` |\n");
            proof {
                assert(all.subrange(0, i + 1).drop_last() =~= all.subrange(0, i as int));
                assert(out@ =~= before + row_of(self.graph_view(), all[i as int]));
            }
            i = i + 1;
        }
        assert(all.subrange(0, i as int) =~= all);
    }

    /// The error for a tool name the server does not have.
    pub fn unknown_tool(name: &str) -> (r: ToolError)
        ensures
            r.code == METHOD_NOT_FOUND,
            r.message@ == "Tool not found: "@ + name@,
    {
        ToolError { code: METHOD_NOT_FOUND, message: String::from_str("Tool not found: ").concat(name) }
    }
}

/// The export record of a graph: format version, counts, and every vertex.
pub struct GraphExport {
    pub version: String,
    pub node_count: usize,
    pub edge_count: usize,
    pub nodes: Vec<CodeNode>,
}

/// The export record of `graph`, version "1.0".
pub fn export(graph: &ArborGraph) -> (r: GraphExport)
    ensures
        r.version@ == "1.0"@,
        r.node_count == graph.nodes_view().len(),
        r.edge_count == graph.edges_view().len(),
        r.nodes@.len() == graph.nodes_view().len(),
        forall|i: int| 0 <= i < r.nodes@.len() ==> (#[trigger] r.nodes@[i]).id@ == graph.nodes_view()[i].id@,
{
    let all = graph.nodes();
    let mut nodes: Vec<CodeNode> = Vec::new();
    let mut i: usize = 0;
    while i < all.len()
        invariant
            i <= all@.len(),
            all@ == graph.nodes_view(),
            nodes@.len() == i,
            forall|j: int| 0 <= j < i ==> (#[trigger] nodes@[j]).id@ == all@[j].id@,
        decreases all@.len() - i,
    {
        nodes.push(all[i].snapshot());
        i = i + 1;
    }
    GraphExport {
        version: String::from_str("1.0"),
        node_count: graph.node_count(),
        edge_count: graph.edge_count(),
        nodes,
    }
}

/// The Flutter command and device that launch the visualizer on operating system `os`
/// (as `std::env::consts::OS` names it): `flutter.bat` on Windows, `flutter` elsewhere.
pub fn get_flutter_cmd_and_device(os: &str) -> (r: (&'static str, &'static str))
    ensures
        os@ == "windows"@ ==> r.0@ == "flutter.bat"@ && r.1@ == "windows"@,
        os@ == "macos"@ ==> r.0@ == "flutter"@ && r.1@ == "macos"@,
        os@ != "windows"@ && os@ != "macos"@ ==> r.0@ == "flutter"@ && r.1@ == "linux"@,
{
    let o = String::from_str(os);
    proof {
        reveal_strlit("macos");
        reveal_strlit("windows");
    }
    if o == String::from_str("windows") {
        ("flutter.bat", "windows")
    } else if o == String::from_str("macos") {
        ("flutter", "macos")
    } else {
        ("flutter", "linux")
    }
}

/// A fixed-point centrality, capped at 1.0, with two decimals rounded half up.
pub open spec fn fixed2_of(c: u64) -> Seq<char> {
    let v = if c > CENTRALITY_ONE { CENTRALITY_ONE as nat } else { c as nat };
    let h = (v * 100 + CENTRALITY_ONE as nat / 2) / CENTRALITY_ONE as nat;
    decimal(h / 100) + "."@ + decimal((h % 100) / 10) + decimal(h % 10)
}

/// One table row: name, kind, centrality and file of vertex `i`.
pub open spec fn row_of(g: ArborGraph, i: usize) -> Seq<char> {
    let n = g.nodes_view()[i as int];
    "| `"@ + n.name@ + "` | "@ + kind_name(n.kind) + " | "@ + fixed2_of(g.centrality_view()[i as int]) + " | `"@
        + n.file@ + "` |\n"@
}

pub open spec fn table_rows(g: ArborGraph, ids: Seq<usize>) -> Seq<char>
    decreases ids.len(),
{
    if ids.len() == 0 {
        Seq::empty()
    } else {
        table_rows(g, ids.drop_last()) + row_of(g, ids.last())
    }
}

/// A Markdown table of the vertices `ids`.
pub open spec fn table_of(g: ArborGraph, ids: Seq<usize>) -> Seq<char> {
    "| Symbol | Type | Impact | File |\n|--------|------|--------|------|\n"@ + table_rows(g, ids)
}

/// The header of a brief: name, kind, file and centrality of vertex `t`.
pub open spec fn brief_head(g: ArborGraph, t: int) -> Seq<char> {
    let n = g.nodes_view()[t];
    "# Architectural Brief: `"@ + n.name@ + "`\n\n"@ + "| Property | Value |\n|----------|-------|\n"@
        + "| **Type** | "@ + kind_name(n.kind) + " |\n| **File** | `"@ + n.file@ + "` |\n| **Impact Level** | "@
        + fixed2_of(g.centrality_view()[t]) + " |\n"@
}

/// The signature row of a brief, when the vertex has a signature.
pub open spec fn sig_row(n: CodeNode) -> Seq<char> {
    match n.signature {
        Some(s) => "| **Signature** | `"@ + s@ + "` |\n"@,
        None => Seq::empty(),
    }
}

/// The architectural brief of vertex `t`: its header, then its callees, then its callers.
pub open spec fn brief_of(g: ArborGraph, t: int) -> Seq<char> {
    let callees = callees_in(g.edges_view(), t as usize);
    let callers = callers_in(g.edges_view(), t as usize);
    let deps = if callees.len() == 0 { "*None - This is a leaf node.*\n"@ } else { table_of(g, callees) };
    let uses = if callers.len() == 0 { "*None - Potential entry point or dead code.*\n"@ } else { table_of(g, callers) };
    brief_head(g, t) + sig_row(g.nodes_view()[t]) + "\n## Dependencies (Callees)\n\n"@ + deps
        + "\n## Usage (Callers)\n\n"@ + uses
}

/// A fixed-point centrality, capped at 1.0, as a decimal with two places, rounded half
/// up (`CENTRALITY_ONE` reads `1.00`).
pub fn fixed2(c: u64) -> (r: String)
    ensures
        r@ == fixed2_of(c),
{
    let v: u64 = if c > CENTRALITY_ONE { CENTRALITY_ONE } else { c };
    let h: u64 = (v * 100 + CENTRALITY_ONE / 2) / CENTRALITY_ONE;
    proof {
        assert(h <= 100) by (nonlinear_arith)
            requires h == (v as nat * 100 + 500_000_000) / 1_000_000_000, v <= 1_000_000_000;
    }
    let whole = (h / 100) as usize;
    let tens = ((h % 100) / 10) as usize;
    let ones = (h % 10) as usize;
    to_decimal(whole).concat(".").concat(to_decimal(tens).as_str()).concat(to_decimal(ones).as_str())
}

/// How well vertex `n` answers to a mistyped `target` (lower-cased): 100 for the same
/// name, 80 when its qualified name ends in it after `.` or `:`, 60 when its name starts
/// with it, 40 when its name holds it, 0 otherwise; names compared lower-cased.
pub open spec fn relevance_of(n: CodeNode, target: Seq<char>) -> u32 {
    let name = lower_of(n.name@);
    let qn = lower_of(n.qualified_name@);
    if name == target {
        100
    } else if target.len() < qn.len() && is_qualified_suffix(qn, target) {
        80
    } else if starts_with_seq(name, target) {
        60
    } else if contains_seq(name, target) {
        40
    } else {
        0
    }
}

/// A suggestion: a vertex, its relevance, and how many vertices call it directly.
pub open spec fn ranks_before(a: (NodeId, u32, usize), b: (NodeId, u32, usize)) -> bool {
    a.1 > b.1 || (a.1 == b.1 && a.2 > b.2)
}

/// `c` is how many distinct vertices other than `v` call `v` directly.
pub open spec fn direct_callers(g: ArborGraph, v: int, c: usize) -> bool {
    exists|found: Seq<usize>, hops: Seq<usize>|
        crate::reach::reach_result(g.edges_view(), g.nodes_view().len() as int, WalkDir::Callers, v, 1, found, hops)
        && found.len() == c
}

fn relevance(n: &CodeNode, target: &Vec<char>) -> (r: u32)
    ensures
        r == relevance_of(*n, target@),
{
    let name = chars_of(lowercase(n.name.as_str()).as_str());
    let qn = chars_of(lowercase(n.qualified_name.as_str()).as_str());
    if chars_eq(&name, target) {
        100
    } else if target.len() < qn.len() && qualified_suffix(&qn, target) {
        80
    } else if starts_with_chars(&name, target) {
        60
    } else if contains_chars(&name, target) {
        40
    } else {
        0
    }
}

/// Vertices whose names resemble `target`, best first: by relevance, then by the number
/// of direct callers.
pub fn suggest_similar_symbols(graph: &ArborGraph, target: &str) -> (r: Vec<(NodeId, u32, usize)>)
    requires
        graph.wf(),
        graph.nodes_view().len() <= usize::MAX / 2,
    ensures
        forall|j: int| 0 <= j < r@.len() ==> (#[trigger] r@[j]).0.index < graph.nodes_view().len()
            && r@[j].1 == relevance_of(graph.nodes_view()[r@[j].0.index as int], lower_of(target@))
            && r@[j].1 > 0,
        forall|i: int| 0 <= i < graph.nodes_view().len()
            && relevance_of(#[trigger] graph.nodes_view()[i], lower_of(target@)) > 0
            ==> exists|j: int| 0 <= j < r@.len() && r@[j].0.index == i,
        forall|a: int, b: int| 0 <= a < b < r@.len() ==> !ranks_before(#[trigger] r@[b], #[trigger] r@[a]),
        forall|j: int| 0 <= j < r@.len() ==> direct_callers(*graph, (#[trigger] r@[j]).0.index as int, r@[j].2),
        forall|a: int, b: int| 0 <= a < b < r@.len() ==> (#[trigger] r@[a]).0 != (#[trigger] r@[b]).0,
{
    let t = chars_of(lowercase(target).as_str());
    let n = graph.node_count();
    let mut out: Vec<(NodeId, u32, usize)> = Vec::new();
    let mut i: usize = 0;
    while i < n
        invariant
            graph.wf(),
            n == graph.nodes_view().len(),
            n <= usize::MAX / 2,
            t@ == lower_of(target@),
            i <= n,
            forall|j: int| 0 <= j < out@.len() ==> (#[trigger] out@[j]).0.index < i
                && out@[j].1 == relevance_of(graph.nodes_view()[out@[j].0.index as int], t@)
                && out@[j].1 > 0,
            forall|m: int| 0 <= m < i && relevance_of(#[trigger] graph.nodes_view()[m], t@) > 0
                ==> exists|j: int| 0 <= j < out@.len() && out@[j].0.index == m,
            forall|a: int, b: int| 0 <= a < b < out@.len() ==> !ranks_before(#[trigger] out@[b], #[trigger] out@[a]),
            forall|j: int| 0 <= j < out@.len() ==> direct_callers(*graph, (#[trigger] out@[j]).0.index as int, out@[j].2),
            forall|a: int, b: int| 0 <= a < b < out@.len() ==> (#[trigger] out@[a]).0 != (#[trigger] out@[b]).0,
        decreases n - i,
    {
        let id = NodeId { index: i };
        let node = graph.get(id).unwrap();
        let rel = relevance(node, &t);
        if rel > 0 {
            let a = graph.analyze_impact(id, 1);
            let callers = a.upstream.len();
            proof {
                let recs = a.upstream@;
                assert(impact_side(*graph, WalkDir::Callers, i as int, 1, recs));
                let f = recs.map_values(|x: crate::impact::AffectedNode| x.node_id.index);
                let h = recs.map_values(|x: crate::impact::AffectedNode| x.hop_distance);
                assert(crate::reach::reach_result(graph.edges_view(), n as int, WalkDir::Callers, i as int, 1, f, h) && f.len() == callers);
            }
            let e = (id, rel, callers);
            let mut p: usize = 0;
            while p < out.len() && !(rel > out[p].1 || (rel == out[p].1 && callers > out[p].2))
                invariant
                    p <= out@.len(),
                    e.1 == rel && e.2 == callers,
                    forall|m: int| 0 <= m < p ==> !ranks_before(e, #[trigger] out@[m]),
                decreases out@.len() - p,
            {
                p = p + 1;
            }
            let ghost before = out@;
            out.insert(p, e);
            proof {
                assert(out@ == before.insert(p as int, e));
                assert forall|a: int, b: int| 0 <= a < b < out@.len() implies !ranks_before(#[trigger] out@[b], #[trigger] out@[a]) by {
                    if b < p {
                        assert(out@[a] == before[a] && out@[b] == before[b]);
                    } else if b == p {
                        assert(out@[a] == before[a]);
                    } else if a < p {
                        assert(out@[a] == before[a] && out@[b] == before[b - 1]);
                    } else if a == p {
                        assert(out@[b] == before[b - 1]);
                        if b - 1 > p {
                            assert(!ranks_before(before[b - 1], before[p as int]));
                        }
                    } else {
                        assert(out@[a] == before[a - 1] && out@[b] == before[b - 1]);
                    }
                }
                assert forall|a2: int, b2: int| 0 <= a2 < b2 < out@.len() implies (#[trigger] out@[a2]).0 != (#[trigger] out@[b2]).0 by {
                    let x = if a2 < p { a2 } else if a2 == p { -1 } else { a2 - 1 };
                    let y = if b2 < p { b2 } else if b2 == p { -1 } else { b2 - 1 };
                    if x >= 0 && y >= 0 {
                        assert(out@[a2] == before[x] && out@[b2] == before[y]);
                    } else if x >= 0 {
                        assert(out@[a2] == before[x]);
                    } else {
                        assert(out@[b2] == before[y]);
                    }
                }
                assert forall|j: int| 0 <= j < out@.len() implies direct_callers(*graph, (#[trigger] out@[j]).0.index as int, out@[j].2) by {
                    if j < p {
                        assert(out@[j] == before[j]);
                    } else if j > p {
                        assert(out@[j] == before[j - 1]);
                    }
                }
                assert forall|j: int| 0 <= j < out@.len() implies (#[trigger] out@[j]).0.index < i + 1
                    && out@[j].1 == relevance_of(graph.nodes_view()[out@[j].0.index as int], t@)
                    && out@[j].1 > 0 by {
                    if j < p {
                        assert(out@[j] == before[j]);
                    } else if j > p {
                        assert(out@[j] == before[j - 1]);
                    }
                }
                assert forall|m: int| 0 <= m < i + 1 && relevance_of(#[trigger] graph.nodes_view()[m], t@) > 0
                    implies exists|j: int| 0 <= j < out@.len() && out@[j].0.index == m by {
                    if m < i {
                        let w = choose|w: int| 0 <= w < before.len() && before[w].0.index == m;
                        if w < p {
                            assert(out@[w] == before[w]);
                        } else {
                            assert(out@[w + 1] == before[w]);
                        }
                    } else {
                        assert(out@[p as int].0.index == m);
                    }
                }
            }
        }
        i = i + 1;
    }
    out
}

} // verus!
