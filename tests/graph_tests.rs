use arbor::builder::GraphBuilder;
use arbor::graph::{ArborGraph, Edge, EdgeKind, NodeId};
use arbor::node::{CodeNode, NodeKind, Visibility};
use arbor::symbol_table::SymbolTable;

fn make_node(name: &str) -> CodeNode {
    CodeNode::new(name, name, NodeKind::Function, "test.rs")
}

#[test]
fn test_insert_resolve() {
    let mut table = SymbolTable::new();
    let path = "main.rs".to_string();
    let id = NodeId::new(1);

    table.insert("main::foo".to_string(), id, path.clone());

    assert_eq!(table.resolve("main::foo"), Some(id));
    assert_eq!(table.resolve("main::bar"), None);

    let exports = table.get_file_exports(&path).unwrap();
    assert_eq!(exports.len(), 1);
    assert_eq!(exports[0], "main::foo");
}

#[test]
fn test_resolve_with_context_exact_match() {
    let mut table = SymbolTable::new();
    let id = NodeId::new(1);
    table.insert("pkg.utils.helper".to_string(), id, "src/utils.rs".to_string());
    let result = table.resolve_with_context("pkg.utils.helper", "other/file.rs");
    assert_eq!(result, Some(id));
}

#[test]
fn test_resolve_with_context_suffix_match() {
    let mut table = SymbolTable::new();
    let id = NodeId::new(1);
    table.insert("pkg.utils.helper".to_string(), id, "src/utils.rs".to_string());
    let result = table.resolve_with_context("helper", "other/file.rs");
    assert_eq!(result, Some(id));
}

#[test]
fn test_resolve_with_context_ambiguous_returns_none() {
    let mut table = SymbolTable::new();
    let id1 = NodeId::new(1);
    let id2 = NodeId::new(2);
    table.insert("pkg.a.helper".to_string(), id1, "src/a/mod.rs".to_string());
    table.insert("pkg.b.helper".to_string(), id2, "src/b/mod.rs".to_string());
    let result = table.resolve_with_context("helper", "src/c/caller.rs");
    assert_eq!(result, None);
}

#[test]
fn test_resolve_with_context_locality_preference() {
    let mut table = SymbolTable::new();
    let id1 = NodeId::new(1);
    let id2 = NodeId::new(2);
    table.insert("pkg.a.helper".to_string(), id1, "src/a/mod.rs".to_string());
    table.insert("pkg.b.helper".to_string(), id2, "src/b/mod.rs".to_string());
    let result = table.resolve_with_context("helper", "src/a/caller.rs");
    assert_eq!(result, Some(id1));
    let result = table.resolve_with_context("helper", "src/b/caller.rs");
    assert_eq!(result, Some(id2));
}

#[test]
fn suffix_match_needs_a_separator() {
    let mut table = SymbolTable::new();
    table.insert("pkg.xhelper".to_string(), NodeId::new(3), "src/x.rs".to_string());
    assert_eq!(table.resolve_with_context("helper", "src/y.rs"), None);
    table.insert("Type::helper".to_string(), NodeId::new(4), "src/t.rs".to_string());
    assert_eq!(table.resolve_with_context("helper", "src/y.rs"), Some(NodeId::new(4)));
}

#[test]
fn clear_forgets_everything() {
    let mut table = SymbolTable::new();
    table.insert("a".to_string(), NodeId::new(0), "a.rs".to_string());
    table.clear();
    assert_eq!(table.resolve("a"), None);
    assert!(table.get_file_exports("a.rs").is_none());
}

#[test]
fn test_builder_adds_nodes() {
    let mut builder = GraphBuilder::new();
    let node1 = CodeNode::new("foo", "foo", NodeKind::Function, "test.rs");
    let node2 = CodeNode::new("bar", "bar", NodeKind::Function, "test.rs");
    builder.add_nodes(vec![node1, node2]);
    let graph = builder.build();
    assert_eq!(graph.node_count(), 2);
}

#[test]
fn test_builder_resolves_edges() {
    let mut builder = GraphBuilder::new();
    let caller = CodeNode::new("caller", "caller", NodeKind::Function, "test.rs")
        .with_references(vec!["callee".to_string()]);
    let callee = CodeNode::new("callee", "callee", NodeKind::Function, "test.rs");
    builder.add_nodes(vec![caller, callee]);
    let graph = builder.build();
    assert_eq!(graph.node_count(), 2);
    assert_eq!(graph.edge_count(), 1);
}

#[test]
fn builder_drops_self_references() {
    let mut builder = GraphBuilder::new();
    let rec = CodeNode::new("rec", "rec", NodeKind::Function, "r.rs").with_references(vec!["rec".to_string()]);
    builder.add_nodes(vec![rec]);
    let graph = builder.build();
    assert_eq!(graph.edge_count(), 0);
}

#[test]
fn builder_without_resolve_has_no_edges() {
    let mut builder = GraphBuilder::new();
    let caller = make_node("caller").with_references(vec!["callee".to_string()]);
    builder.add_nodes(vec![caller, make_node("callee")]);
    let graph = builder.build_without_resolve();
    assert_eq!(graph.node_count(), 2);
    assert_eq!(graph.edge_count(), 0);
}

#[test]
fn resolve_twice_gives_the_same_edges() {
    let mut builder = GraphBuilder::new();
    let a = make_node("a").with_references(vec!["b".to_string(), "c".to_string()]);
    let b = make_node("b").with_references(vec!["c".to_string()]);
    builder.add_nodes(vec![a, b, make_node("c")]);
    builder.resolve_edges();
    let once = builder.build_without_resolve();
    let mut builder2 = GraphBuilder::new();
    let a = make_node("a").with_references(vec!["b".to_string(), "c".to_string()]);
    let b = make_node("b").with_references(vec!["c".to_string()]);
    builder2.add_nodes(vec![a, b, make_node("c")]);
    builder2.resolve_edges();
    builder2.resolve_edges();
    let twice = builder2.build_without_resolve();
    assert_eq!(once.edges(), twice.edges());
    assert_eq!(once.edge_count(), 3);
}

#[test]
fn edges_have_present_distinct_endpoints() {
    let mut builder = GraphBuilder::new();
    let a = make_node("a").with_references(vec!["a".to_string(), "b".to_string(), "missing".to_string()]);
    builder.add_nodes(vec![a, make_node("b")]);
    let graph = builder.build();
    for e in graph.edges() {
        assert!(e.from.index < graph.node_count());
        assert!(e.to.index < graph.node_count());
        let u = graph.get(e.from).unwrap();
        let v = graph.get(e.to).unwrap();
        assert_ne!(u.id, v.id);
    }
    assert_eq!(graph.edge_count(), 1);
}

#[test]
fn locality_disambiguation() {
    let mut builder = GraphBuilder::new();
    let helper_a = CodeNode::new("helper", "helper", NodeKind::Function, "a/m.rs");
    let helper_b = CodeNode::new("helper", "helper", NodeKind::Function, "b/m.rs");
    let caller = CodeNode::new("caller", "caller", NodeKind::Function, "a/caller.rs")
        .with_references(vec!["helper".to_string()]);
    let far = CodeNode::new("far", "far", NodeKind::Function, "c/far.rs")
        .with_references(vec!["helper".to_string()]);
    let a_id = helper_a.id.clone();
    builder.add_nodes(vec![helper_a]);
    builder.add_nodes(vec![helper_b]);
    builder.add_nodes(vec![caller, far]);
    let graph = builder.build();
    assert_eq!(graph.edge_count(), 1);
    let e = graph.edges()[0];
    assert_eq!(graph.get(e.from).unwrap().name, "caller");
    assert_eq!(graph.get(e.to).unwrap().id, a_id);
    assert_eq!(graph.get(e.to).unwrap().file, "a/m.rs");
}

#[test]
fn add_node_keeps_identities_unique() {
    let mut graph = ArborGraph::new();
    let first = graph.add_node(make_node("x"));
    let again = graph.add_node(make_node("x"));
    assert_eq!(first, again);
    assert_eq!(graph.node_count(), 1);
}

#[test]
fn lookups_by_id_name_and_neighbors() {
    let mut graph = ArborGraph::new();
    let a = graph.add_node(make_node("a"));
    let b = graph.add_node(CodeNode::new("b", "S.b", NodeKind::Method, "test.rs"));
    graph.add_edge(a, b, Edge::new(EdgeKind::Calls));
    let id_b = graph.get(b).unwrap().id.clone();
    assert_eq!(graph.get_index(&id_b), Some(b));
    assert_eq!(graph.get_index("S.b"), Some(b));
    assert_eq!(graph.get_index("nothing"), None);
    assert_eq!(graph.find_by_name("b"), vec![b]);
    let callers: Vec<String> = graph.get_callers(b).iter().map(|n| n.name.clone()).collect();
    assert_eq!(callers, vec!["a".to_string()]);
    let callees: Vec<String> = graph.get_callees(a).iter().map(|n| n.name.clone()).collect();
    assert_eq!(callees, vec!["b".to_string()]);
    assert_eq!(graph.centrality(a), 0);
}

#[test]
fn shortest_path_follows_calls() {
    let mut graph = ArborGraph::new();
    let a = graph.add_node(make_node("a"));
    let b = graph.add_node(make_node("b"));
    let c = graph.add_node(make_node("c"));
    let d = graph.add_node(make_node("d"));
    graph.add_edge(a, b, Edge::new(EdgeKind::Calls));
    graph.add_edge(b, c, Edge::new(EdgeKind::Calls));
    graph.add_edge(a, c, Edge::new(EdgeKind::Calls));
    assert_eq!(graph.find_path(a, c), Some(vec![a, c]));
    assert_eq!(graph.find_path(a, a), Some(vec![a]));
    assert_eq!(graph.find_path(c, a), None);
    assert_eq!(graph.find_path(a, d), None);
}

#[test]
fn replacing_a_file_re_resolves_edges() {
    let mut builder = GraphBuilder::new();
    let caller = CodeNode::new("caller", "caller", NodeKind::Function, "x.rs")
        .with_references(vec!["gone".to_string(), "fresh".to_string()]);
    let gone = CodeNode::new("gone", "gone", NodeKind::Function, "y.rs");
    builder.add_nodes(vec![caller, gone]);
    let graph = builder.build();
    assert_eq!(graph.edge_count(), 1);
    let fresh = CodeNode::new("fresh", "fresh", NodeKind::Function, "y.rs");
    let updated = graph.replace_file("y.rs", vec![fresh]);
    assert_eq!(updated.node_count(), 2);
    assert_eq!(updated.edge_count(), 1);
    let e = updated.edges()[0];
    assert_eq!(updated.get(e.to).unwrap().name, "fresh");
    let deleted = updated.replace_file("y.rs", vec![]);
    assert_eq!(deleted.node_count(), 1);
    assert_eq!(deleted.edge_count(), 0);
}

#[test]
fn identity_is_stable_and_distinguishes_entities() {
    let a = CodeNode::compute_id("src/a.rs", "S.run", NodeKind::Method);
    let b = CodeNode::compute_id("src/a.rs", "S.run", NodeKind::Method);
    let c = CodeNode::compute_id("src/a.rs", "S.run", NodeKind::Function);
    let d = CodeNode::compute_id("src/b.rs", "S.run", NodeKind::Method);
    assert_eq!(a, b);
    assert_ne!(a, c);
    assert_ne!(a, d);
    assert_eq!(a.len(), 16);
    assert!(a.chars().all(|ch| ch.is_ascii_hexdigit() && !ch.is_ascii_uppercase()));
}

#[test]
fn new_node_defaults_and_builders() {
    let n = CodeNode::new("f", "m.f", NodeKind::Function, "m.rs");
    assert_eq!(n.id, CodeNode::compute_id("m.rs", "m.f", NodeKind::Function));
    assert_eq!(n.visibility, Visibility::Private);
    assert!(!n.is_async && !n.is_static && !n.is_exported);
    assert!(n.signature.is_none() && n.docstring.is_none() && n.references.is_empty());
    let n = n
        .with_lines(3, 9)
        .with_bytes(10, 90)
        .with_column(4)
        .with_signature("fn f()".to_string())
        .with_visibility(Visibility::Public)
        .as_async()
        .as_static()
        .as_exported()
        .with_references(vec!["g".to_string()]);
    assert_eq!((n.line_start, n.line_end, n.byte_start, n.byte_end, n.column), (3, 9, 10, 90, 4));
    assert_eq!(n.signature.as_deref(), Some("fn f()"));
    assert_eq!(n.visibility, Visibility::Public);
    assert!(n.is_async && n.is_static && n.is_exported);
    assert_eq!(n.references, vec!["g".to_string()]);
    assert_eq!(NodeKind::TypeAlias.to_string(), "type_alias");
    assert_eq!(NodeKind::Function.to_string(), "function");
}
