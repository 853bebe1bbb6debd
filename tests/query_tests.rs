use arbor::builder::GraphBuilder;
use arbor::confidence::{ConfidenceExplanation, ConfidenceLevel, NodeRole};
use arbor::graph::{ArborGraph, Edge, EdgeKind, NodeId};
use arbor::impact::ImpactSeverity;
use arbor::node::{CodeNode, NodeKind};
use arbor::ranking::{compute_centrality, CENTRALITY_ONE};
use arbor::slice::{estimate_tokens, TruncationReason};
use arbor::query::NodeInfo;

fn make_node(name: &str) -> CodeNode {
    CodeNode::new(name, name, NodeKind::Function, "test.rs")
}

#[test]
fn test_confidence_level_display() {
    assert_eq!(ConfidenceLevel::High.to_string(), "High");
    assert_eq!(ConfidenceLevel::Medium.to_string(), "Medium");
    assert_eq!(ConfidenceLevel::Low.to_string(), "Low");
}

#[test]
fn test_node_role_display() {
    assert_eq!(NodeRole::EntryPoint.to_string(), "Entry Point");
    assert_eq!(NodeRole::Utility.to_string(), "Utility");
    assert_eq!(NodeRole::CoreLogic.to_string(), "Core Logic");
    assert_eq!(NodeRole::Isolated.to_string(), "Isolated");
    assert_eq!(NodeRole::Adapter.to_string(), "Adapter");
}

#[test]
fn impact_of_a_leaf() {
    let mut graph = ArborGraph::new();
    let leaf = graph.add_node(make_node("leaf"));
    for i in 0..5 {
        let c = graph.add_node(make_node(&format!("caller{}", i)));
        graph.add_edge(c, leaf, Edge::new(EdgeKind::Calls));
    }
    let analysis = graph.analyze_impact(leaf, 3);
    assert_eq!(analysis.upstream.len(), 5);
    assert!(analysis.downstream.is_empty());
    assert!(analysis.upstream.iter().all(|n| n.hop_distance == 1 && n.severity == ImpactSeverity::Direct));
    assert_eq!(NodeRole::from_analysis(&analysis), NodeRole::Utility);
    let confidence = ConfidenceExplanation::from_analysis(&analysis);
    assert_eq!(confidence.level, ConfidenceLevel::High);
    assert_eq!(confidence.reasons, vec![
        "Node is a utility (no outgoing dependencies)".to_string(),
        "Called by 5 upstream nodes".to_string(),
        "5 nodes will break immediately".to_string(),
    ]);
}

#[test]
fn impact_hops_and_depth_bound() {
    let mut graph = ArborGraph::new();
    let a = graph.add_node(make_node("a"));
    let b = graph.add_node(make_node("b"));
    let c = graph.add_node(make_node("c"));
    let d = graph.add_node(make_node("d"));
    graph.add_edge(a, b, Edge::new(EdgeKind::Calls));
    graph.add_edge(b, c, Edge::new(EdgeKind::Calls));
    graph.add_edge(c, d, Edge::new(EdgeKind::Calls));
    let all = graph.analyze_impact(a, 0);
    let hops: Vec<(usize, usize)> = all.downstream.iter().map(|n| (n.node_id.index(), n.hop_distance)).collect();
    assert_eq!(hops, vec![(1, 1), (2, 2), (3, 3)]);
    assert_eq!(all.total_affected, 3);
    assert_eq!(all.downstream[1].severity, ImpactSeverity::Transitive);
    let two = graph.analyze_impact(a, 2);
    assert_eq!(two.downstream.len(), 2);
    assert!(two.downstream.iter().all(|n| n.hop_distance <= 2));
    let up = graph.analyze_impact(d, 1);
    assert_eq!(up.upstream.len(), 1);
    assert_eq!(up.upstream[0].node_id, c);
    assert_eq!(up.max_depth, 1);
}

#[test]
fn impact_in_a_cycle_reports_both_sides() {
    let mut graph = ArborGraph::new();
    let a = graph.add_node(make_node("a"));
    let b = graph.add_node(make_node("b"));
    graph.add_edge(a, b, Edge::new(EdgeKind::Calls));
    graph.add_edge(b, a, Edge::new(EdgeKind::Calls));
    let r = graph.analyze_impact(a, 5);
    assert_eq!(r.upstream.len(), 1);
    assert_eq!(r.downstream.len(), 1);
    assert_eq!(r.upstream[0].node_id, r.downstream[0].node_id);
}

#[test]
fn confidence_levels_follow_the_table() {
    let mut graph = ArborGraph::new();
    let lonely = graph.add_node(make_node("lonely"));
    let analysis = graph.analyze_impact(lonely, 3);
    let c = ConfidenceExplanation::from_analysis(&analysis);
    assert_eq!(c.level, ConfidenceLevel::Low);
    assert_eq!(NodeRole::from_analysis(&analysis), NodeRole::Isolated);
    assert_eq!(c.suggestions.last().unwrap(), "Tests still recommended for behavioral verification");

    let mut g2 = ArborGraph::new();
    let entry = g2.add_node(make_node("entry"));
    for i in 0..6 {
        let n = g2.add_node(make_node(&format!("dep{}", i)));
        g2.add_edge(entry, n, Edge::new(EdgeKind::Calls));
    }
    let a2 = g2.analyze_impact(entry, 3);
    assert_eq!(NodeRole::from_analysis(&a2), NodeRole::EntryPoint);
    assert_eq!(ConfidenceExplanation::from_analysis(&a2).level, ConfidenceLevel::Medium);

    let mut g3 = ArborGraph::new();
    let mid = g3.add_node(make_node("mid"));
    let up = g3.add_node(make_node("up"));
    g3.add_edge(up, mid, Edge::new(EdgeKind::Calls));
    for i in 0..6 {
        let n = g3.add_node(make_node(&format!("d{}", i)));
        g3.add_edge(mid, n, Edge::new(EdgeKind::Calls));
    }
    let a3 = g3.analyze_impact(mid, 3);
    assert_eq!(NodeRole::from_analysis(&a3), NodeRole::Adapter);
    assert_eq!(ConfidenceExplanation::from_analysis(&a3).level, ConfidenceLevel::High);

    let mut g4 = ArborGraph::new();
    let hub = g4.add_node(make_node("hub"));
    for i in 0..30 {
        let n = g4.add_node(make_node(&format!("u{}", i)));
        g4.add_edge(n, hub, Edge::new(EdgeKind::Calls));
    }
    for i in 0..30 {
        let n = g4.add_node(make_node(&format!("v{}", i)));
        g4.add_edge(hub, n, Edge::new(EdgeKind::Calls));
    }
    let a4 = g4.analyze_impact(hub, 3);
    assert_eq!(a4.total_affected, 60);
    assert_eq!(NodeRole::from_analysis(&a4), NodeRole::CoreLogic);
    assert_eq!(ConfidenceExplanation::from_analysis(&a4).level, ConfidenceLevel::Low);
}

#[test]
fn test_empty_graph() {
    let graph = ArborGraph::new();
    let result = graph.slice_context(NodeId::new(0), 1000, 2, &vec![]);
    assert!(result.nodes.is_empty());
    assert_eq!(result.total_tokens, 0);
}

#[test]
fn test_single_node() {
    let mut graph = ArborGraph::new();
    let id = graph.add_node(make_node("lonely"));
    let result = graph.slice_context(id, 1000, 2, &vec![]);
    assert_eq!(result.nodes.len(), 1);
    assert_eq!(result.nodes[0].node_info.name, "lonely");
    assert_eq!(result.truncation_reason, TruncationReason::Complete);
}

#[test]
fn test_linear_chain_depth_limit() {
    let mut graph = ArborGraph::new();
    let a = graph.add_node(make_node("a"));
    let b = graph.add_node(make_node("b"));
    let c = graph.add_node(make_node("c"));
    let d = graph.add_node(make_node("d"));
    graph.add_edge(a, b, Edge::new(EdgeKind::Calls));
    graph.add_edge(b, c, Edge::new(EdgeKind::Calls));
    graph.add_edge(c, d, Edge::new(EdgeKind::Calls));
    let result = graph.slice_context(b, 10000, 1, &vec![]);
    let names: Vec<&str> = result.nodes.iter().map(|n| n.node_info.name.as_str()).collect();
    assert!(names.contains(&"b"));
    assert!(names.contains(&"a"));
    assert!(names.contains(&"c"));
    assert!(!names.contains(&"d"));
    assert_eq!(result.truncation_reason, TruncationReason::MaxDepth);
}

#[test]
fn test_token_budget() {
    let mut graph = ArborGraph::new();
    let a = graph.add_node(make_node("a"));
    let b = graph.add_node(make_node("b"));
    let c = graph.add_node(make_node("c"));
    graph.add_edge(a, b, Edge::new(EdgeKind::Calls));
    graph.add_edge(b, c, Edge::new(EdgeKind::Calls));
    let result = graph.slice_context(a, 5, 10, &vec![]);
    assert!(result.nodes.len() < 3);
    assert_eq!(result.truncation_reason, TruncationReason::TokenBudget);
}

#[test]
fn test_pinned_nodes_bypass_budget() {
    let mut graph = ArborGraph::new();
    let a = graph.add_node(make_node("a"));
    let b = graph.add_node(make_node("important_node"));
    let c = graph.add_node(make_node("c"));
    graph.add_edge(a, b, Edge::new(EdgeKind::Calls));
    graph.add_edge(b, c, Edge::new(EdgeKind::Calls));
    let result = graph.slice_context(a, 5, 10, &vec![b]);
    assert!(result.nodes.iter().any(|n| n.node_info.name == "important_node"));
}

#[test]
fn test_complete_traversal() {
    let mut graph = ArborGraph::new();
    let a = graph.add_node(make_node("a"));
    let b = graph.add_node(make_node("b"));
    graph.add_edge(a, b, Edge::new(EdgeKind::Calls));
    let result = graph.slice_context(a, 100000, 10, &vec![]);
    assert_eq!(result.truncation_reason, TruncationReason::Complete);
    assert_eq!(result.nodes.len(), 2);
}

#[test]
fn slice_truncation_scenario() {
    let mut graph = ArborGraph::new();
    let a = graph.add_node(make_node("a"));
    let b = graph.add_node(make_node("b"));
    let c = graph.add_node(make_node("c"));
    graph.add_edge(a, b, Edge::new(EdgeKind::Calls));
    graph.add_edge(b, c, Edge::new(EdgeKind::Calls));
    let one = estimate_tokens(&NodeInfo::from_node(graph.get(a).unwrap(), 0));
    assert_eq!(one, 13);
    let budget = 2 * one;
    let plain = graph.slice_context(a, budget, 10, &vec![]);
    assert_eq!(plain.nodes.len(), 2);
    assert_eq!(plain.truncation_reason, TruncationReason::TokenBudget);
    let pinned = graph.slice_context(a, budget, 10, &vec![c]);
    assert_eq!(pinned.nodes.len(), 3);
    assert!(pinned.nodes.iter().any(|n| n.node_id == c && n.pinned));
    assert!(pinned.nodes[0].pinned);
    assert_eq!(pinned.truncation_reason, TruncationReason::TokenBudget);
    let unpinned: usize = pinned.nodes.iter().filter(|n| !n.pinned).map(|n| n.token_estimate).sum();
    assert!(unpinned <= budget);
    assert_eq!(pinned.pinned_only().len(), 1);
    assert_eq!(TruncationReason::TokenBudget.to_string(), "token_budget");
}

#[test]
fn token_estimate_formula() {
    let n = CodeNode::new("ab", "m.ab", NodeKind::Function, "x.rs")
        .with_lines(10, 12)
        .with_signature("fn ab()".to_string());
    let info = NodeInfo::from_node(&n, 0);
    // 2 + 4 + 4 + 7 + 40 * 3 = 137 characters, 35 tokens
    assert_eq!(estimate_tokens(&info), 35);
    let reversed = CodeNode::new("x", "x", NodeKind::Function, "y").with_lines(5, 2);
    // 1 + 1 + 1 + 0 + 40 = 43 characters, 11 tokens
    assert_eq!(estimate_tokens(&NodeInfo::from_node(&reversed, 0)), 11);
}

#[test]
fn test_centrality_empty_graph() {
    let graph = ArborGraph::new();
    let scores = compute_centrality(&graph, 10, 85);
    assert_eq!(scores.len(), 0);
}

#[test]
fn test_centrality_single_node() {
    let mut graph = ArborGraph::new();
    graph.add_node(make_node("foo"));
    let scores = compute_centrality(&graph, 10, 85);
    assert_eq!(scores.len(), 1);
}

#[test]
fn test_centrality_popular_node_ranks_higher() {
    let mut graph = ArborGraph::new();
    let popular_idx = graph.add_node(make_node("popular"));
    for i in 0..5 {
        let caller_idx = graph.add_node(make_node(&format!("caller{}", i)));
        graph.add_edge(caller_idx, popular_idx, Edge::new(EdgeKind::Calls));
    }
    let scores = compute_centrality(&graph, 20, 85);
    let popular_score = scores.get(popular_idx);
    assert!(popular_score > CENTRALITY_ONE / 2, "Popular node should rank high");
}

#[test]
fn centrality_maximum_is_one() {
    let mut builder = GraphBuilder::new();
    let a = make_node("a").with_references(vec!["b".to_string(), "c".to_string()]);
    let b = make_node("b").with_references(vec!["c".to_string()]);
    builder.add_nodes(vec![a, b, make_node("c")]);
    let mut graph = builder.build();
    let scores = compute_centrality(&graph, 20, 85).into_map();
    assert_eq!(scores.iter().copied().max(), Some(CENTRALITY_ONE));
    assert!(scores.iter().all(|s| *s <= CENTRALITY_ONE));
    graph.rank();
    assert_eq!(graph.centrality(NodeId::new(2)), CENTRALITY_ONE);
}

#[test]
fn slice_summary_line() {
    let mut graph = ArborGraph::new();
    let a = graph.add_node(make_node("a"));
    let s = graph.slice_context(a, 1000, 2, &vec![]);
    assert_eq!(s.summary(), "Context: 1 nodes, ~13 tokens (complete)");
}

#[test]
fn similar_symbol_suggestions() {
    let mut builder = GraphBuilder::new();
    let a = CodeNode::new("authenticate", "auth.authenticate", NodeKind::Function, "a.rs");
    let b = CodeNode::new("auth", "mod.auth", NodeKind::Function, "b.rs");
    let c = CodeNode::new("user_auth_handler", "user_auth_handler", NodeKind::Function, "c.rs");
    let d = CodeNode::new("login", "login", NodeKind::Function, "d.rs")
        .with_references(vec!["authenticate".to_string()]);
    let e = CodeNode::new("unrelated", "unrelated", NodeKind::Function, "e.rs");
    builder.add_nodes(vec![a, b, c, d, e]);
    let graph = builder.build();
    let s = arbor::service::suggest_similar_symbols(&graph, "AUTH");
    let named: Vec<(String, u32, usize)> = s
        .iter()
        .map(|(id, rel, callers)| (graph.get(*id).unwrap().name.clone(), *rel, *callers))
        .collect();
    assert_eq!(named, vec![
        ("auth".to_string(), 100, 0),
        ("authenticate".to_string(), 60, 1),
        ("user_auth_handler".to_string(), 40, 0),
    ]);
}
