use arbor::heuristics::{detect_analysis_limitations, HeuristicsMatcher, UncertainEdgeKind};
use arbor::indexer::{cache_decision, CacheDecision, Debouncer, FileChange, IndexSession};
use arbor::node::{CodeNode, NodeKind};
use arbor::parser::parse_single_file;
use arbor::store_plan::{file_key, mtime_key, node_key, plan_remove_file, plan_update_file, StoreOp, CACHE_VERSION};
use arbor::service::{default_depth, default_limit, default_max_tokens, export, get_flutter_cmd_and_device, McpServer, INVALID_PARAMS};

#[test]
fn test_flutter_device_target() {
    assert_eq!(get_flutter_cmd_and_device("windows"), ("flutter.bat", "windows"));
    assert_eq!(get_flutter_cmd_and_device("macos"), ("flutter", "macos"));
    assert_eq!(get_flutter_cmd_and_device("linux"), ("flutter", "linux"));
}

#[test]
fn test_flutter_widget_detection() {
    let widget = CodeNode::new("HomeWidget", "HomeWidget", NodeKind::Class, "home.dart");
    assert!(HeuristicsMatcher::is_flutter_widget(&widget));
    let state = CodeNode::new("HomeState", "HomeState", NodeKind::Class, "home.dart");
    assert!(HeuristicsMatcher::is_flutter_widget(&state));
    let non_widget = CodeNode::new("UserService", "UserService", NodeKind::Class, "service.dart");
    assert!(!HeuristicsMatcher::is_flutter_widget(&non_widget));
}

#[test]
fn test_event_handler_detection() {
    let handler = CodeNode::new("onClick", "onClick", NodeKind::Function, "button.ts");
    assert!(HeuristicsMatcher::is_event_handler(&handler));
    let handler2 = CodeNode::new("handleSubmit", "handleSubmit", NodeKind::Function, "form.ts");
    assert!(HeuristicsMatcher::is_event_handler(&handler2));
    let non_handler = CodeNode::new("calculate", "calculate", NodeKind::Function, "math.ts");
    assert!(!HeuristicsMatcher::is_event_handler(&non_handler));
}

#[test]
fn other_name_patterns() {
    let f = |name: &str, kind: NodeKind, file: &str| CodeNode::new(name, name, kind, file);
    assert!(HeuristicsMatcher::is_react_component(&f("Button", NodeKind::Function, "ui/Button.tsx")));
    assert!(!HeuristicsMatcher::is_react_component(&f("button", NodeKind::Function, "ui/b.tsx")));
    assert!(HeuristicsMatcher::is_callback_style(&f("on_done", NodeKind::Function, "a.py")));
    assert!(HeuristicsMatcher::is_callback_style(&f("mapFn", NodeKind::Function, "a.ts")));
    assert!(HeuristicsMatcher::is_dependency_injection(&f("UserFactory", NodeKind::Class, "a.ts")));
    assert!(HeuristicsMatcher::is_dependency_injection(&f("MySingletonHolder", NodeKind::Class, "a.ts")));
    assert!(!HeuristicsMatcher::is_dependency_injection(&f("User", NodeKind::Class, "a.ts")));
    let edges = HeuristicsMatcher::infer_uncertain_edges(&vec![f("onClickHandler", NodeKind::Function, "a.ts")]);
    assert_eq!(edges.len(), 2);
    assert_eq!(edges[0].kind, UncertainEdgeKind::EventHandler);
    assert_eq!(edges[0].confidence_percent, 70);
    assert_eq!(edges[0].reason, "'onClickHandler' looks like an event handler");
    assert_eq!(edges[1].kind, UncertainEdgeKind::Callback);
    assert_eq!(UncertainEdgeKind::DependencyInjection.to_string(), "dependency injection");
}

#[test]
fn analysis_limitations() {
    let mut nodes = Vec::new();
    for i in 0..6 {
        nodes.push(CodeNode::new(&format!("cb{}Callback", i), "x", NodeKind::Function, "a.ts"));
    }
    nodes.push(CodeNode::new("HomePage", "HomePage", NodeKind::Class, "p.dart"));
    let w = detect_analysis_limitations(&nodes);
    let messages: Vec<&str> = w.iter().map(|x| x.message.as_str()).collect();
    assert_eq!(messages, vec!["Found 6 callback-style nodes", "Found 6 event handlers", "Detected 1 Flutter widgets"]);
    assert!(detect_analysis_limitations(&vec![]).is_empty());
}

#[test]
fn cache_hit_only_on_equal_mtime() {
    assert_eq!(cache_decision(Some(1000), 1000), CacheDecision::UseCache);
    assert_eq!(cache_decision(Some(1000), 2000), CacheDecision::Parse);
    assert_eq!(cache_decision(None, 1000), CacheDecision::Parse);
}

fn pass(files: &[(&str, &str, u64)], cache: &mut Vec<(String, u64, Vec<CodeNode>)>) -> arbor::indexer::IndexResult {
    let mut session = IndexSession::new();
    for (path, source, mtime) in files {
        let ext = path.rsplit('.').next();
        if !session.accept_file(path, ext) {
            continue;
        }
        let cached = cache.iter().find(|c| c.0 == *path).map(|c| c.1);
        match cache_decision(cached, *mtime) {
            CacheDecision::UseCache => {
                let nodes = cache.iter().find(|c| c.0 == *path).unwrap().2.clone();
                session.record_cache_hit(nodes);
            }
            CacheDecision::Parse => match parse_single_file(path, ext, source) {
                Ok(nodes) => {
                    cache.retain(|c| c.0 != *path);
                    cache.push((path.to_string(), *mtime, nodes.clone()));
                    session.record_parsed(nodes);
                }
                Err(e) => session.record_error(path.to_string(), format!("{:?}", e)),
            },
        }
    }
    let cached_paths: Vec<String> = cache.iter().map(|c| c.0.clone()).collect();
    for stale in session.stale_files(&cached_paths) {
        cache.retain(|c| c.0 != stale);
    }
    session.finish(0)
}

fn edge_set(g: &arbor::graph::ArborGraph) -> Vec<(String, String)> {
    let mut v: Vec<(String, String)> = g
        .edges()
        .iter()
        .map(|e| (g.get(e.from).unwrap().id.clone(), g.get(e.to).unwrap().id.clone()))
        .collect();
    v.sort();
    v
}

#[test]
fn cache_hit_after_no_op() {
    let files = [
        ("src/a.rs", "fn a() { b(); }", 10u64),
        ("src/b.rs", "fn b() {}", 20u64),
        ("README.md", "# readme", 5u64),
    ];
    let mut cache = Vec::new();
    let first = pass(&files, &mut cache);
    assert_eq!(first.files_indexed, 2);
    assert_eq!(first.cache_hits, 0);
    let second = pass(&files, &mut cache);
    assert_eq!(second.files_indexed, 0);
    assert_eq!(second.cache_hits, first.files_indexed);
    let ids = |g: &arbor::graph::ArborGraph| {
        let mut v: Vec<String> = g.nodes().iter().map(|n| n.id.clone()).collect();
        v.sort();
        v
    };
    assert_eq!(ids(&first.graph), ids(&second.graph));
    assert_eq!(edge_set(&first.graph), edge_set(&second.graph));
    assert_eq!(edge_set(&second.graph).len(), 1);
}

#[test]
fn incremental_delete() {
    let mut cache = Vec::new();
    let before = [("src/a.rs", "fn a() { b(); }", 10u64), ("src/b.rs", "fn b() {}", 20u64)];
    pass(&before, &mut cache);
    let after = [("src/a.rs", "fn a() { b(); }", 10u64)];
    let result = pass(&after, &mut cache);
    assert!(cache.iter().all(|c| c.0 != "src/b.rs"));
    assert!(result.graph.nodes().iter().all(|n| n.file != "src/b.rs"));
    assert_eq!(result.graph.edge_count(), 0);
    assert_eq!(result.cache_hits, 1);
}

#[test]
fn parse_errors_are_collected() {
    let mut cache = Vec::new();
    let files = [("src/empty.rs", "", 1u64), ("src/ok.rs", "fn ok() {}", 1u64)];
    let r = pass(&files, &mut cache);
    assert_eq!(r.errors.len(), 1);
    assert_eq!(r.errors[0].0, "src/empty.rs");
    assert_eq!(r.files_indexed, 1);
    assert_eq!(r.nodes_extracted, 1);
}

#[test]
fn debounce_keeps_the_latest_change_per_path() {
    let mut d = Debouncer::new(1000);
    d.record(FileChange::Created("a.rs".to_string()), 0);
    d.record(FileChange::Modified("a.rs".to_string()), 500);
    d.record(FileChange::Modified("b.rs".to_string()), 900);
    assert!(d.due(1200).is_empty());
    assert_eq!(d.due(1500), vec![FileChange::Modified("a.rs".to_string())]);
    assert_eq!(d.due(1900), vec![FileChange::Modified("b.rs".to_string())]);
    assert!(d.due(5000).is_empty());
}

#[test]
fn service_defaults_and_tools() {
    assert_eq!((default_limit(), default_depth(), default_max_tokens()), (10, 3, 8000));
    let nodes = parse_single_file("m.rs", Some("rs"), "fn top() { mid(); } fn mid() { low(); } fn low() {}").unwrap();
    let mut b = arbor::builder::GraphBuilder::new();
    b.add_nodes(nodes);
    let graph = b.build();
    let server = McpServer::new(graph);
    let (analysis, confidence, role) = server.analyze_impact_tool("mid", 5).unwrap();
    assert_eq!(analysis.upstream.len(), 1);
    assert_eq!(analysis.downstream.len(), 1);
    assert_eq!(role.to_string(), "Core Logic");
    assert_eq!(confidence.level.to_string(), "High");
    assert!(server.analyze_impact_tool("nothing", 5).is_none());
    let path = server.find_path_tool("top", "low").unwrap().unwrap();
    let names: Vec<String> = path.iter().map(|id| server.graph().get(*id).unwrap().name.clone()).collect();
    assert_eq!(names, vec!["top", "mid", "low"]);
    assert_eq!(server.find_path_tool("top", "zzz").unwrap_err().code, INVALID_PARAMS);
    assert!(server.spotlight_target("top").is_none());
    let lit = McpServer::with_spotlight(server.graph().replace_file("none.rs", vec![]));
    assert_eq!(lit.spotlight_target("top").unwrap().file, "m.rs");
    let ex = export(server.graph());
    assert_eq!((ex.version.as_str(), ex.node_count, ex.edge_count), ("1.0", 3, 2));
}

#[test]
fn search_ignores_case_and_respects_limit() {
    let nodes = parse_single_file("s.rs", Some("rs"), "fn ParseUser() {} fn parse_item() {} fn other() {}").unwrap();
    let mut b = arbor::builder::GraphBuilder::new();
    b.add_nodes(nodes);
    let graph = b.build();
    let hits = graph.search("PARSE", 10);
    let names: Vec<String> = hits.iter().map(|id| graph.get(*id).unwrap().name.clone()).collect();
    assert_eq!(names, vec!["ParseUser".to_string(), "parse_item".to_string()]);
    assert_eq!(graph.search("parse", 1).len(), 1);
    assert!(graph.search("zzz", 5).is_empty());
}

#[test]
fn architectural_brief() {
    let nodes = parse_single_file("m.rs", Some("rs"), "fn top() { low(); } fn low() {}").unwrap();
    let mut b = arbor::builder::GraphBuilder::new();
    b.add_nodes(nodes);
    let mut graph = b.build();
    graph.rank();
    let server = McpServer::new(graph);
    let brief = server.generate_context("top");
    assert!(brief.starts_with("# Architectural Brief: `top`\n\n"));
    assert!(brief.contains("| **Type** | function |"));
    assert!(brief.contains("| `low` | function | 1.00 | `m.rs` |"));
    assert!(brief.contains("*None - Potential entry point or dead code.*"));
    assert_eq!(server.generate_context("nope"), "Node 'nope' not found in the graph. Check the name or ID.");
    assert_eq!(arbor::service::fixed2(arbor::ranking::CENTRALITY_ONE), "1.00");
    assert_eq!(arbor::service::fixed2(125_000_000), "0.13");
    assert_eq!(arbor::service::fixed2(0), "0.00");
}

#[test]
fn store_batches_follow_the_key_layout() {
    assert_eq!(node_key("abc"), "n:abc");
    assert_eq!(file_key("src/a.rs"), "f:src/a.rs");
    assert_eq!(mtime_key("src/a.rs"), "m:src/a.rs");
    assert_eq!(CACHE_VERSION, "arbor-1.3");
    let foo = CodeNode::new("foo", "foo", NodeKind::Function, "test.rs");
    let id = foo.id.clone();
    let ops = plan_update_file("test.rs", &vec!["old".to_string()], &vec![foo], 1000);
    assert_eq!(ops, vec![
        StoreOp::Remove("n:old".to_string()),
        StoreOp::PutNode(format!("n:{}", id), 0),
        StoreOp::PutIds("f:test.rs".to_string(), vec![id.clone()]),
        StoreOp::PutMtime("m:test.rs".to_string(), 1000),
    ]);
    let gone = plan_remove_file("test.rs", &vec![id.clone()]);
    assert_eq!(gone, vec![
        StoreOp::Remove(format!("n:{}", id)),
        StoreOp::Remove("f:test.rs".to_string()),
        StoreOp::Remove("m:test.rs".to_string()),
    ]);
}

#[test]
fn tools_resolve_ids_and_qualified_names() {
    let nodes = parse_single_file("m.rs", Some("rs"), "struct S; impl S { fn run(&self) { helper(); } } fn helper() {}").unwrap();
    let mut b = arbor::builder::GraphBuilder::new();
    b.add_nodes(nodes);
    let graph = b.build();
    let helper_id = graph.get(graph.find_by_name("helper")[0]).unwrap().id.clone();
    let server = McpServer::new(graph);
    let (by_id, _, role) = server.analyze_impact_tool(&helper_id, 5).unwrap();
    assert_eq!(by_id.target.name, "helper");
    assert_eq!(by_id.upstream.len(), 1);
    assert_eq!(by_id.upstream[0].node_info.qualified_name, "S.run");
    assert_eq!(role.to_string(), "Utility");
    let (by_qn, _, _) = server.analyze_impact_tool("S.run", 5).unwrap();
    assert_eq!(by_qn.downstream.len(), 1);
    let path = server.find_path_tool("S.run", &helper_id).unwrap().unwrap();
    assert_eq!(path.len(), 2);
    assert!(server.find_path_tool("helper", "S.run").unwrap().is_none());
}
