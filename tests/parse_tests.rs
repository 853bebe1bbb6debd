use arbor::builder::GraphBuilder;
use arbor::impact::ImpactSeverity;
use arbor::lang_more::{python_visibility, CParser, PythonParser, TypeScriptParser};
use arbor::lang_rust::RustParser;
use arbor::node::{CodeNode, NodeKind, Visibility};
use arbor::parser::{detect_language, get_parser, is_supported, parse_single_file, parse_source, supported_extensions, ParseError, SourceLanguage};
use arbor::syntax::{parse_syntax, Grammar};

fn c_nodes(source: &str, file: &str) -> Vec<CodeNode> {
    let tree = parse_syntax(Grammar::C, source).unwrap();
    CParser::extract_nodes(&tree, source, file)
}

#[test]
fn test_detect_language() {
    assert!(detect_language("foo.rs").is_some());
    assert!(detect_language("bar.ts").is_some());
    assert!(detect_language("baz.py").is_some());
    assert!(detect_language("unknown.xyz").is_none());
    assert!(detect_language("dir.rs/Makefile").is_none());
    assert!(detect_language(".rs").is_none());
    assert_eq!(detect_language("src/lib.RS"), Some(SourceLanguage::Rust));
    assert_eq!(get_parser("RS"), Some(SourceLanguage::Rust));
    assert_eq!(get_parser("hxx"), Some(SourceLanguage::Cpp));
    assert_eq!(supported_extensions().len(), 22);
    assert!(supported_extensions().iter().all(|e| is_supported(e)));
    assert!(!is_supported(""));
}

#[test]
fn test_parse_rust_source() {
    let source = r#"
            fn hello_world() {
                println!("Hello!");
            }

            pub struct User {
                name: String,
            }
        "#;
    let nodes = parse_source(source, "test.rs", get_parser("rs").unwrap()).unwrap();
    assert!(nodes.iter().any(|n| n.name == "hello_world" && n.kind == NodeKind::Function));
    assert!(nodes.iter().any(|n| n.name == "User" && n.kind == NodeKind::Struct));
}

#[test]
fn test_parse_typescript_source() {
    let source = r#"
            export function greet(name: string): string {
                return `Hello, ${name}!`;
            }

            export class UserService {
                validate() {}
            }
        "#;
    let nodes = parse_source(source, "test.ts", get_parser("ts").unwrap()).unwrap();
    assert!(nodes.iter().any(|n| n.name == "greet" && n.kind == NodeKind::Function));
    assert!(nodes.iter().any(|n| n.name == "UserService" && n.kind == NodeKind::Class));
    assert!(nodes.iter().any(|n| n.qualified_name == "UserService.validate" && n.kind == NodeKind::Method));
    let greet = nodes.iter().find(|n| n.name == "greet").unwrap();
    assert!(greet.is_exported);
}

#[test]
fn test_parse_simple_function() {
    let source = r#"
#include <stdio.h>

int main(int argc, char *argv[]) {
    printf("Hello, World!\n");
    return 0;
}
"#;
    let nodes = c_nodes(source, "main.c");
    assert!(nodes.iter().any(|n| n.name == "main" && matches!(n.kind, NodeKind::Function)));
    assert!(nodes.iter().any(|n| n.name == "stdio.h" && matches!(n.kind, NodeKind::Import)));
}

#[test]
fn test_parse_struct() {
    let source = r#"
struct Point {
    int x;
    int y;
};
"#;
    let nodes = c_nodes(source, "point.h");
    assert!(nodes.iter().any(|n| n.name == "Point" && matches!(n.kind, NodeKind::Struct)));
}

#[test]
fn test_static_visibility() {
    let source = r#"
static void helper() {}
void public_func() {}
"#;
    let nodes = c_nodes(source, "test.c");
    let helper = nodes.iter().find(|n| n.name == "helper").unwrap();
    let public_func = nodes.iter().find(|n| n.name == "public_func").unwrap();
    assert!(matches!(helper.visibility, Visibility::Private));
    assert!(matches!(public_func.visibility, Visibility::Public));
}

#[test]
fn rust_methods_visibility_and_references() {
    let source = r#"
use std::collections::HashMap;

pub struct Service;

impl Service {
    pub(crate) async fn run(&self) -> u32 {
        self.step();
        helper();
        helper();
        0
    }
}

fn helper() {}
"#;
    let tree = parse_syntax(Grammar::Rust, source).unwrap();
    let nodes = RustParser::extract_nodes(&tree, source, "svc.rs");
    let run = nodes.iter().find(|n| n.name == "run").unwrap();
    assert_eq!(run.kind, NodeKind::Method);
    assert_eq!(run.qualified_name, "Service.run");
    assert_eq!(run.visibility, Visibility::Internal);
    assert!(run.is_async);
    assert_eq!(run.references, vec!["helper".to_string(), "step".to_string()]);
    assert_eq!(run.signature.as_deref(), Some("fn run(&self) u32"));
    assert_eq!(run.line_start, 7);
    assert!(nodes.iter().any(|n| n.kind == NodeKind::Import && n.name == "std::collections::HashMap"));
    let service = nodes.iter().find(|n| n.name == "Service").unwrap();
    assert_eq!(service.visibility, Visibility::Public);
    for n in &nodes {
        assert_eq!(n.id, CodeNode::compute_id(&n.file, &n.qualified_name, n.kind));
    }
}

#[test]
fn python_extraction() {
    let source = r#"
import os
from pkg.mod import thing

MAX_SIZE = 10
counter = 0

class Repo:
    """Stores things."""

    def _load(self):
        return os.path.join("a", "b")

    def __secret(self):
        self._load()

async def main():
    Repo()
"#;
    let tree = parse_syntax(Grammar::Python, source).unwrap();
    let nodes = PythonParser::extract_nodes(&tree, source, "repo.py");
    let load = nodes.iter().find(|n| n.name == "_load").unwrap();
    assert_eq!(load.qualified_name, "Repo._load");
    assert_eq!(load.kind, NodeKind::Method);
    assert_eq!(load.visibility, Visibility::Protected);
    assert_eq!(load.references, vec!["join".to_string()]);
    let repo = nodes.iter().find(|n| n.name == "Repo").unwrap();
    assert_eq!(repo.docstring.as_deref(), Some("Stores things."));
    assert!(load.docstring.is_none());
    let secret = nodes.iter().find(|n| n.name == "__secret").unwrap();
    assert_eq!(secret.visibility, Visibility::Private);
    let main = nodes.iter().find(|n| n.name == "main").unwrap();
    assert!(main.is_async);
    assert!(nodes.iter().any(|n| n.kind == NodeKind::Import && n.name == "os"));
    assert!(nodes.iter().any(|n| n.kind == NodeKind::Import && n.name == "pkg.mod"));
    assert!(nodes.iter().any(|n| n.kind == NodeKind::Constant && n.name == "MAX_SIZE"));
    assert!(nodes.iter().any(|n| n.kind == NodeKind::Variable && n.name == "counter"));
    assert_eq!(python_visibility("__init__"), Visibility::Protected);
    assert_eq!(python_visibility("plain"), Visibility::Public);
}

#[test]
fn typescript_imports_and_arrows() {
    let source = "import { x } from './util';\nconst add = (a: number) => { return x(a); };\n";
    let tree = parse_syntax(Grammar::TypeScript, source).unwrap();
    let nodes = TypeScriptParser::extract_nodes(&tree, source, "a.ts");
    assert!(nodes.iter().any(|n| n.kind == NodeKind::Import && n.name == "./util"));
    let add = nodes.iter().find(|n| n.name == "add").unwrap();
    assert_eq!(add.references, vec!["x".to_string()]);
}

#[test]
fn single_file_errors() {
    assert!(matches!(parse_single_file("pkg/__init__.py", Some("py"), ""), Ok(v) if v.is_empty()));
    assert!(matches!(parse_single_file("empty.rs", Some("rs"), ""), Err(ParseError::EmptyFile(_))));
    assert!(matches!(parse_single_file("notes.txt", Some("txt"), "hello"), Err(ParseError::UnsupportedLanguage(_))));
    assert!(matches!(parse_single_file("Makefile", None, "all:"), Err(ParseError::UnsupportedLanguage(_))));
    assert!(matches!(parse_source("x", "a.go", SourceLanguage::Go), Err(ParseError::ParserError(_))));
    let e = ParseError::io("a.rs".to_string(), "denied".to_string());
    assert_eq!(e, ParseError::IoError { path: "a.rs".to_string(), message: "denied".to_string() });
}

#[test]
fn two_function_call() {
    let source = "fn caller() { callee(); } fn callee() {}";
    let nodes = parse_single_file("lib.rs", Some("rs"), source).unwrap();
    assert_eq!(nodes.iter().filter(|n| n.kind == NodeKind::Function).count(), 2);
    let mut builder = GraphBuilder::new();
    builder.add_nodes(nodes);
    let graph = builder.build();
    assert_eq!(graph.edge_count(), 1);
    let e = graph.edges()[0];
    assert_eq!(graph.get(e.from).unwrap().name, "caller");
    assert_eq!(graph.get(e.to).unwrap().name, "callee");
    let callee = graph.find_by_name("callee")[0];
    let impact = graph.analyze_impact(callee, 5);
    assert_eq!(impact.upstream.len(), 1);
    assert_eq!(impact.upstream[0].node_info.name, "caller");
    assert_eq!(impact.upstream[0].severity, ImpactSeverity::Direct);
    assert_eq!(impact.upstream[0].hop_distance, 1);
    assert!(impact.downstream.is_empty());
    assert_eq!(impact.total_affected, 1);
}
