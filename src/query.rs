//! Snapshot records handed out by queries.
use vstd::prelude::*;
use crate::node::{kind_name, CodeNode};

verus! {

/// A copy of the facts about a vertex that query results carry.
#[derive(Clone, Debug)]
pub struct NodeInfo {
    pub id: String,
    pub name: String,
    pub qualified_name: String,
    pub kind: String,
    pub file: String,
    pub line_start: u32,
    pub line_end: u32,
    pub signature: Option<String>,
    /// Centrality in fixed point, `CENTRALITY_ONE` standing for 1.0.
    pub centrality: u64,
}

/// `info` describes `node`, with centrality `c`.
pub open spec fn describes(info: NodeInfo, node: CodeNode, c: u64) -> bool {
    &&& info.id@ == node.id@
    &&& info.name@ == node.name@
    &&& info.qualified_name@ == node.qualified_name@
    &&& info.kind@ == kind_name(node.kind)
    &&& info.file@ == node.file@
    &&& info.line_start == node.line_start
    &&& info.line_end == node.line_end
    &&& info.signature.is_some() == node.signature.is_some()
    &&& node.signature.is_some() ==> info.signature.unwrap()@ == node.signature.unwrap()@
    &&& info.centrality == c
}

impl NodeInfo {
    pub fn from_node(node: &CodeNode, centrality: u64) -> (r: NodeInfo)
        ensures
            describes(r, *node, centrality),
    {
        let signature = match &node.signature {
            Some(s) => Some(s.clone()),
            None => None,
        };
        NodeInfo {
            id: node.id.clone(),
            name: node.name.clone(),
            qualified_name: node.qualified_name.clone(),
            kind: node.kind.to_string(),
            file: node.file.clone(),
            line_start: node.line_start,
            line_end: node.line_end,
            signature,
            centrality,
        }
    }

    /// The record standing for no vertex: empty strings, zero lines, no signature.
    pub fn empty() -> (r: NodeInfo)
        ensures
            r.id@.len() == 0 && r.name@.len() == 0 && r.qualified_name@.len() == 0,
            r.kind@.len() == 0 && r.file@.len() == 0,
            r.line_start == 0 && r.line_end == 0 && r.signature.is_none() && r.centrality == 0,
    {
        NodeInfo {
            id: String::new(),
            name: String::new(),
            qualified_name: String::new(),
            kind: String::new(),
            file: String::new(),
            line_start: 0,
            line_end: 0,
            signature: None,
            centrality: 0,
        }
    }
}

} // verus!
