//! A plain copy of a parsed syntax tree, and the parser calls that produce it.
use vstd::prelude::*;
use vstd::string::*;

verus! {

#[verifier::external_type_specification]
#[verifier::external_body]
pub struct ExTree(tree_sitter::Tree);

#[verifier::external_type_specification]
#[verifier::external_body]
pub struct ExSyntaxNode<'a>(tree_sitter::Node<'a>);

#[verifier::external_type_specification]
#[verifier::external_body]
pub struct ExLanguage(tree_sitter::Language);

#[verifier::external_type_specification]
#[verifier::external_body]
pub struct ExParser(tree_sitter::Parser);

/// One node of a syntax tree: its grammar kind, the field it fills in its parent,
/// where it lies in the source, and the positions of its children in the tree.
#[derive(Clone, Debug)]
pub struct SyntaxEntry {
    pub kind: String,
    pub field: Option<String>,
    pub start_byte: usize,
    pub end_byte: usize,
    pub start_row: usize,
    pub start_column: usize,
    pub end_row: usize,
    pub children: Vec<usize>,
}

/// A syntax tree stored children first: every child sits before its parent.
#[derive(Clone, Debug)]
pub struct SyntaxTree {
    pub nodes: Vec<SyntaxEntry>,
    pub root: usize,
}

impl SyntaxTree {
    pub open spec fn wf(&self) -> bool {
        &&& self.root < self.nodes@.len()
        &&& forall|p: int, j: int|
            0 <= p < self.nodes@.len() && 0 <= j < self.nodes@[p].children@.len()
                ==> #[trigger] self.nodes@[p].children@[j] < p
    }
}

/// Nesting beyond this depth is not copied, which bounds the work on any input.
pub const MAX_NESTING: usize = 400;

/// Relies on `tree_sitter::Parser::new`.
#[verifier::external_body]
fn new_parser() -> tree_sitter::Parser {
    tree_sitter::Parser::new()
}

/// Relies on `tree_sitter::Parser::set_language`: whether the grammar was accepted.
#[verifier::external_body]
fn set_parser_language(parser: &mut tree_sitter::Parser, language: &tree_sitter::Language) -> bool {
    parser.set_language(language).is_ok()
}

/// Relies on `tree_sitter::Parser::parse`: a tree for `source`, or none when the parser
/// gives up.
#[verifier::external_body]
fn run_parser(parser: &mut tree_sitter::Parser, source: &str) -> Option<tree_sitter::Tree> {
    parser.parse(source, None)
}

/// Relies on `tree_sitter::Tree::root_node`.
#[verifier::external_body]
fn root_of<'a>(tree: &'a tree_sitter::Tree) -> tree_sitter::Node<'a> {
    tree.root_node()
}

/// Relies on `tree_sitter::Node::kind`.
#[verifier::external_body]
fn kind_of(node: &tree_sitter::Node) -> String {
    node.kind().to_string()
}

/// Relies on `tree_sitter::Node::child_count`.
#[verifier::external_body]
fn child_count_of(node: &tree_sitter::Node) -> usize {
    node.child_count()
}

/// Relies on `tree_sitter::Node::child`.
#[verifier::external_body]
fn child_at<'a>(node: &tree_sitter::Node<'a>, i: usize) -> Option<tree_sitter::Node<'a>> {
    node.child(i)
}

/// Relies on `tree_sitter::Node::field_name_for_child`.
#[verifier::external_body]
fn field_name_at(node: &tree_sitter::Node, i: u32) -> Option<String> {
    node.field_name_for_child(i).map(|f| f.to_string())
}

/// Relies on `tree_sitter::Node::byte_range`: start and end byte.
#[verifier::external_body]
fn byte_range_of(node: &tree_sitter::Node) -> (usize, usize) {
    let r = node.byte_range();
    (r.start, r.end)
}

/// Relies on `tree_sitter::Node::start_position`: row and column.
#[verifier::external_body]
fn start_point_of(node: &tree_sitter::Node) -> (usize, usize) {
    let p = node.start_position();
    (p.row, p.column)
}

/// Relies on `tree_sitter::Node::end_position`: its row.
#[verifier::external_body]
fn end_row_of(node: &tree_sitter::Node) -> usize {
    node.end_position().row
}

/// Relies on `tree_sitter_rust::language`.
#[verifier::external_body]
fn rust_grammar() -> tree_sitter::Language {
    tree_sitter_rust::language()
}

/// Relies on `tree_sitter_python::language`.
#[verifier::external_body]
fn python_grammar() -> tree_sitter::Language {
    tree_sitter_python::language()
}

/// Relies on `tree_sitter_typescript::language_typescript`.
#[verifier::external_body]
fn typescript_grammar() -> tree_sitter::Language {
    tree_sitter_typescript::language_typescript()
}

/// Relies on `tree_sitter_c::language`.
#[verifier::external_body]
fn c_grammar() -> tree_sitter::Language {
    tree_sitter_c::language()
}

/// The grammars this library can parse with.
#[derive(Clone, Copy, Debug, PartialEq, Eq, Hash, Structural)]
pub enum Grammar {
    Rust,
    Python,
    TypeScript,
    C,
}

/// Copies `node` and, down to `depth` more levels, its descendants into `out`,
/// children first; returns the position of the copy of `node`.
fn copy_node(node: &tree_sitter::Node, field: Option<String>, depth: usize, out: &mut Vec<SyntaxEntry>) -> (r: usize)
    requires
        forall|p: int, j: int|
            0 <= p < old(out)@.len() && 0 <= j < old(out)@[p].children@.len()
                ==> #[trigger] old(out)@[p].children@[j] < p,
    ensures
        r < final(out)@.len(),
        r == final(out)@.len() - 1,
        forall|p: int, j: int|
            0 <= p < final(out)@.len() && 0 <= j < final(out)@[p].children@.len()
                ==> #[trigger] final(out)@[p].children@[j] < p,
        old(out)@.len() <= final(out)@.len(),
    decreases depth,
{
    let kind = kind_of(node);
    let (start_byte, end_byte) = byte_range_of(node);
    let (start_row, start_column) = start_point_of(node);
    let end_row = end_row_of(node);
    let mut children: Vec<usize> = Vec::new();
    if depth > 0 {
        let count = child_count_of(node);
        let mut i: usize = 0;
        while i < count
            invariant
                i <= count,
                depth > 0,
                old(out)@.len() <= out@.len(),
                forall|p: int, j: int|
                    0 <= p < out@.len() && 0 <= j < out@[p].children@.len()
                        ==> #[trigger] out@[p].children@[j] < p,
                forall|j: int| 0 <= j < children@.len() ==> #[trigger] children@[j] < out@.len(),
            decreases count - i,
        {
            match child_at(node, i) {
                Some(child) => {
                    let f = if i <= u32::MAX as usize { field_name_at(node, i as u32) } else { None };
                    let c = copy_node(&child, f, depth - 1, out);
                    children.push(c);
                },
                None => {},
            }
            i = i + 1;
        }
    }
    let ghost before = out@;
    out.push(SyntaxEntry { kind, field, start_byte, end_byte, start_row, start_column, end_row, children });
    proof {
        assert forall|p: int, j: int|
            0 <= p < out@.len() && 0 <= j < out@[p].children@.len() implies #[trigger] out@[p].children@[j] < p by {
            if p < before.len() {
                assert(out@[p] == before[p]);
            }
        }
    }
    out.len() - 1
}

/// Parses `source` with `grammar` into a plain tree; `None` when the parser gives up.
/// Nodes nested more than `MAX_NESTING` levels below the root are not copied, so
/// declarations that deep are not extracted.
pub fn parse_syntax(grammar: Grammar, source: &str) -> (r: Option<SyntaxTree>)
    ensures
        r.is_some() ==> r.unwrap().wf(),
{
    let language = match grammar {
        Grammar::Rust => rust_grammar(),
        Grammar::Python => python_grammar(),
        Grammar::TypeScript => typescript_grammar(),
        Grammar::C => c_grammar(),
    };
    let mut parser = new_parser();
    if !set_parser_language(&mut parser, &language) {
        return None;
    }
    match run_parser(&mut parser, source) {
        Some(tree) => {
            let root = root_of(&tree);
            let mut nodes: Vec<SyntaxEntry> = Vec::new();
            let r = copy_node(&root, None, MAX_NESTING, &mut nodes);
            Some(SyntaxTree { nodes, root: r })
        },
        None => None,
    }
}

/// The text that `str::get` gives for a byte range of a string (empty when the range
/// is not on character boundaries).
pub uninterp spec fn source_slice(source: Seq<char>, start: int, end: int) -> Seq<char>;

/// Relies on `str::get` with a byte range: the result depends on its arguments alone.
#[verifier::external_body]
fn slice_source(source: &str, start: usize, end: usize) -> (r: String)
    ensures
        r@ == source_slice(source@, start as int, end as int),
{
    source.get(start..end).unwrap_or("").to_string()
}

impl SyntaxEntry {
    /// The source text of this node.
    pub fn text(&self, source: &str) -> (r: String)
        ensures
            r@ == source_slice(source@, self.start_byte as int, self.end_byte as int),
    {
        slice_source(source, self.start_byte, self.end_byte)
    }

    /// Whether the grammar kind is `kind`.
    pub fn is_kind(&self, kind: &str) -> (r: bool)
        ensures
            r == (self.kind@ == kind@),
    {
        let key = String::from_str(kind);
        self.kind == key
    }
}

impl SyntaxTree {
    /// The first child of node `p` that fills field `name`.
    pub(crate) fn child_by_field(&self, p: usize, name: &str) -> (r: Option<usize>)
        requires
            self.wf(),
            p < self.nodes@.len(),
        ensures
            r == first_field(*self, p as int, name@, 0),
            r.is_some() ==> r.unwrap() < p,
    {
        let key = String::from_str(name);
        let kids = &self.nodes[p].children;
        let mut i: usize = 0;
        while i < kids.len()
            invariant
                self.wf(),
                p < self.nodes@.len(),
                *kids == self.nodes@[p as int].children,
                i <= kids@.len(),
                key@ == name@,
                first_field(*self, p as int, name@, 0) == first_field(*self, p as int, name@, i as int),
            decreases kids@.len() - i,
        {
            let c = kids[i];
            assert(self.nodes@[p as int].children@[i as int] < p);
            match &self.nodes[c].field {
                Some(f) => {
                    if *f == key {
                        return Some(c);
                    }
                },
                None => {},
            }
            i = i + 1;
        }
        None
    }

    /// The first child of node `p` of grammar kind `kind`.
    pub(crate) fn child_of_kind(&self, p: usize, kind: &str) -> (r: Option<usize>)
        requires
            self.wf(),
            p < self.nodes@.len(),
        ensures
            r == first_kind(*self, p as int, kind@, 0),
            r.is_some() ==> r.unwrap() < p,
    {
        let key = String::from_str(kind);
        let kids = &self.nodes[p].children;
        let mut i: usize = 0;
        while i < kids.len()
            invariant
                self.wf(),
                p < self.nodes@.len(),
                *kids == self.nodes@[p as int].children,
                i <= kids@.len(),
                key@ == kind@,
                first_kind(*self, p as int, kind@, 0) == first_kind(*self, p as int, kind@, i as int),
            decreases kids@.len() - i,
        {
            let c = kids[i];
            assert(self.nodes@[p as int].children@[i as int] < p);
            if self.nodes[c].kind == key {
                return Some(c);
            }
            i = i + 1;
        }
        None
    }
}

/// The first child of node `p`, from position `j` on, that fills field `name`.
pub open spec fn first_field(t: SyntaxTree, p: int, name: Seq<char>, j: int) -> Option<usize>
    decreases t.nodes@[p].children@.len() - j,
{
    if j < 0 || j >= t.nodes@[p].children@.len() {
        None
    } else {
        let c = t.nodes@[p].children@[j];
        if 0 <= c < t.nodes@.len() && t.nodes@[c as int].field.is_some() && t.nodes@[c as int].field.unwrap()@ == name {
            Some(c)
        } else {
            first_field(t, p, name, j + 1)
        }
    }
}

/// The first child of node `p`, from position `j` on, of grammar kind `kind`.
pub open spec fn first_kind(t: SyntaxTree, p: int, kind: Seq<char>, j: int) -> Option<usize>
    decreases t.nodes@[p].children@.len() - j,
{
    if j < 0 || j >= t.nodes@[p].children@.len() {
        None
    } else {
        let c = t.nodes@[p].children@[j];
        if 0 <= c < t.nodes@.len() && t.nodes@[c as int].kind@ == kind {
            Some(c)
        } else {
            first_kind(t, p, kind, j + 1)
        }
    }
}

} // verus!
