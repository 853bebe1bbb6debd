//! Entity extraction from Rust syntax trees.
use vstd::prelude::*;
use vstd::string::*;
use crate::builder::refs_of;
use crate::node::{node_id, CodeNode, NodeKind, Visibility};
use crate::syntax::{first_field, first_kind, source_slice, SyntaxTree};
use crate::text::{chars_of, contains_chars, sort_dedup, strictly_sorted};

verus! {

/// A record as extraction must leave it: in `file`, with the identity of
/// (file, qualified name, kind), and its reference names sorted without repeats.
pub open spec fn extracted_ok(n: CodeNode, file: Seq<char>) -> bool {
    &&& n.file@ == file
    &&& n.id@ == node_id(file, n.qualified_name@, n.kind)
    &&& strictly_sorted(refs_of(n))
}

pub open spec fn all_extracted_ok(s: Seq<CodeNode>, file: Seq<char>) -> bool {
    forall|k: int| 0 <= k < s.len() ==> extracted_ok(#[trigger] s[k], file)
}

/// The source text of node `q`.
pub open spec fn text_at(t: SyntaxTree, src: Seq<char>, q: int) -> Seq<char> {
    source_slice(src, t.nodes@[q].start_byte as int, t.nodes@[q].end_byte as int)
}

/// The callee name a call node `p` contributes, if it is a call with a callee.
pub open spec fn call_name(t: SyntaxTree, src: Seq<char>, p: int) -> Seq<Seq<char>> {
    if t.nodes@[p].kind@ == "call_expression"@ {
        match first_field(t, p, "function"@, 0) {
            Some(f) => if t.nodes@[f as int].kind@ == "field_expression"@ {
                match first_field(t, f as int, "field"@, 0) {
                    Some(g) => seq![text_at(t, src, g as int)],
                    None => seq![text_at(t, src, f as int)],
                }
            } else {
                seq![text_at(t, src, f as int)]
            },
            None => Seq::empty(),
        }
    } else {
        Seq::empty()
    }
}

/// The callee names under node `p`, in pre-order.
pub open spec fn calls_at(t: SyntaxTree, src: Seq<char>, p: int) -> Seq<Seq<char>>
    decreases p, 1int, 0int,
{
    if 0 <= p < t.nodes@.len() {
        call_name(t, src, p) + calls_kids(t, src, p, t.nodes@[p].children@.len() as int)
    } else {
        Seq::empty()
    }
}

/// The callee names under the first `j` children of `p`.
pub open spec fn calls_kids(t: SyntaxTree, src: Seq<char>, p: int, j: int) -> Seq<Seq<char>>
    decreases p, 0int, j,
{
    if j <= 0 || !(0 <= p < t.nodes@.len()) || j > t.nodes@[p].children@.len() {
        Seq::empty()
    } else {
        let c = t.nodes@[p].children@[j - 1] as int;
        calls_kids(t, src, p, j - 1) + if 0 <= c < p { calls_at(t, src, c) } else { Seq::empty() }
    }
}

/// What a declaration record says: name, qualified name, kind, and its reference names.
pub open spec fn decl_of(n: CodeNode) -> (Seq<char>, Seq<char>, NodeKind, Set<Seq<char>>) {
    (n.name@, n.qualified_name@, n.kind, refs_of(n).to_set())
}

pub open spec fn opt_text(o: Option<String>) -> Option<Seq<char>> {
    match o {
        Some(s) => Some(s@),
        None => None,
    }
}

/// The declaration kind of a grammar kind that is named by its `name` field.
pub open spec fn named_kind(k: Seq<char>) -> Option<NodeKind> {
    if k == "struct_item"@ { Some(NodeKind::Struct) }
    else if k == "enum_item"@ { Some(NodeKind::Enum) }
    else if k == "mod_item"@ { Some(NodeKind::Module) }
    else if k == "type_item"@ { Some(NodeKind::TypeAlias) }
    else if k == "const_item"@ || k == "static_item"@ { Some(NodeKind::Constant) }
    else { None }
}

/// The declarations extracted at node `p` with scope `ctx`, in order: a function
/// (a method inside a scope) with the call names under it; a struct, enum, module,
/// constant, static or type alias; a trait, then its items scoped by its name; the
/// items of an `impl`, scoped by its target type; a `use`, named by its path; then the
/// declarations below, except under traits and impls.
pub open spec fn rust_decls(t: SyntaxTree, src: Seq<char>, p: int, ctx: Option<Seq<char>>) -> Seq<(Seq<char>, Seq<char>, NodeKind, Set<Seq<char>>)>
    decreases p, 1int, 0int,
{
    if !(0 <= p < t.nodes@.len()) {
        Seq::empty()
    } else {
        let k = t.nodes@[p].kind@;
        let below = rust_kids(t, src, p, t.nodes@[p].children@.len() as int, ctx);
        if k == "function_item"@ || k == "function_signature_item"@ {
            let own = match first_field(t, p, "name"@, 0) {
                Some(q) => {
                    let name = text_at(t, src, q as int);
                    match ctx {
                        Some(c) => seq![(name, c + "."@ + name, NodeKind::Method, calls_at(t, src, p).to_set())],
                        None => seq![(name, name, NodeKind::Function, calls_at(t, src, p).to_set())],
                    }
                },
                None => Seq::empty(),
            };
            own + below
        } else if named_kind(k).is_some() {
            let own = match first_field(t, p, "name"@, 0) {
                Some(q) => seq![(text_at(t, src, q as int), text_at(t, src, q as int), named_kind(k).unwrap(), Set::empty())],
                None => Seq::empty(),
            };
            own + below
        } else if k == "trait_item"@ && first_field(t, p, "name"@, 0).is_some() {
            let name = text_at(t, src, first_field(t, p, "name"@, 0).unwrap() as int);
            let inner = match first_kind(t, p, "declaration_list"@, 0) {
                Some(b) => if (b as int) < p { rust_kids(t, src, b as int, t.nodes@[b as int].children@.len() as int, Some(name)) } else { Seq::empty() },
                None => Seq::empty(),
            };
            seq![(name, name, NodeKind::Interface, Set::empty())] + inner
        } else if k == "impl_item"@ {
            let target = match first_field(t, p, "type"@, 0) {
                Some(q) => Some(text_at(t, src, q as int)),
                None => None,
            };
            match first_kind(t, p, "declaration_list"@, 0) {
                Some(b) => if (b as int) < p { rust_kids(t, src, b as int, t.nodes@[b as int].children@.len() as int, target) } else { Seq::empty() },
                None => Seq::empty(),
            }
        } else if k == "use_declaration"@ {
            let own = match first_field(t, p, "argument"@, 0) {
                Some(q) => seq![(text_at(t, src, q as int), text_at(t, src, q as int), NodeKind::Import, Set::empty())],
                None => Seq::empty(),
            };
            own + below
        } else {
            below
        }
    }
}

/// The declarations under the first `j` children of `p`, with scope `ctx`.
pub open spec fn rust_kids(t: SyntaxTree, src: Seq<char>, p: int, j: int, ctx: Option<Seq<char>>) -> Seq<(Seq<char>, Seq<char>, NodeKind, Set<Seq<char>>)>
    decreases p, 0int, j,
{
    if j <= 0 || !(0 <= p < t.nodes@.len()) || j > t.nodes@[p].children@.len() {
        Seq::empty()
    } else {
        let c = t.nodes@[p].children@[j - 1] as int;
        rust_kids(t, src, p, j - 1, ctx) + if 0 <= c < p { rust_decls(t, src, c, ctx) } else { Seq::empty() }
    }
}

/// `x + 1` as a `u32`, saturating.
pub fn line_number(x: usize) -> (r: u32)
    ensures
        r as int == if x + 1 > u32::MAX { u32::MAX as int } else { x + 1 },
{
    if x >= u32::MAX as usize {
        u32::MAX
    } else {
        (x + 1) as u32
    }
}

/// `x` as a `u32`, saturating.
pub fn clamp_u32(x: usize) -> (r: u32)
    ensures
        r as int == if x > u32::MAX { u32::MAX as int } else { x as int },
{
    if x > u32::MAX as usize {
        u32::MAX
    } else {
        x as u32
    }
}

/// A record for node `p` named `name`, with its lines, bytes and the column of `name_at`.
pub fn located_node(tree: &SyntaxTree, p: usize, name_at: usize, name: &str, qualified: &str, kind: NodeKind, file: &str) -> (r: CodeNode)
    requires
        tree.wf(),
        p < tree.nodes@.len(),
        name_at < tree.nodes@.len(),
    ensures
        extracted_ok(r, file@),
        r.name@ == name@,
        r.qualified_name@ == qualified@,
        r.kind == kind,
        refs_of(r) == Seq::<Seq<char>>::empty(),
{
    let e = &tree.nodes[p];
    let r = CodeNode::new(name, qualified, kind, file)
        .with_lines(line_number(e.start_row), line_number(e.end_row))
        .with_bytes(clamp_u32(e.start_byte), clamp_u32(e.end_byte))
        .with_column(clamp_u32(tree.nodes[name_at].start_column));
    assert(refs_of(r) =~= Seq::<Seq<char>>::empty());
    r
}

/// Sets visibility, keeping what extraction guarantees.
fn set_visibility(n: CodeNode, v: Visibility, file: Ghost<Seq<char>>) -> (r: CodeNode)
    requires
        extracted_ok(n, file@),
    ensures
        extracted_ok(r, file@),
        r.name@ == n.name@ && r.kind == n.kind && r.qualified_name@ == n.qualified_name@,
        refs_of(r) == refs_of(n),
{
    let r = n.with_visibility(v);
    assert(refs_of(r) == refs_of(n));
    r
}

/// The visibility that `pub`, `pub(crate)` or `pub(super)` gives; private otherwise.
fn rust_visibility(tree: &SyntaxTree, p: usize, source: &str) -> Visibility
    requires
        tree.wf(),
        p < tree.nodes@.len(),
{
    let kids = &tree.nodes[p].children;
    let crate_word = chars_of("crate");
    let super_word = chars_of("super");
    let mut i: usize = 0;
    while i < kids.len()
        invariant
            tree.wf(),
            p < tree.nodes@.len(),
            *kids == tree.nodes@[p as int].children,
            i <= kids@.len(),
        decreases kids@.len() - i,
    {
        let c = kids[i];
        assert(tree.nodes@[p as int].children@[i as int] < p);
        if tree.nodes[c].is_kind("visibility_modifier") {
            let text = tree.nodes[c].text(source);
            let pub_word = String::from_str("pub");
            if text == pub_word {
                return Visibility::Public;
            }
            let t = chars_of(text.as_str());
            if contains_chars(&t, &crate_word) || contains_chars(&t, &super_word) {
                return Visibility::Internal;
            }
        }
        i = i + 1;
    }
    Visibility::Private
}

/// Whether node `p` is marked `async`, directly or among its function modifiers.
fn rust_is_async(tree: &SyntaxTree, p: usize) -> bool
    requires
        tree.wf(),
        p < tree.nodes@.len(),
{
    if tree.child_of_kind(p, "async").is_some() {
        return true;
    }
    match tree.child_of_kind(p, "function_modifiers") {
        Some(m) => tree.child_of_kind(m, "async").is_some(),
        None => false,
    }
}

/// `fn name(params) ret`, or `fn name(params)` without a return type.
fn rust_signature(tree: &SyntaxTree, p: usize, source: &str, name: &str) -> String
    requires
        tree.wf(),
        p < tree.nodes@.len(),
{
    let params = match tree.child_by_field(p, "parameters") {
        Some(q) => tree.nodes[q].text(source),
        None => String::from_str("()"),
    };
    let sig = String::from_str("fn ").concat(name).concat(params.as_str());
    match tree.child_by_field(p, "return_type") {
        Some(q) => {
            let ret = tree.nodes[q].text(source);
            if ret.as_str().unicode_len() == 0 {
                sig
            } else {
                sig.concat(" ").concat(ret.as_str())
            }
        },
        None => sig,
    }
}

/// Collects the callee name of every call under node `p`: the method name of a
/// method call, else the callee's text.
fn collect_calls(tree: &SyntaxTree, p: usize, source: &str, refs: &mut Vec<String>)
    requires
        tree.wf(),
        p < tree.nodes@.len(),
    ensures
        final(refs)@.map_values(|x: String| x@) == old(refs)@.map_values(|x: String| x@) + calls_at(*tree, source@, p as int),
    decreases p,
{
    let ghost start = refs@.map_values(|x: String| x@);
    if tree.nodes[p].is_kind("call_expression") {
        match tree.child_by_field(p, "function") {
            Some(f) => {
                let name = if tree.nodes[f].is_kind("field_expression") {
                    match tree.child_by_field(f, "field") {
                        Some(g) => tree.nodes[g].text(source),
                        None => tree.nodes[f].text(source),
                    }
                } else {
                    tree.nodes[f].text(source)
                };
                refs.push(name);
            },
            None => {},
        }
    }
    proof {
        assert(refs@.map_values(|x: String| x@) =~= start + call_name(*tree, source@, p as int));
    }
    let ghost mid = refs@.map_values(|x: String| x@);
    let kids = &tree.nodes[p].children;
    let mut i: usize = 0;
    while i < kids.len()
        invariant
            tree.wf(),
            p < tree.nodes@.len(),
            *kids == tree.nodes@[p as int].children,
            i <= kids@.len(),
            refs@.map_values(|x: String| x@) == mid + calls_kids(*tree, source@, p as int, i as int),
        decreases kids@.len() - i,
    {
        let c = kids[i];
        assert(tree.nodes@[p as int].children@[i as int] < p);
        let ghost before = refs@.map_values(|x: String| x@);
        collect_calls(tree, c, source, refs);
        proof {
            assert(calls_kids(*tree, source@, p as int, i + 1) == calls_kids(*tree, source@, p as int, i as int) + calls_at(*tree, source@, c as int));
            assert(refs@.map_values(|x: String| x@) =~= mid + calls_kids(*tree, source@, p as int, i + 1));
        }
        i = i + 1;
    }
    proof {
        assert(calls_at(*tree, source@, p as int) == call_name(*tree, source@, p as int) + calls_kids(*tree, source@, p as int, kids@.len() as int));
        assert(refs@.map_values(|x: String| x@) =~= start + calls_at(*tree, source@, p as int));
    }
}

/// The sorted, distinct callee names under node `p`.
pub fn call_references(tree: &SyntaxTree, p: usize, source: &str) -> (r: Vec<String>)
    requires
        tree.wf(),
        p < tree.nodes@.len(),
    ensures
        strictly_sorted(r@.map_values(|s: String| s@)),
        r@.map_values(|s: String| s@).to_set() == calls_at(*tree, source@, p as int).to_set(),
{
    let mut refs: Vec<String> = Vec::new();
    collect_calls(tree, p, source, &mut refs);
    let ghost input = refs@;
    assert(Seq::<String>::empty().map_values(|x: String| x@) =~= Seq::<Seq<char>>::empty());
    assert(refs@.map_values(|x: String| x@) =~= calls_at(*tree, source@, p as int));
    let r = sort_dedup(refs);
    proof {
        let rv = r@.map_values(|s: String| s@);
        let iv = input.map_values(|x: String| x@);
        assert forall|x: Seq<char>| rv.to_set().contains(x) <==> iv.to_set().contains(x) by {
            if rv.contains(x) {
                let j = choose|j: int| 0 <= j < rv.len() && rv[j] == x;
                assert(crate::text::named_in(r@[j]@, input, input.len() as int));
                let m = choose|m: int| 0 <= m < input.len() && input[m]@ == r@[j]@;
                assert(iv[m] == x);
            }
            if iv.contains(x) {
                let m = choose|m: int| 0 <= m < iv.len() && iv[m] == x;
                assert(rv.contains(input[m]@));
            }
        }
        assert(rv.to_set() =~= iv.to_set());
    }
    r
}

/// A function (a method inside `context`), with visibility, async flag, signature and
/// call references.
fn rust_function(tree: &SyntaxTree, p: usize, source: &str, file: &str, context: &Option<String>) -> (r: Option<CodeNode>)
    requires
        tree.wf(),
        p < tree.nodes@.len(),
    ensures
        r.is_some() ==> extracted_ok(r.unwrap(), file@),
        r.is_some() == first_field(*tree, p as int, "name"@, 0).is_some(),
        r.is_some() ==> {
            let name = text_at(*tree, source@, first_field(*tree, p as int, "name"@, 0).unwrap() as int);
            decl_of(r.unwrap()) == match opt_text(*context) {
                Some(c) => (name, c + "."@ + name, NodeKind::Method, calls_at(*tree, source@, p as int).to_set()),
                None => (name, name, NodeKind::Function, calls_at(*tree, source@, p as int).to_set()),
            }
        },
{
    let name_at = match tree.child_by_field(p, "name") {
        Some(q) => q,
        None => { return None; },
    };
    let name = tree.nodes[name_at].text(source);
    let (kind, qualified) = match context {
        Some(ctx) => (NodeKind::Method, ctx.clone().concat(".").concat(name.as_str())),
        None => (NodeKind::Function, name.clone()),
    };
    let base = located_node(tree, p, name_at, name.as_str(), qualified.as_str(), kind, file);
    let n = set_visibility(base, rust_visibility(tree, p, source), Ghost(file@));
    let sig = rust_signature(tree, p, source, name.as_str());
    let refs = call_references(tree, p, source);
    let mut r = n.with_signature(sig).with_references(refs);
    assert(refs_of(r) =~= refs@.map_values(|s: String| s@));
    if rust_is_async(tree, p) {
        r = r.as_async();
    }
    assert(refs_of(r) =~= refs@.map_values(|s: String| s@));
    Some(r)
}

/// A named item of kind `kind` (struct, enum, trait, module, constant, type alias).
fn rust_named_item(tree: &SyntaxTree, p: usize, source: &str, file: &str, kind: NodeKind) -> (r: Option<(CodeNode, String)>)
    requires
        tree.wf(),
        p < tree.nodes@.len(),
    ensures
        r.is_some() ==> extracted_ok(r.unwrap().0, file@) && r.unwrap().1@ == r.unwrap().0.name@,
        r.is_some() == first_field(*tree, p as int, "name"@, 0).is_some(),
        r.is_some() ==> {
            let name = text_at(*tree, source@, first_field(*tree, p as int, "name"@, 0).unwrap() as int);
            decl_of(r.unwrap().0) == (name, name, kind, Set::<Seq<char>>::empty())
        },
{
    let name_at = match tree.child_by_field(p, "name") {
        Some(q) => q,
        None => { return None; },
    };
    let name = tree.nodes[name_at].text(source);
    let base = located_node(tree, p, name_at, name.as_str(), name.as_str(), kind, file);
    let n = set_visibility(base, rust_visibility(tree, p, source), Ghost(file@));
    Some((n, name))
}

/// A `use` declaration, named by its path.
fn rust_use(tree: &SyntaxTree, p: usize, source: &str, file: &str) -> (r: Option<CodeNode>)
    requires
        tree.wf(),
        p < tree.nodes@.len(),
    ensures
        r.is_some() ==> extracted_ok(r.unwrap(), file@),
        r.is_some() == first_field(*tree, p as int, "argument"@, 0).is_some(),
        r.is_some() ==> {
            let path = text_at(*tree, source@, first_field(*tree, p as int, "argument"@, 0).unwrap() as int);
            decl_of(r.unwrap()) == (path, path, NodeKind::Import, Set::<Seq<char>>::empty())
        },
{
    match tree.child_by_field(p, "argument") {
        Some(q) => {
            let path = tree.nodes[q].text(source);
            let e = &tree.nodes[p];
            let r = CodeNode::new(path.as_str(), path.as_str(), NodeKind::Import, file)
                .with_lines(line_number(e.start_row), line_number(e.end_row))
                .with_bytes(clamp_u32(e.start_byte), clamp_u32(e.end_byte));
            assert(refs_of(r) =~= Seq::<Seq<char>>::empty());
            assert(refs_of(r).to_set() =~= Set::<Seq<char>>::empty());
            Some(r)
        },
        None => None,
    }
}

fn push_ok(out: &mut Vec<CodeNode>, n: CodeNode, file: Ghost<Seq<char>>)
    requires
        all_extracted_ok(old(out)@, file@),
        extracted_ok(n, file@),
    ensures
        all_extracted_ok(final(out)@, file@),
        final(out)@ == old(out)@.push(n),
        decls(final(out)@) == decls(old(out)@).push(decl_of(n)),
{
    out.push(n);
    assert(decls(out@) =~= decls(old(out)@).push(decl_of(n)));
}

/// The declaration facts of each record.
pub open spec fn decls(s: Seq<CodeNode>) -> Seq<(Seq<char>, Seq<char>, NodeKind, Set<Seq<char>>)> {
    s.map_values(|n: CodeNode| decl_of(n))
}

/// Extracts the items under the children of node `p` with scope `context`.
fn rust_children(tree: &SyntaxTree, p: usize, source: &str, file: &str, context: &Option<String>, out: &mut Vec<CodeNode>)
    requires
        tree.wf(),
        p < tree.nodes@.len(),
        all_extracted_ok(old(out)@, file@),
    ensures
        all_extracted_ok(final(out)@, file@),
        decls(final(out)@) == decls(old(out)@) + rust_kids(*tree, source@, p as int, tree.nodes@[p as int].children@.len() as int, opt_text(*context)),
    decreases p, 0nat,
{
    let ghost start = decls(out@);
    let kids = &tree.nodes[p].children;
    let mut i: usize = 0;
    while i < kids.len()
        invariant
            tree.wf(),
            p < tree.nodes@.len(),
            *kids == tree.nodes@[p as int].children,
            i <= kids@.len(),
            all_extracted_ok(out@, file@),
            decls(out@) == start + rust_kids(*tree, source@, p as int, i as int, opt_text(*context)),
        decreases kids@.len() - i,
    {
        let c = kids[i];
        assert(tree.nodes@[p as int].children@[i as int] < p);
        rust_item(tree, c, source, file, context, out);
        proof {
            assert(rust_kids(*tree, source@, p as int, i + 1, opt_text(*context))
                == rust_kids(*tree, source@, p as int, i as int, opt_text(*context)) + rust_decls(*tree, source@, c as int, opt_text(*context)));
            assert(decls(out@) =~= start + rust_kids(*tree, source@, p as int, i + 1, opt_text(*context)));
        }
        i = i + 1;
    }
}

/// Extracts the entity at node `p`, if it is one, and those below it. Methods take
/// the name of the enclosing `impl` target or trait as their scope.
fn rust_item(tree: &SyntaxTree, p: usize, source: &str, file: &str, context: &Option<String>, out: &mut Vec<CodeNode>)
    requires
        tree.wf(),
        p < tree.nodes@.len(),
        all_extracted_ok(old(out)@, file@),
    ensures
        all_extracted_ok(final(out)@, file@),
        decls(final(out)@) == decls(old(out)@) + rust_decls(*tree, source@, p as int, opt_text(*context)),
    decreases p, 1nat,
{
    let g = Ghost(file@);
    let ghost start = decls(out@);
    let ghost sp = source@;
    let ghost kp = tree.nodes@[p as int].children@.len() as int;
    let e = &tree.nodes[p];
    let ghost ctx = opt_text(*context);
    let ghost k = tree.nodes@[p as int].kind@;
    let ghost below = rust_kids(*tree, sp, p as int, kp, ctx);
    let ghost mut own: Seq<(Seq<char>, Seq<char>, NodeKind, Set<Seq<char>>)> = Seq::empty();
    if e.is_kind("function_item") || e.is_kind("function_signature_item") {
        match rust_function(tree, p, source, file, context) {
            Some(n) => {
                proof { own = seq![decl_of(n)]; }
                push_ok(out, n, g);
            },
            None => {},
        }
        proof {
            assert(decls(out@) =~= start + own);
            assert(rust_decls(*tree, sp, p as int, ctx) =~= own + below);
        }
    } else if e.is_kind("struct_item") || e.is_kind("enum_item") || e.is_kind("mod_item")
        || e.is_kind("const_item") || e.is_kind("static_item") || e.is_kind("type_item") {
        let kind = if e.is_kind("struct_item") {
            NodeKind::Struct
        } else if e.is_kind("enum_item") {
            NodeKind::Enum
        } else if e.is_kind("mod_item") {
            NodeKind::Module
        } else if e.is_kind("type_item") {
            NodeKind::TypeAlias
        } else {
            NodeKind::Constant
        };
        assert(named_kind(k) == Some(kind));
        match rust_named_item(tree, p, source, file, kind) {
            Some((n, _)) => {
                proof { own = seq![decl_of(n)]; }
                push_ok(out, n, g);
            },
            None => {},
        }
        proof {
            assert(decls(out@) =~= start + own);
            assert(rust_decls(*tree, sp, p as int, ctx) =~= own + below);
        }
    } else if e.is_kind("trait_item") {
        match rust_named_item(tree, p, source, file, NodeKind::Interface) {
            Some((n, name)) => {
                push_ok(out, n, g);
                let ghost mid = decls(out@);
                match tree.child_of_kind(p, "declaration_list") {
                    Some(body) => rust_children(tree, body, source, file, &Some(name), out),
                    None => {},
                }
                proof {
                    assert(named_kind(k).is_none());
                    assert(opt_text(Some(name)) == Some(name@));
                    assert(decls(out@) =~= start + rust_decls(*tree, sp, p as int, ctx));
                }
                return;
            },
            None => {
                proof {
                    reveal_strlit("trait_item");
                    reveal_strlit("impl_item");
                    reveal_strlit("use_declaration");
                    assert(k == "trait_item"@);
                    assert("trait_item"@[0] != "impl_item"@[0]);
                    assert("trait_item"@[0] != "use_declaration"@[0]);
                    assert(k != "impl_item"@);
                    assert(k != "use_declaration"@);
                    assert(named_kind(k).is_none());
                    assert(decls(out@) =~= start + own);
                    assert(rust_decls(*tree, sp, p as int, ctx) =~= own + below);
                }
            },
        }
    } else if e.is_kind("impl_item") {
        let target = match tree.child_by_field(p, "type") {
            Some(q) => Some(tree.nodes[q].text(source)),
            None => None,
        };
        match tree.child_of_kind(p, "declaration_list") {
            Some(body) => rust_children(tree, body, source, file, &target, out),
            None => {},
        }
        proof {
            assert(named_kind(k).is_none());
            assert(decls(out@) =~= start + rust_decls(*tree, sp, p as int, ctx));
        }
        return;
    } else if e.is_kind("use_declaration") {
        match rust_use(tree, p, source, file) {
            Some(n) => {
                proof { own = seq![decl_of(n)]; }
                push_ok(out, n, g);
            },
            None => {},
        }
        proof {
            assert(named_kind(k).is_none());
            assert(decls(out@) =~= start + own);
            assert(rust_decls(*tree, sp, p as int, ctx) =~= own + below);
        }
    } else {
        proof {
            assert(named_kind(k).is_none());
            if k == "trait_item"@ {
                assert(first_field(*tree, p as int, "name"@, 0).is_none());
            }
            assert(decls(out@) =~= start + own);
            assert(rust_decls(*tree, sp, p as int, ctx) =~= own + below);
        }
    }
    let ghost mid = decls(out@);
    assert(mid == start + own);
    rust_children(tree, p, source, file, context, out);
    proof {
        assert(decls(out@) == mid + below);
        assert(decls(out@) =~= start + rust_decls(*tree, sp, p as int, ctx));
    }
}

/// The Rust extractor.
pub struct RustParser;

impl RustParser {
    /// The entities of a parsed Rust file: functions, methods (scoped by their `impl`
    /// target or trait), structs, enums, traits, modules, `use` declarations, constants
    /// and statics, and type aliases.
    pub fn extract_nodes(tree: &SyntaxTree, source: &str, file: &str) -> (r: Vec<CodeNode>)
        requires
            tree.wf(),
        ensures
            all_extracted_ok(r@, file@),
            decls(r@) == rust_decls(*tree, source@, tree.root as int, None),
    {
        let mut out: Vec<CodeNode> = Vec::new();
        assert(decls(out@) =~= Seq::empty());
        rust_item(tree, tree.root, source, file, &None, &mut out);
        assert(decls(out@) =~= rust_decls(*tree, source@, tree.root as int, None));
        out
    }
}

} // verus!
