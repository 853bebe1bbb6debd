//! Entity extraction from Python, TypeScript/JavaScript and C syntax trees.
use vstd::prelude::*;
use vstd::string::*;
use crate::builder::refs_of;
use crate::heuristics::{upper_char, upper_char_of};
use crate::lang_rust::{opt_text, all_extracted_ok, clamp_u32, decl_of, decls, extracted_ok, line_number, located_node, text_at};
use crate::node::{CodeNode, NodeKind, Visibility};
use crate::syntax::{first_field, first_kind, Grammar, SyntaxTree};
use crate::text::{chars_of, contains_chars, ends_with_seq, sort_dedup, starts_with_seq, strictly_sorted};

verus! {

/// Python's naming convention: a double leading underscore without a trailing one is
/// private, any other leading underscore protected, everything else public.
pub open spec fn python_visibility_of(name: Seq<char>) -> Visibility {
    if starts_with_seq(name, "__"@) && !ends_with_seq(name, "__"@) {
        Visibility::Private
    } else if starts_with_seq(name, "_"@) {
        Visibility::Protected
    } else {
        Visibility::Public
    }
}

pub fn python_visibility(name: &str) -> (r: Visibility)
    ensures
        r == python_visibility_of(name@),
{
    let n = chars_of(name);
    let dunder = chars_of("__");
    let under = chars_of("_");
    if crate::text::starts_with_chars(&n, &dunder) && !crate::text::ends_with_chars(&n, &dunder) {
        Visibility::Private
    } else if crate::text::starts_with_chars(&n, &under) {
        Visibility::Protected
    } else {
        Visibility::Public
    }
}

/// Whether `c` is trimmed from the ends of quoted or padded text.
pub open spec fn trimmed_char(c: char) -> bool {
    c == '"' || c == '\'' || c == '<' || c == '>' || c == ' ' || c == '\t' || c == '\n' || c == '\r'
}

fn is_trimmed(c: char) -> (r: bool)
    ensures
        r == trimmed_char(c),
{
    c == '"' || c == '\'' || c == '<' || c == '>' || c == ' ' || c == '\t' || c == '\n' || c == '\r'
}

/// Index of the first character at or after `a` that is not trimmed.
pub open spec fn lead_from(s: Seq<char>, a: int) -> int
    decreases s.len() - a,
{
    if a < 0 || a >= s.len() || !trimmed_char(s[a]) { a } else { lead_from(s, a + 1) }
}

/// End of the text before `b` once trimmed characters after `a` are dropped.
pub open spec fn trail_from(s: Seq<char>, a: int, b: int) -> int
    decreases b,
{
    if b <= a || b <= 0 || b > s.len() || !trimmed_char(s[b - 1]) { b } else { trail_from(s, a, b - 1) }
}

/// `s` without the quotes, angle brackets and white space at either end.
pub open spec fn trimmed_text(s: Seq<char>) -> Seq<char> {
    let a = lead_from(s, 0);
    s.subrange(a, trail_from(s, a, s.len() as int))
}

fn trim_quotes(s: &str) -> (r: String)
    ensures
        r@ == trimmed_text(s@),
{
    let cs = chars_of(s);
    let mut a: usize = 0;
    while a < cs.len() && is_trimmed(cs[a])
        invariant
            a <= cs@.len(),
            cs@ == s@,
            lead_from(s@, 0) == lead_from(s@, a as int),
        decreases cs@.len() - a,
    {
        a = a + 1;
    }
    let mut b: usize = cs.len();
    while b > a && is_trimmed(cs[b - 1])
        invariant
            a <= b <= cs@.len(),
            cs@ == s@,
            lead_from(s@, 0) == a,
            trail_from(s@, a as int, s@.len() as int) == trail_from(s@, a as int, b as int),
        decreases b,
    {
        b = b - 1;
    }
    let r = String::from_str(s.substring_char(a, b));
    r
}

/// Sets a flag or visibility on an extracted record, keeping what extraction guarantees.
fn adjust(n: CodeNode, vis: Visibility, is_async: bool, is_static: bool, is_exported: bool, file: Ghost<Seq<char>>) -> (r: CodeNode)
    requires
        extracted_ok(n, file@),
    ensures
        extracted_ok(r, file@),
        r.name@ == n.name@,
        decl_of(r) == decl_of(n),
{
    let mut r = n.with_visibility(vis);
    if is_async {
        r = r.as_async();
    }
    if is_static {
        r = r.as_static();
    }
    if is_exported {
        r = r.as_exported();
    }
    assert(refs_of(r) == refs_of(n));
    r
}

fn with_refs(n: CodeNode, sig: String, refs: Vec<String>, file: Ghost<Seq<char>>) -> (r: CodeNode)
    requires
        extracted_ok(n, file@),
        strictly_sorted(refs@.map_values(|s: String| s@)),
    ensures
        extracted_ok(r, file@),
        r.name@ == n.name@,
        decl_of(r) == (n.name@, n.qualified_name@, n.kind, refs@.map_values(|s: String| s@).to_set()),
{
    let r = n.with_signature(sig).with_references(refs);
    assert(refs_of(r) =~= refs@.map_values(|s: String| s@));
    r
}

fn push_ok(out: &mut Vec<CodeNode>, n: CodeNode, file: Ghost<Seq<char>>)
    requires
        all_extracted_ok(old(out)@, file@),
        extracted_ok(n, file@),
    ensures
        all_extracted_ok(final(out)@, file@),
        decls(final(out)@) == decls(old(out)@).push(decl_of(n)),
{
    out.push(n);
    assert(decls(out@) =~= decls(old(out)@).push(decl_of(n)));
}

/// Whether some child of `p` has source text `word`.
fn child_text_is(tree: &SyntaxTree, p: usize, source: &str, word: &str) -> bool
    requires
        tree.wf(),
        p < tree.nodes@.len(),
{
    let key = String::from_str(word);
    let kids = &tree.nodes[p].children;
    let mut i: usize = 0;
    while i < kids.len()
        invariant
            tree.wf(),
            p < tree.nodes@.len(),
            *kids == tree.nodes@[p as int].children,
            i <= kids@.len(),
        decreases kids@.len() - i,
    {
        let c = kids[i];
        assert(tree.nodes@[p as int].children@[i as int] < p);
        if tree.nodes[c].text(source) == key {
            return true;
        }
        i = i + 1;
    }
    false
}

/// The callee name a node of kind `call` contributes: its `function` field's text, or
/// the text of that field's `mfield` when it is a `member` node.
pub open spec fn gcall_name(t: SyntaxTree, src: Seq<char>, p: int, call: Seq<char>, member: Seq<char>, mfield: Seq<char>) -> Seq<Seq<char>> {
    if t.nodes@[p].kind@ == call {
        match first_field(t, p, "function"@, 0) {
            Some(f) => if t.nodes@[f as int].kind@ == member {
                match first_field(t, f as int, mfield, 0) {
                    Some(g) => seq![text_at(t, src, g as int)],
                    None => seq![text_at(t, src, f as int)],
                }
            } else {
                seq![text_at(t, src, f as int)]
            },
            None => Seq::empty(),
        }
    } else {
        Seq::empty()
    }
}

/// The callee names under node `p`, in pre-order.
pub open spec fn gcalls_at(t: SyntaxTree, src: Seq<char>, p: int, call: Seq<char>, member: Seq<char>, mfield: Seq<char>) -> Seq<Seq<char>>
    decreases p, 1int, 0int,
{
    if 0 <= p < t.nodes@.len() {
        gcall_name(t, src, p, call, member, mfield) + gcalls_kids(t, src, p, t.nodes@[p].children@.len() as int, call, member, mfield)
    } else {
        Seq::empty()
    }
}

pub open spec fn gcalls_kids(t: SyntaxTree, src: Seq<char>, p: int, j: int, call: Seq<char>, member: Seq<char>, mfield: Seq<char>) -> Seq<Seq<char>>
    decreases p, 0int, j,
{
    if j <= 0 || !(0 <= p < t.nodes@.len()) || j > t.nodes@[p].children@.len() {
        Seq::empty()
    } else {
        let c = t.nodes@[p].children@[j - 1] as int;
        gcalls_kids(t, src, p, j - 1, call, member, mfield) + if 0 <= c < p { gcalls_at(t, src, c, call, member, mfield) } else { Seq::empty() }
    }
}

/// The call names of a grammar under node `p`, as a set.
pub open spec fn calls_of(g: Grammar, t: SyntaxTree, src: Seq<char>, p: int) -> Set<Seq<char>> {
    match g {
        Grammar::Python => gcalls_at(t, src, p, "call"@, "attribute"@, "attribute"@).to_set(),
        Grammar::TypeScript => gcalls_at(t, src, p, "call_expression"@, "member_expression"@, "property"@).to_set(),
        _ => gcalls_at(t, src, p, "call_expression"@, "field_expression"@, "field"@).to_set(),
    }
}

/// The callee names under `p`: for each node of kind `call`, its `function` field, or
/// the `member_field` of it when that is a `member` node (the terminal method name).
fn collect_calls(tree: &SyntaxTree, p: usize, source: &str, call: &str, member: &str, member_field: &str, refs: &mut Vec<String>)
    requires
        tree.wf(),
        p < tree.nodes@.len(),
    ensures
        final(refs)@.map_values(|x: String| x@) == old(refs)@.map_values(|x: String| x@)
            + gcalls_at(*tree, source@, p as int, call@, member@, member_field@),
    decreases p,
{
    let ghost start = refs@.map_values(|x: String| x@);
    if tree.nodes[p].is_kind(call) {
        match tree.child_by_field(p, "function") {
            Some(f) => {
                let name = if tree.nodes[f].is_kind(member) {
                    match tree.child_by_field(f, member_field) {
                        Some(g) => tree.nodes[g].text(source),
                        None => tree.nodes[f].text(source),
                    }
                } else {
                    tree.nodes[f].text(source)
                };
                refs.push(name);
            },
            None => {},
        }
    }
    proof {
        assert(refs@.map_values(|x: String| x@) =~= start + gcall_name(*tree, source@, p as int, call@, member@, member_field@));
    }
    let ghost mid = refs@.map_values(|x: String| x@);
    let kids = &tree.nodes[p].children;
    let mut i: usize = 0;
    while i < kids.len()
        invariant
            tree.wf(),
            p < tree.nodes@.len(),
            *kids == tree.nodes@[p as int].children,
            i <= kids@.len(),
            refs@.map_values(|x: String| x@) == mid + gcalls_kids(*tree, source@, p as int, i as int, call@, member@, member_field@),
        decreases kids@.len() - i,
    {
        let c = kids[i];
        assert(tree.nodes@[p as int].children@[i as int] < p);
        collect_calls(tree, c, source, call, member, member_field, refs);
        proof {
            assert(gcalls_kids(*tree, source@, p as int, i + 1, call@, member@, member_field@)
                == gcalls_kids(*tree, source@, p as int, i as int, call@, member@, member_field@) + gcalls_at(*tree, source@, c as int, call@, member@, member_field@));
            assert(refs@.map_values(|x: String| x@) =~= mid + gcalls_kids(*tree, source@, p as int, i + 1, call@, member@, member_field@));
        }
        i = i + 1;
    }
    proof {
        assert(refs@.map_values(|x: String| x@) =~= start + gcalls_at(*tree, source@, p as int, call@, member@, member_field@));
    }
}

fn calls_under(tree: &SyntaxTree, p: usize, source: &str, grammar: Grammar) -> (r: Vec<String>)
    requires
        tree.wf(),
        p < tree.nodes@.len(),
    ensures
        strictly_sorted(r@.map_values(|s: String| s@)),
        r@.map_values(|s: String| s@).to_set() == calls_of(grammar, *tree, source@, p as int),
{
    let mut refs: Vec<String> = Vec::new();
    assert(refs@.map_values(|x: String| x@) =~= Seq::<Seq<char>>::empty());
    match grammar {
        Grammar::Python => collect_calls(tree, p, source, "call", "attribute", "attribute", &mut refs),
        Grammar::TypeScript => collect_calls(tree, p, source, "call_expression", "member_expression", "property", &mut refs),
        _ => collect_calls(tree, p, source, "call_expression", "field_expression", "field", &mut refs),
    }
    let ghost input = refs@;
    assert(input.map_values(|x: String| x@).to_set() == calls_of(grammar, *tree, source@, p as int));
    let r = sort_dedup(refs);
    proof {
        let rv = r@.map_values(|s: String| s@);
        let iv = input.map_values(|x: String| x@);
        assert forall|x: Seq<char>| rv.to_set().contains(x) <==> iv.to_set().contains(x) by {
            if rv.contains(x) {
                let j = choose|j: int| 0 <= j < rv.len() && rv[j] == x;
                assert(crate::text::named_in(r@[j]@, input, input.len() as int));
                let m = choose|m: int| 0 <= m < input.len() && input[m]@ == r@[j]@;
                assert(iv[m] == x);
            }
            if iv.contains(x) {
                let m = choose|m: int| 0 <= m < iv.len() && iv[m] == x;
                assert(rv.contains(input[m]@));
            }
        }
        assert(rv.to_set() =~= iv.to_set());
    }
    r
}

fn field_text(tree: &SyntaxTree, p: usize, source: &str, field: &str, default: &str) -> String
    requires
        tree.wf(),
        p < tree.nodes@.len(),
{
    match tree.child_by_field(p, field) {
        Some(q) => tree.nodes[q].text(source),
        None => String::from_str(default),
    }
}

fn scoped(context: &Option<String>, name: &String) -> (r: (NodeKind, String))
    ensures
        match opt_text(*context) {
            Some(c) => r.0 == NodeKind::Method && r.1@ == c + "."@ + name@,
            None => r.0 == NodeKind::Function && r.1@ == name@,
        },
{
    match context {
        Some(ctx) => (NodeKind::Method, ctx.clone().concat(".").concat(name.as_str())),
        None => (NodeKind::Function, name.clone()),
    }
}

/// An import record for node `p`, named `path`.
fn import_node(tree: &SyntaxTree, p: usize, path: &str, file: &str) -> (r: CodeNode)
    requires
        tree.wf(),
        p < tree.nodes@.len(),
    ensures
        extracted_ok(r, file@),
        decl_of(r) == (path@, path@, NodeKind::Import, Set::<Seq<char>>::empty()),
{
    let e = &tree.nodes[p];
    let r = CodeNode::new(path, path, NodeKind::Import, file)
        .with_lines(line_number(e.start_row), line_number(e.end_row))
        .with_bytes(clamp_u32(e.start_byte), clamp_u32(e.end_byte));
    assert(refs_of(r) =~= Seq::<Seq<char>>::empty());
    assert(refs_of(r).to_set() =~= Set::<Seq<char>>::empty());
    r
}

/// Every character is `_` or upper-case.
pub open spec fn all_upper(s: Seq<char>) -> bool {
    forall|i: int| 0 <= i < s.len() ==> #[trigger] s[i] == '_' || upper_char(s[i])
}

fn all_upper_or_underscore(name: &str) -> (r: bool)
    ensures
        r == all_upper(name@),
{
    let cs = chars_of(name);
    let mut i: usize = 0;
    while i < cs.len()
        invariant
            i <= cs@.len(),
            cs@ == name@,
            forall|j: int| 0 <= j < i ==> #[trigger] cs@[j] == '_' || upper_char(cs@[j]),
        decreases cs@.len() - i,
    {
        if cs[i] != '_' && !upper_char_of(cs[i]) {
            return false;
        }
        i = i + 1;
    }
    true
}

pub type Decl = (Seq<char>, Seq<char>, NodeKind, Set<Seq<char>>);

/// A function or method declaration named `name` in scope `ctx`, with references `refs`.
pub open spec fn scoped_decl(ctx: Option<Seq<char>>, name: Seq<char>, refs: Set<Seq<char>>) -> Decl {
    match ctx {
        Some(c) => (name, c + "."@ + name, NodeKind::Method, refs),
        None => (name, name, NodeKind::Function, refs),
    }
}

/// The Python declarations at node `p` within class `cls`, in order: a function (a
/// method in a class) with its call names; a class, then its body's declarations scoped
/// by its name; an `import` statement, named by its module; a `from` import, named by
/// its module; a module-level assignment to a name (a constant when the name is upper
/// case); then the declarations below, except under a class.
pub open spec fn py_decls(t: SyntaxTree, src: Seq<char>, p: int, cls: Option<Seq<char>>) -> Seq<Decl>
    decreases p, 1int, 0int,
{
    if !(0 <= p < t.nodes@.len()) {
        Seq::empty()
    } else {
        let k = t.nodes@[p].kind@;
        let below = py_kids(t, src, p, t.nodes@[p].children@.len() as int, cls);
        if k == "function_definition"@ {
            let own = match first_field(t, p, "name"@, 0) {
                Some(q) => seq![scoped_decl(cls, text_at(t, src, q as int), calls_of(Grammar::Python, t, src, p))],
                None => Seq::empty(),
            };
            own + below
        } else if k == "class_definition"@ && first_field(t, p, "name"@, 0).is_some() {
            let name = text_at(t, src, first_field(t, p, "name"@, 0).unwrap() as int);
            let inner = match first_field(t, p, "body"@, 0) {
                Some(b) => if (b as int) < p { py_kids(t, src, b as int, t.nodes@[b as int].children@.len() as int, Some(name)) } else { Seq::empty() },
                None => Seq::empty(),
            };
            seq![(name, name, NodeKind::Class, Set::empty())] + inner
        } else if k == "import_statement"@ {
            let text = text_at(t, src, p);
            let own = if starts_with_seq(text, "import "@) {
                let m = trimmed_text(text.subrange(7, text.len() as int));
                seq![(m, m, NodeKind::Import, Set::empty())]
            } else {
                Seq::empty()
            };
            own + below
        } else if k == "import_from_statement"@ {
            let own = match first_field(t, p, "module_name"@, 0) {
                Some(q) => seq![(text_at(t, src, q as int), text_at(t, src, q as int), NodeKind::Import, Set::empty())],
                None => Seq::empty(),
            };
            own + below
        } else if k == "expression_statement"@ && cls.is_none() {
            let own = match first_kind(t, p, "assignment"@, 0) {
                Some(a) => match first_field(t, a as int, "left"@, 0) {
                    Some(l) => if t.nodes@[l as int].kind@ == "identifier"@ {
                        let nm = text_at(t, src, l as int);
                        seq![(nm, nm, if all_upper(nm) { NodeKind::Constant } else { NodeKind::Variable }, Set::empty())]
                    } else {
                        Seq::empty()
                    },
                    None => Seq::empty(),
                },
                None => Seq::empty(),
            };
            own + below
        } else {
            below
        }
    }
}

pub open spec fn py_kids(t: SyntaxTree, src: Seq<char>, p: int, j: int, cls: Option<Seq<char>>) -> Seq<Decl>
    decreases p, 0int, j,
{
    if j <= 0 || !(0 <= p < t.nodes@.len()) || j > t.nodes@[p].children@.len() {
        Seq::empty()
    } else {
        let c = t.nodes@[p].children@[j - 1] as int;
        py_kids(t, src, p, j - 1, cls) + if 0 <= c < p { py_decls(t, src, c, cls) } else { Seq::empty() }
    }
}

/// Extracts the Python entity at `p` and those below it.
fn python_item(tree: &SyntaxTree, p: usize, source: &str, file: &str, class: &Option<String>, out: &mut Vec<CodeNode>)
    requires
        tree.wf(),
        p < tree.nodes@.len(),
        all_extracted_ok(old(out)@, file@),
    ensures
        all_extracted_ok(final(out)@, file@),
        decls(final(out)@) == decls(old(out)@) + py_decls(*tree, source@, p as int, opt_text(*class)),
    decreases p, 1nat,
{
    let g = Ghost(file@);
    let ghost start = decls(out@);
    let ghost sp = source@;
    let ghost cls = opt_text(*class);
    let ghost k = tree.nodes@[p as int].kind@;
    let ghost below = py_kids(*tree, sp, p as int, tree.nodes@[p as int].children@.len() as int, cls);
    let ghost mut own: Seq<Decl> = Seq::empty();
    if tree.nodes[p].is_kind("function_definition") {
        match tree.child_by_field(p, "name") {
            Some(q) => {
                let name = tree.nodes[q].text(source);
                let (kind, qualified) = scoped(class, &name);
                let base = located_node(tree, p, q, name.as_str(), qualified.as_str(), kind, file);
                let params = field_text(tree, p, source, "parameters", "()");
                let mut sig = String::from_str("def ").concat(name.as_str()).concat(params.as_str());
                match tree.child_by_field(p, "return_type") {
                    Some(t) => {
                        let ret = tree.nodes[t].text(source);
                        sig = sig.concat(" -> ").concat(ret.as_str());
                    },
                    None => {},
                }
                let refs = calls_under(tree, p, source, Grammar::Python);
                let is_async = child_text_is(tree, p, source, "async");
                let is_static = python_decorated(tree, p, source);
                let n = with_refs(base, sig, refs, g);
                let n = adjust(n, python_visibility(name.as_str()), is_async, is_static, false, g);
                let n = with_doc(n, python_docstring(tree, p, source), g);
                proof { own = seq![decl_of(n)]; }
                push_ok(out, n, g);
            },
            None => {},
        }
        proof {
            assert(decls(out@) =~= start + own);
            assert(py_decls(*tree, sp, p as int, cls) =~= own + below);
        }
    } else if tree.nodes[p].is_kind("class_definition") {
        match tree.child_by_field(p, "name") {
            Some(q) => {
                let name = tree.nodes[q].text(source);
                let base = located_node(tree, p, q, name.as_str(), name.as_str(), NodeKind::Class, file);
                let n = adjust(base, python_visibility(name.as_str()), false, false, false, g);
                let n = with_doc(n, python_docstring(tree, p, source), g);
                proof {
                    assert(refs_of(base).to_set() =~= Set::<Seq<char>>::empty());
                    assert(decl_of(n) == (name@, name@, NodeKind::Class, Set::<Seq<char>>::empty()));
                }
                push_ok(out, n, g);
                match tree.child_by_field(p, "body") {
                    Some(body) => python_children(tree, body, source, file, &Some(name), out),
                    None => {},
                }
                proof {
                    assert(opt_text(Some(name)) == Some(name@));
                    assert(decls(out@) =~= start + py_decls(*tree, sp, p as int, cls));
                }
                return;
            },
            None => {
                proof {
                    reveal_strlit("class_definition");
                    reveal_strlit("import_statement");
                    reveal_strlit("import_from_statement");
                    reveal_strlit("expression_statement");
                    assert(k == "class_definition"@);
                    assert(k != "import_statement"@ && k != "import_from_statement"@ && k != "expression_statement"@) by {
                        assert("class_definition"@[0] != "import_statement"@[0]);
                        assert("class_definition"@[0] != "import_from_statement"@[0]);
                        assert("class_definition"@[0] != "expression_statement"@[0]);
                    }
                    assert(decls(out@) =~= start + own);
                    assert(py_decls(*tree, sp, p as int, cls) =~= own + below);
                }
            },
        }
    } else if tree.nodes[p].is_kind("import_statement") {
        let text = tree.nodes[p].text(source);
        let t = chars_of(text.as_str());
        let prefix = chars_of("import ");
        proof {
            reveal_strlit("import ");
        }
        if crate::text::starts_with_chars(&t, &prefix) {
            assert(prefix@.len() == 7);
            let rest = String::from_str(text.as_str().substring_char(7, t.len()));
            let module = trim_quotes(rest.as_str());
            let n = import_node(tree, p, module.as_str(), file);
            proof { own = seq![decl_of(n)]; }
            push_ok(out, n, g);
        }
        proof {
            assert(decls(out@) =~= start + own);
            assert(py_decls(*tree, sp, p as int, cls) =~= own + below);
        }
    } else if tree.nodes[p].is_kind("import_from_statement") {
        match tree.child_by_field(p, "module_name") {
            Some(q) => {
                let module = tree.nodes[q].text(source);
                let n = import_node(tree, p, module.as_str(), file);
                proof { own = seq![decl_of(n)]; }
                push_ok(out, n, g);
            },
            None => {},
        }
        proof {
            assert(decls(out@) =~= start + own);
            assert(py_decls(*tree, sp, p as int, cls) =~= own + below);
        }
    } else if tree.nodes[p].is_kind("expression_statement") && class.is_none() {
        match tree.child_of_kind(p, "assignment") {
            Some(a) => match tree.child_by_field(a, "left") {
                Some(left) => {
                    if tree.nodes[left].is_kind("identifier") {
                        let name = tree.nodes[left].text(source);
                        let kind = if all_upper_or_underscore(name.as_str()) {
                            NodeKind::Constant
                        } else {
                            NodeKind::Variable
                        };
                        let n = located_node(tree, a, left, name.as_str(), name.as_str(), kind, file);
                        proof {
                            own = seq![decl_of(n)];
                            assert(refs_of(n).to_set() =~= Set::<Seq<char>>::empty());
                        }
                        push_ok(out, n, g);
                    }
                },
                None => {},
            },
            None => {},
        }
        proof {
            assert(decls(out@) =~= start + own);
            assert(py_decls(*tree, sp, p as int, cls) =~= own + below);
        }
    } else {
        proof {
            assert(decls(out@) =~= start + own);
            assert(py_decls(*tree, sp, p as int, cls) =~= own + below);
        }
    }
    let ghost mid = decls(out@);
    python_children(tree, p, source, file, class, out);
    proof {
        assert(decls(out@) == mid + below);
        assert(decls(out@) =~= start + py_decls(*tree, sp, p as int, cls));
    }
}

/// The docstring of a Python definition: its body's first statement when that is a
/// string, without the quotes and surrounding white space.
fn python_docstring(tree: &SyntaxTree, p: usize, source: &str) -> Option<String>
    requires
        tree.wf(),
        p < tree.nodes@.len(),
{
    let body = match tree.child_by_field(p, "body") {
        Some(b) => b,
        None => { return None; },
    };
    let kids = &tree.nodes[body].children;
    if kids.len() == 0 {
        return None;
    }
    let first = kids[0];
    assert(tree.nodes@[body as int].children@[0] < body);
    if !tree.nodes[first].is_kind("expression_statement") {
        return None;
    }
    let inner = &tree.nodes[first].children;
    if inner.len() == 0 {
        return None;
    }
    let s = inner[0];
    assert(tree.nodes@[first as int].children@[0] < first);
    if !tree.nodes[s].is_kind("string") {
        return None;
    }
    Some(trim_quotes(tree.nodes[s].text(source).as_str()))
}

fn with_doc(n: CodeNode, doc: Option<String>, file: Ghost<Seq<char>>) -> (r: CodeNode)
    requires
        extracted_ok(n, file@),
    ensures
        extracted_ok(r, file@),
        r.name@ == n.name@,
        decl_of(r) == decl_of(n),
{
    match doc {
        Some(d) => {
            let r = n.with_docstring(d);
            assert(refs_of(r) == refs_of(n));
            r
        },
        None => n,
    }
}

/// Whether `p` carries a `staticmethod` or `classmethod` decorator.
fn python_decorated(tree: &SyntaxTree, p: usize, source: &str) -> bool
    requires
        tree.wf(),
        p < tree.nodes@.len(),
{
    let st = chars_of("staticmethod");
    let cl = chars_of("classmethod");
    let kids = &tree.nodes[p].children;
    let mut i: usize = 0;
    while i < kids.len()
        invariant
            tree.wf(),
            p < tree.nodes@.len(),
            *kids == tree.nodes@[p as int].children,
            i <= kids@.len(),
        decreases kids@.len() - i,
    {
        let c = kids[i];
        assert(tree.nodes@[p as int].children@[i as int] < p);
        if tree.nodes[c].is_kind("decorator") {
            let t = chars_of(tree.nodes[c].text(source).as_str());
            if contains_chars(&t, &st) || contains_chars(&t, &cl) {
                return true;
            }
        }
        i = i + 1;
    }
    false
}

fn python_children(tree: &SyntaxTree, p: usize, source: &str, file: &str, class: &Option<String>, out: &mut Vec<CodeNode>)
    requires
        tree.wf(),
        p < tree.nodes@.len(),
        all_extracted_ok(old(out)@, file@),
    ensures
        all_extracted_ok(final(out)@, file@),
        decls(final(out)@) == decls(old(out)@) + py_kids(*tree, source@, p as int, tree.nodes@[p as int].children@.len() as int, opt_text(*class)),
    decreases p, 0nat,
{
    let ghost start = decls(out@);
    let kids = &tree.nodes[p].children;
    let mut i: usize = 0;
    while i < kids.len()
        invariant
            tree.wf(),
            p < tree.nodes@.len(),
            *kids == tree.nodes@[p as int].children,
            i <= kids@.len(),
            all_extracted_ok(out@, file@),
            decls(out@) == start + py_kids(*tree, source@, p as int, i as int, opt_text(*class)),
        decreases kids@.len() - i,
    {
        let c = kids[i];
        assert(tree.nodes@[p as int].children@[i as int] < p);
        python_item(tree, c, source, file, class, out);
        proof {
            assert(py_kids(*tree, source@, p as int, i + 1, opt_text(*class))
                == py_kids(*tree, source@, p as int, i as int, opt_text(*class)) + py_decls(*tree, source@, c as int, opt_text(*class)));
            assert(decls(out@) =~= start + py_kids(*tree, source@, p as int, i + 1, opt_text(*class)));
        }
        i = i + 1;
    }
}

pub open spec fn ts_function_kind(k: Seq<char>) -> bool {
    k == "function_declaration"@ || k == "function"@ || k == "method_definition"@
}

pub open spec fn ts_class_kind(k: Seq<char>) -> bool {
    k == "class_declaration"@ || k == "class"@
}

/// The TypeScript/JavaScript declarations at node `p` within class `par`, in order: a
/// function or method with its call names; a name bound to an arrow function, with the
/// call names under it; a class, then its body's declarations scoped by its name; an
/// interface or type alias; an import, named by its source without quotes; then the
/// declarations below, except under a class.
pub open spec fn ts_decls(t: SyntaxTree, src: Seq<char>, p: int, par: Option<Seq<char>>) -> Seq<Decl>
    decreases p, 1int, 0int,
{
    if !(0 <= p < t.nodes@.len()) {
        Seq::empty()
    } else {
        let k = t.nodes@[p].kind@;
        let below = ts_kids(t, src, p, t.nodes@[p].children@.len() as int, par);
        if ts_function_kind(k) {
            let own = match first_field(t, p, "name"@, 0) {
                Some(q) => seq![scoped_decl(par, text_at(t, src, q as int), calls_of(Grammar::TypeScript, t, src, p))],
                None => Seq::empty(),
            };
            own + below
        } else if k == "lexical_declaration"@ || k == "variable_declaration"@ {
            let own = match first_kind(t, p, "variable_declarator"@, 0) {
                Some(d) => match (first_field(t, d as int, "name"@, 0), first_field(t, d as int, "value"@, 0)) {
                    (Some(q), Some(v)) => if t.nodes@[v as int].kind@ == "arrow_function"@ {
                        let nm = text_at(t, src, q as int);
                        seq![(nm, nm, NodeKind::Function, calls_of(Grammar::TypeScript, t, src, v as int))]
                    } else {
                        Seq::empty()
                    },
                    _ => Seq::empty(),
                },
                None => Seq::empty(),
            };
            own + below
        } else if ts_class_kind(k) && first_field(t, p, "name"@, 0).is_some() {
            let name = text_at(t, src, first_field(t, p, "name"@, 0).unwrap() as int);
            let inner = match first_field(t, p, "body"@, 0) {
                Some(b) => if (b as int) < p { ts_kids(t, src, b as int, t.nodes@[b as int].children@.len() as int, Some(name)) } else { Seq::empty() },
                None => Seq::empty(),
            };
            seq![(name, name, NodeKind::Class, Set::empty())] + inner
        } else if k == "interface_declaration"@ || k == "type_alias_declaration"@ {
            let own = match first_field(t, p, "name"@, 0) {
                Some(q) => seq![(text_at(t, src, q as int), text_at(t, src, q as int),
                    if k == "interface_declaration"@ { NodeKind::Interface } else { NodeKind::TypeAlias }, Set::empty())],
                None => Seq::empty(),
            };
            own + below
        } else if k == "import_statement"@ {
            let own = match first_field(t, p, "source"@, 0) {
                Some(q) => {
                    let m = trimmed_text(text_at(t, src, q as int));
                    seq![(m, m, NodeKind::Import, Set::empty())]
                },
                None => Seq::empty(),
            };
            own + below
        } else {
            below
        }
    }
}

pub open spec fn ts_kids(t: SyntaxTree, src: Seq<char>, p: int, j: int, par: Option<Seq<char>>) -> Seq<Decl>
    decreases p, 0int, j,
{
    if j <= 0 || !(0 <= p < t.nodes@.len()) || j > t.nodes@[p].children@.len() {
        Seq::empty()
    } else {
        let c = t.nodes@[p].children@[j - 1] as int;
        ts_kids(t, src, p, j - 1, par) + if 0 <= c < p { ts_decls(t, src, c, par) } else { Seq::empty() }
    }
}

/// The visibility a TypeScript member modifier gives; public by default.
fn ts_visibility(tree: &SyntaxTree, p: usize, source: &str) -> Visibility
    requires
        tree.wf(),
        p < tree.nodes@.len(),
{
    if child_text_is(tree, p, source, "private") {
        Visibility::Private
    } else if child_text_is(tree, p, source, "protected") {
        Visibility::Protected
    } else {
        Visibility::Public
    }
}

/// Extracts the TypeScript or JavaScript entity at `p` and those below it; `exported`
/// marks declarations inside an `export` statement.
fn ts_item(tree: &SyntaxTree, p: usize, source: &str, file: &str, parent: &Option<String>, exported: bool, out: &mut Vec<CodeNode>)
    requires
        tree.wf(),
        p < tree.nodes@.len(),
        all_extracted_ok(old(out)@, file@),
    ensures
        all_extracted_ok(final(out)@, file@),
        decls(final(out)@) == decls(old(out)@) + ts_decls(*tree, source@, p as int, opt_text(*parent)),
    decreases p, 1nat,
{
    let g = Ghost(file@);
    let ghost start = decls(out@);
    let ghost sp = source@;
    let ghost par = opt_text(*parent);
    let ghost k = tree.nodes@[p as int].kind@;
    let ghost below = ts_kids(*tree, sp, p as int, tree.nodes@[p as int].children@.len() as int, par);
    let ghost mut own: Seq<Decl> = Seq::empty();
    let e = &tree.nodes[p];
    if e.is_kind("function_declaration") || e.is_kind("function") || e.is_kind("method_definition") {
        match tree.child_by_field(p, "name") {
            Some(q) => {
                let name = tree.nodes[q].text(source);
                let (kind, qualified) = scoped(parent, &name);
                let base = located_node(tree, p, q, name.as_str(), qualified.as_str(), kind, file);
                let params = field_text(tree, p, source, "parameters", "()");
                let ret = field_text(tree, p, source, "return_type", "");
                let sig = name.clone().concat(params.as_str()).concat(ret.as_str());
                let refs = calls_under(tree, p, source, Grammar::TypeScript);
                let is_async = child_text_is(tree, p, source, "async");
                let is_static = child_text_is(tree, p, source, "static");
                let n = with_refs(base, sig, refs, g);
                let n = adjust(n, ts_visibility(tree, p, source), is_async, is_static, exported, g);
                proof { own = seq![decl_of(n)]; }
                push_ok(out, n, g);
            },
            None => {},
        }
        proof {
            assert(decls(out@) =~= start + own);
            assert(ts_decls(*tree, sp, p as int, par) =~= own + below);
        }
    } else if e.is_kind("lexical_declaration") || e.is_kind("variable_declaration") {
        match tree.child_of_kind(p, "variable_declarator") {
            Some(d) => match (tree.child_by_field(d, "name"), tree.child_by_field(d, "value")) {
                (Some(q), Some(v)) => {
                    if tree.nodes[v].is_kind("arrow_function") {
                        let name = tree.nodes[q].text(source);
                        let base = located_node(tree, p, q, name.as_str(), name.as_str(), NodeKind::Function, file);
                        let params = match tree.child_by_field(v, "parameters") {
                            Some(ps) => tree.nodes[ps].text(source),
                            None => field_text(tree, v, source, "parameter", "()"),
                        };
                        let sig = name.clone().concat(params.as_str());
                        let refs = calls_under(tree, v, source, Grammar::TypeScript);
                        let is_async = child_text_is(tree, v, source, "async");
                        let n = with_refs(base, sig, refs, g);
                        let n = adjust(n, Visibility::Public, is_async, false, exported, g);
                        proof { own = seq![decl_of(n)]; }
                        push_ok(out, n, g);
                    }
                },
                _ => {},
            },
            None => {},
        }
        proof {
            reveal_strlit("lexical_declaration");
            reveal_strlit("variable_declaration");
            reveal_strlit("function_declaration");
            reveal_strlit("function");
            reveal_strlit("method_definition");
            assert(!ts_function_kind(k)) by {
                assert("lexical_declaration"@[0] != "function_declaration"@[0]);
                assert("lexical_declaration"@[0] != "function"@[0]);
                assert("lexical_declaration"@[0] != "method_definition"@[0]);
                assert("variable_declaration"@[0] != "function_declaration"@[0]);
                assert("variable_declaration"@[0] != "function"@[0]);
                assert("variable_declaration"@[0] != "method_definition"@[0]);
            }
            assert(decls(out@) =~= start + own);
            assert(ts_decls(*tree, sp, p as int, par) =~= own + below);
        }
    } else if e.is_kind("class_declaration") || e.is_kind("class") {
        match tree.child_by_field(p, "name") {
            Some(q) => {
                let name = tree.nodes[q].text(source);
                let base = located_node(tree, p, q, name.as_str(), name.as_str(), NodeKind::Class, file);
                let n = adjust(base, Visibility::Public, false, false, exported, g);
                proof {
                    assert(refs_of(base).to_set() =~= Set::<Seq<char>>::empty());
                }
                push_ok(out, n, g);
                match tree.child_by_field(p, "body") {
                    Some(body) => ts_children(tree, body, source, file, &Some(name), false, out),
                    None => {},
                }
                proof {
                    assert(!ts_function_kind(k) && k != "lexical_declaration"@ && k != "variable_declaration"@) by {
                        reveal_strlit("class_declaration");
                        reveal_strlit("class");
                        reveal_strlit("lexical_declaration");
                        reveal_strlit("variable_declaration");
                        reveal_strlit("function_declaration");
                        reveal_strlit("function");
                        reveal_strlit("method_definition");
                        assert("class"@[0] != "function"@[0] && "class"@[0] != "method_definition"@[0]);
                        assert("class"@[0] != "lexical_declaration"@[0] && "class"@[0] != "variable_declaration"@[0]);
                        assert("class_declaration"@[0] != "function_declaration"@[0]);
                    }
                    assert(opt_text(Some(name)) == Some(name@));
                    assert(decls(out@) =~= start + ts_decls(*tree, sp, p as int, par));
                }
                return;
            },
            None => {
                proof {
                    reveal_strlit("class_declaration");
                    reveal_strlit("class");
                    reveal_strlit("lexical_declaration");
                    reveal_strlit("variable_declaration");
                    reveal_strlit("function_declaration");
                    reveal_strlit("function");
                    reveal_strlit("method_definition");
                    reveal_strlit("interface_declaration");
                    reveal_strlit("type_alias_declaration");
                    reveal_strlit("import_statement");
                    assert("class"@[0] != "function"@[0] && "class"@[0] != "method_definition"@[0]);
                    assert("class"@[0] != "lexical_declaration"@[0] && "class"@[0] != "variable_declaration"@[0]);
                    assert("class_declaration"@[0] != "function_declaration"@[0]);
                    assert("class"@[0] != "interface_declaration"@[0] && "class"@[0] != "type_alias_declaration"@[0]);
                    assert("class"@[0] != "import_statement"@[0]);
                    assert(decls(out@) =~= start + own);
                    assert(ts_decls(*tree, sp, p as int, par) =~= own + below);
                }
            },
        }
    } else if e.is_kind("interface_declaration") || e.is_kind("type_alias_declaration") {
        match tree.child_by_field(p, "name") {
            Some(q) => {
                let name = tree.nodes[q].text(source);
                let kind = if e.is_kind("interface_declaration") { NodeKind::Interface } else { NodeKind::TypeAlias };
                let base = located_node(tree, p, q, name.as_str(), name.as_str(), kind, file);
                let n = adjust(base, Visibility::Public, false, false, exported, g);
                proof {
                    assert(refs_of(base).to_set() =~= Set::<Seq<char>>::empty());
                    own = seq![decl_of(n)];
                }
                push_ok(out, n, g);
            },
            None => {},
        }
        proof {
            reveal_strlit("interface_declaration");
            reveal_strlit("type_alias_declaration");
            reveal_strlit("class_declaration");
            reveal_strlit("class");
            reveal_strlit("lexical_declaration");
            reveal_strlit("variable_declaration");
            reveal_strlit("function_declaration");
            reveal_strlit("function");
            reveal_strlit("method_definition");
            assert("interface_declaration"@[0] != "function"@[0] && "interface_declaration"@[0] != "method_definition"@[0]);
            assert("interface_declaration"@[0] != "lexical_declaration"@[0] && "interface_declaration"@[0] != "variable_declaration"@[0]);
            assert("interface_declaration"@[0] != "class"@[0]);
            assert("type_alias_declaration"@[0] != "function"@[0] && "type_alias_declaration"@[0] != "method_definition"@[0]);
            assert("type_alias_declaration"@[0] != "lexical_declaration"@[0] && "type_alias_declaration"@[0] != "variable_declaration"@[0]);
            assert("type_alias_declaration"@[0] != "class"@[0]);
            assert(decls(out@) =~= start + own);
            assert(ts_decls(*tree, sp, p as int, par) =~= own + below);
        }
    } else if e.is_kind("import_statement") {
        match tree.child_by_field(p, "source") {
            Some(q) => {
                let path = trim_quotes(tree.nodes[q].text(source).as_str());
                let n = import_node(tree, p, path.as_str(), file);
                proof { own = seq![decl_of(n)]; }
                push_ok(out, n, g);
            },
            None => {},
        }
        proof {
            assert(decls(out@) =~= start + own);
            assert(ts_decls(*tree, sp, p as int, par) =~= own + below);
        }
    } else if e.is_kind("export_statement") {
        ts_children(tree, p, source, file, parent, true, out);
        proof {
            assert(decls(out@) =~= start + ts_decls(*tree, sp, p as int, par));
        }
        return;
    } else {
        proof {
            assert(decls(out@) =~= start + own);
            assert(ts_decls(*tree, sp, p as int, par) =~= own + below);
        }
    }
    let ghost mid = decls(out@);
    ts_children(tree, p, source, file, parent, false, out);
    proof {
        assert(decls(out@) == mid + below);
        assert(decls(out@) =~= start + ts_decls(*tree, sp, p as int, par));
    }
}

fn ts_children(tree: &SyntaxTree, p: usize, source: &str, file: &str, parent: &Option<String>, exported: bool, out: &mut Vec<CodeNode>)
    requires
        tree.wf(),
        p < tree.nodes@.len(),
        all_extracted_ok(old(out)@, file@),
    ensures
        all_extracted_ok(final(out)@, file@),
        decls(final(out)@) == decls(old(out)@) + ts_kids(*tree, source@, p as int, tree.nodes@[p as int].children@.len() as int, opt_text(*parent)),
    decreases p, 0nat,
{
    let ghost start = decls(out@);
    let kids = &tree.nodes[p].children;
    let mut i: usize = 0;
    while i < kids.len()
        invariant
            tree.wf(),
            p < tree.nodes@.len(),
            *kids == tree.nodes@[p as int].children,
            i <= kids@.len(),
            all_extracted_ok(out@, file@),
            decls(out@) == start + ts_kids(*tree, source@, p as int, i as int, opt_text(*parent)),
        decreases kids@.len() - i,
    {
        let c = kids[i];
        assert(tree.nodes@[p as int].children@[i as int] < p);
        ts_item(tree, c, source, file, parent, exported, out);
        proof {
            assert(ts_kids(*tree, source@, p as int, i + 1, opt_text(*parent))
                == ts_kids(*tree, source@, p as int, i as int, opt_text(*parent)) + ts_decls(*tree, source@, c as int, opt_text(*parent)));
            assert(decls(out@) =~= start + ts_kids(*tree, source@, p as int, i + 1, opt_text(*parent)));
        }
        i = i + 1;
    }
}

/// The first node at or below `p` of kind `kind`, searching children in order.
/// The first node of grammar kind `kind` at or below `p`, in pre-order.
pub open spec fn find_first(t: SyntaxTree, p: int, kind: Seq<char>) -> Option<usize>
    decreases p, 1int, 0int,
{
    if !(0 <= p < t.nodes@.len()) {
        None
    } else if t.nodes@[p].kind@ == kind {
        Some(p as usize)
    } else {
        find_kids(t, p, kind, t.nodes@[p].children@.len() as int)
    }
}

/// The first match of `find_first` among the first `j` children of `p`.
pub open spec fn find_kids(t: SyntaxTree, p: int, kind: Seq<char>, j: int) -> Option<usize>
    decreases p, 0int, j,
{
    if j <= 0 || !(0 <= p < t.nodes@.len()) || j > t.nodes@[p].children@.len() {
        None
    } else {
        match find_kids(t, p, kind, j - 1) {
            Some(x) => Some(x),
            None => {
                let c = t.nodes@[p].children@[j - 1] as int;
                if 0 <= c < p { find_first(t, c, kind) } else { None }
            },
        }
    }
}

/// The function a C definition or prototype at `p` declares, if its declarator holds a
/// function declarator with a name: with the call names under it when it has a body.
pub open spec fn c_function_decl(t: SyntaxTree, src: Seq<char>, p: int, with_body: bool) -> Option<Decl> {
    match first_field(t, p, "declarator"@, 0) {
        Some(d) => match find_first(t, d as int, "function_declarator"@) {
            Some(fd) => match first_field(t, fd as int, "declarator"@, 0) {
                Some(q) => {
                    let nm = text_at(t, src, q as int);
                    Some((nm, nm, NodeKind::Function, if with_body { calls_of(Grammar::C, t, src, p) } else { Set::empty() }))
                },
                None => None,
            },
            None => None,
        },
        None => None,
    }
}

pub open spec fn opt_seq(o: Option<Decl>) -> Seq<Decl> {
    match o {
        Some(d) => seq![d],
        None => Seq::empty(),
    }
}

/// The C declarations at node `p`, in order: a function definition (with its call
/// names) or prototype; a struct or enum with a name and a body; a typedef; an include,
/// named by its path without quotes or brackets; then the declarations below.
pub open spec fn c_decls(t: SyntaxTree, src: Seq<char>, p: int) -> Seq<Decl>
    decreases p, 1int, 0int,
{
    if !(0 <= p < t.nodes@.len()) {
        Seq::empty()
    } else {
        let k = t.nodes@[p].kind@;
        let below = c_kids(t, src, p, t.nodes@[p].children@.len() as int);
        let own = if k == "function_definition"@ {
            opt_seq(c_function_decl(t, src, p, true))
        } else if k == "declaration"@ {
            opt_seq(c_function_decl(t, src, p, false))
        } else if k == "struct_specifier"@ || k == "enum_specifier"@ {
            match (first_field(t, p, "name"@, 0), first_field(t, p, "body"@, 0)) {
                (Some(q), Some(_)) => seq![(text_at(t, src, q as int), text_at(t, src, q as int),
                    if k == "struct_specifier"@ { NodeKind::Struct } else { NodeKind::Enum }, Set::empty())],
                _ => Seq::empty(),
            }
        } else if k == "type_definition"@ {
            match first_field(t, p, "declarator"@, 0) {
                Some(q) => seq![(text_at(t, src, q as int), text_at(t, src, q as int), NodeKind::TypeAlias, Set::empty())],
                None => Seq::empty(),
            }
        } else if k == "preproc_include"@ {
            match first_field(t, p, "path"@, 0) {
                Some(q) => {
                    let m = trimmed_text(text_at(t, src, q as int));
                    seq![(m, m, NodeKind::Import, Set::empty())]
                },
                None => Seq::empty(),
            }
        } else {
            Seq::empty()
        };
        own + below
    }
}

pub open spec fn c_kids(t: SyntaxTree, src: Seq<char>, p: int, j: int) -> Seq<Decl>
    decreases p, 0int, j,
{
    if j <= 0 || !(0 <= p < t.nodes@.len()) || j > t.nodes@[p].children@.len() {
        Seq::empty()
    } else {
        let c = t.nodes@[p].children@[j - 1] as int;
        c_kids(t, src, p, j - 1) + if 0 <= c < p { c_decls(t, src, c) } else { Seq::empty() }
    }
}

fn find_kind(tree: &SyntaxTree, p: usize, kind: &str) -> (r: Option<usize>)
    requires
        tree.wf(),
        p < tree.nodes@.len(),
    ensures
        r.is_some() ==> r.unwrap() <= p,
        r == find_first(*tree, p as int, kind@),
    decreases p,
{
    if tree.nodes[p].is_kind(kind) {
        return Some(p);
    }
    let kids = &tree.nodes[p].children;
    let mut i: usize = 0;
    while i < kids.len()
        invariant
            tree.wf(),
            p < tree.nodes@.len(),
            *kids == tree.nodes@[p as int].children,
            i <= kids@.len(),
            tree.nodes@[p as int].kind@ != kind@,
            find_kids(*tree, p as int, kind@, i as int).is_none(),
        decreases kids@.len() - i,
    {
        let c = kids[i];
        assert(tree.nodes@[p as int].children@[i as int] < p);
        match find_kind(tree, c, kind) {
            Some(x) => {
                assert(find_kids(*tree, p as int, kind@, i + 1) == Some(x));
                proof { lemma_find_kids_settled(*tree, p as int, kind@, i + 1, kids@.len() as int); }
                return Some(x);
            },
            None => {},
        }
        i = i + 1;
    }
    None
}

proof fn lemma_find_kids_settled(t: SyntaxTree, p: int, kind: Seq<char>, j: int, m: int)
    requires
        0 < j <= m <= t.nodes@[p].children@.len(),
        0 <= p < t.nodes@.len(),
        find_kids(t, p, kind, j).is_some(),
    ensures
        find_kids(t, p, kind, m) == find_kids(t, p, kind, j),
    decreases m - j,
{
    if m > j {
        lemma_find_kids_settled(t, p, kind, j, m - 1);
    }
}

/// Whether a C declaration carries the `static` storage class.
fn c_is_static(tree: &SyntaxTree, p: usize, source: &str) -> bool
    requires
        tree.wf(),
        p < tree.nodes@.len(),
{
    let key = String::from_str("static");
    let kids = &tree.nodes[p].children;
    let mut i: usize = 0;
    while i < kids.len()
        invariant
            tree.wf(),
            p < tree.nodes@.len(),
            *kids == tree.nodes@[p as int].children,
            i <= kids@.len(),
        decreases kids@.len() - i,
    {
        let c = kids[i];
        assert(tree.nodes@[p as int].children@[i as int] < p);
        if tree.nodes[c].is_kind("storage_class_specifier") && tree.nodes[c].text(source) == key {
            return true;
        }
        i = i + 1;
    }
    false
}

/// A C function definition or prototype at `p` whose declarator holds a function declarator.
fn c_function(tree: &SyntaxTree, p: usize, source: &str, file: &str, with_body: bool) -> (r: Option<CodeNode>)
    requires
        tree.wf(),
        p < tree.nodes@.len(),
    ensures
        r.is_some() ==> extracted_ok(r.unwrap(), file@),
        r.is_some() == c_function_decl(*tree, source@, p as int, with_body).is_some(),
        r.is_some() ==> decl_of(r.unwrap()) == c_function_decl(*tree, source@, p as int, with_body).unwrap(),
{
    let g = Ghost(file@);
    let decl = match tree.child_by_field(p, "declarator") {
        Some(d) => d,
        None => { return None; },
    };
    let fd = match find_kind(tree, decl, "function_declarator") {
        Some(f) => f,
        None => { return None; },
    };
    let name_at = match tree.child_by_field(fd, "declarator") {
        Some(q) => q,
        None => { return None; },
    };
    let name = tree.nodes[name_at].text(source);
    let base = located_node(tree, p, name_at, name.as_str(), name.as_str(), NodeKind::Function, file);
    let is_static = c_is_static(tree, p, source);
    let vis = if is_static { Visibility::Private } else { Visibility::Public };
    let n = if with_body {
        let ret = field_text(tree, p, source, "type", "void");
        let params = field_text(tree, fd, source, "parameters", "()");
        let sig = ret.concat(" ").concat(name.as_str()).concat(params.as_str());
        let refs = calls_under(tree, p, source, Grammar::C);
        with_refs(base, sig, refs, g)
    } else {
        assert(refs_of(base).to_set() =~= Set::<Seq<char>>::empty());
        base
    };
    Some(adjust(n, vis, false, is_static, false, g))
}

/// Extracts the C entity at `p` and those below it.
fn c_item(tree: &SyntaxTree, p: usize, source: &str, file: &str, out: &mut Vec<CodeNode>)
    requires
        tree.wf(),
        p < tree.nodes@.len(),
        all_extracted_ok(old(out)@, file@),
    ensures
        all_extracted_ok(final(out)@, file@),
        decls(final(out)@) == decls(old(out)@) + c_decls(*tree, source@, p as int),
    decreases p,
{
    let g = Ghost(file@);
    let ghost start = decls(out@);
    let ghost sp = source@;
    let ghost mut own: Seq<Decl> = Seq::empty();
    let e = &tree.nodes[p];
    if e.is_kind("function_definition") {
        match c_function(tree, p, source, file, true) {
            Some(n) => {
                proof { own = seq![decl_of(n)]; }
                push_ok(out, n, g);
            },
            None => {},
        }
    } else if e.is_kind("declaration") {
        match c_function(tree, p, source, file, false) {
            Some(n) => {
                proof { own = seq![decl_of(n)]; }
                push_ok(out, n, g);
            },
            None => {},
        }
    } else if e.is_kind("struct_specifier") || e.is_kind("enum_specifier") {
        match (tree.child_by_field(p, "name"), tree.child_by_field(p, "body")) {
            (Some(q), Some(_)) => {
                let name = tree.nodes[q].text(source);
                let kind = if e.is_kind("struct_specifier") { NodeKind::Struct } else { NodeKind::Enum };
                let base = located_node(tree, p, q, name.as_str(), name.as_str(), kind, file);
                let n = adjust(base, Visibility::Public, false, false, false, g);
                proof {
                    assert(refs_of(base).to_set() =~= Set::<Seq<char>>::empty());
                    own = seq![decl_of(n)];
                }
                push_ok(out, n, g);
            },
            _ => {},
        }
    } else if e.is_kind("type_definition") {
        match tree.child_by_field(p, "declarator") {
            Some(q) => {
                let name = tree.nodes[q].text(source);
                let base = located_node(tree, p, q, name.as_str(), name.as_str(), NodeKind::TypeAlias, file);
                let n = adjust(base, Visibility::Public, false, false, false, g);
                proof {
                    assert(refs_of(base).to_set() =~= Set::<Seq<char>>::empty());
                    own = seq![decl_of(n)];
                }
                push_ok(out, n, g);
            },
            None => {},
        }
    } else if e.is_kind("preproc_include") {
        match tree.child_by_field(p, "path") {
            Some(q) => {
                let path = trim_quotes(tree.nodes[q].text(source).as_str());
                let n = import_node(tree, p, path.as_str(), file);
                proof { own = seq![decl_of(n)]; }
                push_ok(out, n, g);
            },
            None => {},
        }
    }
    proof {
        reveal_strlit("function_definition");
        reveal_strlit("declaration");
        reveal_strlit("struct_specifier");
        reveal_strlit("enum_specifier");
        reveal_strlit("type_definition");
        reveal_strlit("preproc_include");
        let t = *tree;
        let k = t.nodes@[p as int].kind@;
        let o = if k == "function_definition"@ {
            opt_seq(c_function_decl(t, sp, p as int, true))
        } else if k == "declaration"@ {
            opt_seq(c_function_decl(t, sp, p as int, false))
        } else if k == "struct_specifier"@ || k == "enum_specifier"@ {
            match (first_field(t, p as int, "name"@, 0), first_field(t, p as int, "body"@, 0)) {
                (Some(q), Some(_)) => seq![(text_at(t, sp, q as int), text_at(t, sp, q as int),
                    if k == "struct_specifier"@ { NodeKind::Struct } else { NodeKind::Enum }, Set::empty())],
                _ => Seq::empty(),
            }
        } else if k == "type_definition"@ {
            match first_field(t, p as int, "declarator"@, 0) {
                Some(q) => seq![(text_at(t, sp, q as int), text_at(t, sp, q as int), NodeKind::TypeAlias, Set::empty())],
                None => Seq::empty(),
            }
        } else if k == "preproc_include"@ {
            match first_field(t, p as int, "path"@, 0) {
                Some(q) => {
                    let m = trimmed_text(text_at(t, sp, q as int));
                    seq![(m, m, NodeKind::Import, Set::empty())]
                },
                None => Seq::empty(),
            }
        } else {
            Seq::empty()
        };
        assert(own =~= o);
        assert(decls(out@) =~= start + own);
    }
    let ghost mid = decls(out@);
    let kids = &tree.nodes[p].children;
    let mut i: usize = 0;
    while i < kids.len()
        invariant
            tree.wf(),
            p < tree.nodes@.len(),
            *kids == tree.nodes@[p as int].children,
            i <= kids@.len(),
            all_extracted_ok(out@, file@),
            decls(out@) == mid + c_kids(*tree, source@, p as int, i as int),
        decreases kids@.len() - i,
    {
        let c = kids[i];
        assert(tree.nodes@[p as int].children@[i as int] < p);
        c_item(tree, c, source, file, out);
        proof {
            assert(c_kids(*tree, source@, p as int, i + 1) == c_kids(*tree, source@, p as int, i as int) + c_decls(*tree, source@, c as int));
            assert(decls(out@) =~= mid + c_kids(*tree, source@, p as int, i + 1));
        }
        i = i + 1;
    }
    proof {
        assert(decls(out@) =~= start + c_decls(*tree, source@, p as int));
    }
}

/// The entities of a parsed Python, TypeScript or C file.
pub fn extract_with(grammar: Grammar, tree: &SyntaxTree, source: &str, file: &str) -> (r: Vec<CodeNode>)
    requires
        tree.wf(),
    ensures
        all_extracted_ok(r@, file@),
        grammar == Grammar::Python ==> decls(r@) == py_decls(*tree, source@, tree.root as int, None),
        grammar == Grammar::TypeScript ==> decls(r@) == ts_decls(*tree, source@, tree.root as int, None),
        grammar != Grammar::Python && grammar != Grammar::TypeScript ==> decls(r@) == c_decls(*tree, source@, tree.root as int),
{
    let mut out: Vec<CodeNode> = Vec::new();
    assert(decls(out@) =~= Seq::empty());
    match grammar {
        Grammar::Python => python_item(tree, tree.root, source, file, &None, &mut out),
        Grammar::TypeScript => ts_item(tree, tree.root, source, file, &None, false, &mut out),
        _ => c_item(tree, tree.root, source, file, &mut out),
    }
    assert(decls(out@) =~= Seq::empty() + decls(out@));
    out
}

/// The Python extractor.
pub struct PythonParser;

/// The TypeScript and JavaScript extractor.
pub struct TypeScriptParser;

/// The C extractor.
pub struct CParser;

impl PythonParser {
    /// Functions, methods (scoped by class), classes, imports and module-level assignments.
    pub fn extract_nodes(tree: &SyntaxTree, source: &str, file: &str) -> (r: Vec<CodeNode>)
        requires
            tree.wf(),
        ensures
            all_extracted_ok(r@, file@),
            decls(r@) == py_decls(*tree, source@, tree.root as int, None),
    {
        extract_with(Grammar::Python, tree, source, file)
    }
}

impl TypeScriptParser {
    /// Functions, arrow functions bound to names, classes and their methods, interfaces,
    /// type aliases and imports.
    pub fn extract_nodes(tree: &SyntaxTree, source: &str, file: &str) -> (r: Vec<CodeNode>)
        requires
            tree.wf(),
        ensures
            all_extracted_ok(r@, file@),
            decls(r@) == ts_decls(*tree, source@, tree.root as int, None),
    {
        extract_with(Grammar::TypeScript, tree, source, file)
    }
}

impl CParser {
    /// Function definitions and prototypes, structs, enums, typedefs and includes.
    pub fn extract_nodes(tree: &SyntaxTree, source: &str, file: &str) -> (r: Vec<CodeNode>)
        requires
            tree.wf(),
        ensures
            all_extracted_ok(r@, file@),
            decls(r@) == c_decls(*tree, source@, tree.root as int),
    {
        extract_with(Grammar::C, tree, source, file)
    }
}

} // verus!
