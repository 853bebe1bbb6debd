//! The language-agnostic vertex record and its deterministic identity.
use vstd::prelude::*;
use vstd::string::*;

verus! {

/// The kind of code entity a vertex stands for.
#[derive(Clone, Copy, Debug, PartialEq, Eq, Hash, Structural)]
pub enum NodeKind {
    Function,
    Method,
    Class,
    Interface,
    Struct,
    Enum,
    Variable,
    Constant,
    TypeAlias,
    Module,
    Import,
    Export,
    Constructor,
    Field,
}

/// Position of a kind in declaration order; it takes part in the identity hash.
pub open spec fn kind_tag(k: NodeKind) -> int {
    match k {
        NodeKind::Function => 0,
        NodeKind::Method => 1,
        NodeKind::Class => 2,
        NodeKind::Interface => 3,
        NodeKind::Struct => 4,
        NodeKind::Enum => 5,
        NodeKind::Variable => 6,
        NodeKind::Constant => 7,
        NodeKind::TypeAlias => 8,
        NodeKind::Module => 9,
        NodeKind::Import => 10,
        NodeKind::Export => 11,
        NodeKind::Constructor => 12,
        NodeKind::Field => 13,
    }
}

/// The lower-case name of a kind, as shown to users.
pub open spec fn kind_name(k: NodeKind) -> Seq<char> {
    match k {
        NodeKind::Function => "function"@,
        NodeKind::Method => "method"@,
        NodeKind::Class => "class"@,
        NodeKind::Interface => "interface"@,
        NodeKind::Struct => "struct"@,
        NodeKind::Enum => "enum"@,
        NodeKind::Variable => "variable"@,
        NodeKind::Constant => "constant"@,
        NodeKind::TypeAlias => "type_alias"@,
        NodeKind::Module => "module"@,
        NodeKind::Import => "import"@,
        NodeKind::Export => "export"@,
        NodeKind::Constructor => "constructor"@,
        NodeKind::Field => "field"@,
    }
}

impl NodeKind {
    pub fn tag(&self) -> (r: u8)
        ensures
            r as int == kind_tag(*self),
    {
        match self {
            NodeKind::Function => 0,
            NodeKind::Method => 1,
            NodeKind::Class => 2,
            NodeKind::Interface => 3,
            NodeKind::Struct => 4,
            NodeKind::Enum => 5,
            NodeKind::Variable => 6,
            NodeKind::Constant => 7,
            NodeKind::TypeAlias => 8,
            NodeKind::Module => 9,
            NodeKind::Import => 10,
            NodeKind::Export => 11,
            NodeKind::Constructor => 12,
            NodeKind::Field => 13,
        }
    }

    /// The kind's display name (`function`, `type_alias`, ...).
    pub fn to_string(&self) -> (r: String)
        ensures
            r@ == kind_name(*self),
    {
        match self {
            NodeKind::Function => String::from_str("function"),
            NodeKind::Method => String::from_str("method"),
            NodeKind::Class => String::from_str("class"),
            NodeKind::Interface => String::from_str("interface"),
            NodeKind::Struct => String::from_str("struct"),
            NodeKind::Enum => String::from_str("enum"),
            NodeKind::Variable => String::from_str("variable"),
            NodeKind::Constant => String::from_str("constant"),
            NodeKind::TypeAlias => String::from_str("type_alias"),
            NodeKind::Module => String::from_str("module"),
            NodeKind::Import => String::from_str("import"),
            NodeKind::Export => String::from_str("export"),
            NodeKind::Constructor => String::from_str("constructor"),
            NodeKind::Field => String::from_str("field"),
        }
    }
}

/// Visibility of a code entity, mapped onto four values.
#[derive(Clone, Copy, Debug, PartialEq, Eq, Hash, Structural)]
pub enum Visibility {
    Private,
    Public,
    Protected,
    Internal,
}

impl Default for Visibility {
    fn default() -> (r: Visibility)
        ensures
            r == Visibility::Private,
    {
        Visibility::Private
    }
}

/// A code entity extracted from source.
#[derive(Clone, Debug)]
pub struct CodeNode {
    /// Sixteen lower-case hex digits of the identity hash of (file, qualified name, kind).
    pub id: String,
    pub name: String,
    pub qualified_name: String,
    pub kind: NodeKind,
    pub file: String,
    /// First line, 1-indexed.
    pub line_start: u32,
    /// Last line, inclusive.
    pub line_end: u32,
    pub column: u32,
    pub signature: Option<String>,
    pub visibility: Visibility,
    pub is_async: bool,
    pub is_static: bool,
    pub is_exported: bool,
    pub docstring: Option<String>,
    pub byte_start: u32,
    pub byte_end: u32,
    /// Names (not identities) this entity refers to, mostly call targets.
    pub references: Vec<String>,
}

/// The 64-bit hash that std's `DefaultHasher` gives to (file, qualified name, kind tag).
pub uninterp spec fn identity_hash(file: Seq<char>, qualified_name: Seq<char>, tag: int) -> u64;

/// Relies on `BuildHasher::hash_one` with the unseeded `DefaultHasher`: the tuple
/// (file, qualified name, kind tag) is hashed field by field, and the result depends on
/// those values alone.
#[verifier::external_body]
fn hash_identity(file: &str, qualified_name: &str, tag: u8) -> (r: u64)
    ensures
        r == identity_hash(file@, qualified_name@, tag as int),
{
    let builder = std::hash::BuildHasherDefault::<std::collections::hash_map::DefaultHasher>::default();
    std::hash::BuildHasher::hash_one(&builder, (file, qualified_name, tag as isize))
}

pub open spec fn pow16(n: nat) -> nat
    decreases n,
{
    if n == 0 {
        1
    } else {
        16 * pow16((n - 1) as nat)
    }
}

pub open spec fn hex_char(d: nat) -> char {
    if d < 10 {
        (('0' as u8) + d) as char
    } else {
        (('a' as u8) + (d - 10)) as char
    }
}

/// `x` as exactly sixteen lower-case hex digits, most significant first.
pub open spec fn hex16(x: u64) -> Seq<char> {
    Seq::new(16, |j: int| hex_char(((x as nat) / pow16((15 - j) as nat)) % 16))
}

/// The identity of the entity (file, qualified name, kind).
pub open spec fn node_id(file: Seq<char>, qualified_name: Seq<char>, kind: NodeKind) -> Seq<char> {
    hex16(identity_hash(file, qualified_name, kind_tag(kind)))
}

proof fn lemma_pow16_step(n: nat)
    ensures
        pow16(n + 1) == 16 * pow16(n),
        pow16(n) >= 1,
    decreases n,
{
    if n > 0 {
        lemma_pow16_step((n - 1) as nat);
    }
}

fn hex_digit(d: u64) -> (r: &'static str)
    requires
        d < 16,
    ensures
        r@ == seq![hex_char(d as nat)],
{
    let digits = "0123456789abcdef";
    proof {
        reveal_strlit("0123456789abcdef");
    }
    let r = digits.substring_char(d as usize, (d + 1) as usize);
    assert(r@ =~= seq![hex_char(d as nat)]);
    r
}

/// Renders `x` as sixteen lower-case hex digits.
pub fn to_hex16(x: u64) -> (r: String)
    ensures
        r@ == hex16(x),
{
    let mut out = String::new();
    let mut divisor: u64 = 0x1000_0000_0000_0000;
    let mut i: usize = 0;
    proof {
        reveal_with_fuel(pow16, 16);
        assert(pow16(15) == 0x1000_0000_0000_0000);
    }
    while i < 16
        invariant
            i <= 16,
            i < 16 ==> divisor as nat == pow16((15 - i) as nat),
            out@.len() == i,
            forall|j: int| 0 <= j < i ==> out@[j] == hex16(x)[j],
        decreases 16 - i,
    {
        proof {
            lemma_pow16_step((15 - i) as nat);
        }
        let d = (x / divisor) % 16;
        let piece = hex_digit(d);
        out.append(piece);
        assert(out@[i as int] == hex16(x)[i as int]);
        proof {
            if i < 15 {
                lemma_pow16_step((14 - i) as nat);
            }
        }
        divisor = divisor / 16;
        i = i + 1;
    }
    assert(out@ =~= hex16(x));
    out
}

impl CodeNode {
    /// The deterministic identity of (file, qualified name, kind).
    pub fn compute_id(file: &str, qualified_name: &str, kind: NodeKind) -> (r: String)
        ensures
            r@ == node_id(file@, qualified_name@, kind),
    {
        let h = hash_identity(file, qualified_name, kind.tag());
        to_hex16(h)
    }

    /// A fresh node: identity computed, positions zero, no signature, private, no flags,
    /// no docstring and no references.
    pub fn new(name: &str, qualified_name: &str, kind: NodeKind, file: &str) -> (r: CodeNode)
        ensures
            r.id@ == node_id(file@, qualified_name@, kind),
            r.name@ == name@,
            r.qualified_name@ == qualified_name@,
            r.kind == kind,
            r.file@ == file@,
            r.line_start == 0 && r.line_end == 0 && r.column == 0,
            r.byte_start == 0 && r.byte_end == 0,
            r.signature.is_none(),
            r.docstring.is_none(),
            r.visibility == Visibility::Private,
            !r.is_async && !r.is_static && !r.is_exported,
            r.references@.len() == 0,
    {
        CodeNode {
            id: Self::compute_id(file, qualified_name, kind),
            name: String::from_str(name),
            qualified_name: String::from_str(qualified_name),
            kind,
            file: String::from_str(file),
            line_start: 0,
            line_end: 0,
            column: 0,
            signature: None,
            visibility: Visibility::Private,
            is_async: false,
            is_static: false,
            is_exported: false,
            docstring: None,
            byte_start: 0,
            byte_end: 0,
            references: Vec::new(),
        }
    }

    /// A copy equal to this node in every field (the references as a sequence).
    pub fn snapshot(&self) -> (r: CodeNode)
        ensures
            r == (CodeNode { references: r.references, ..*self }),
            r.references@ == self.references@,
    {
        let references = self.references.clone();
        assert(forall|i: int| 0 <= i < references@.len() ==> references@[i] == self.references@[i]);
        assert(references@ =~= self.references@);
        let signature = match &self.signature {
            Some(s) => Some(s.clone()),
            None => None,
        };
        let docstring = match &self.docstring {
            Some(s) => Some(s.clone()),
            None => None,
        };
        CodeNode {
            id: self.id.clone(),
            name: self.name.clone(),
            qualified_name: self.qualified_name.clone(),
            kind: self.kind,
            file: self.file.clone(),
            line_start: self.line_start,
            line_end: self.line_end,
            column: self.column,
            signature,
            visibility: self.visibility,
            is_async: self.is_async,
            is_static: self.is_static,
            is_exported: self.is_exported,
            docstring,
            byte_start: self.byte_start,
            byte_end: self.byte_end,
            references,
        }
    }

    pub fn with_lines(self, start: u32, end: u32) -> (r: CodeNode)
        ensures
            r == (CodeNode { line_start: start, line_end: end, ..self }),
    {
        let mut n = self;
        n.line_start = start;
        n.line_end = end;
        n
    }

    pub fn with_bytes(self, start: u32, end: u32) -> (r: CodeNode)
        ensures
            r == (CodeNode { byte_start: start, byte_end: end, ..self }),
    {
        let mut n = self;
        n.byte_start = start;
        n.byte_end = end;
        n
    }

    pub fn with_column(self, column: u32) -> (r: CodeNode)
        ensures
            r == (CodeNode { column, ..self }),
    {
        let mut n = self;
        n.column = column;
        n
    }

    pub fn with_signature(self, sig: String) -> (r: CodeNode)
        ensures
            r == (CodeNode { signature: Some(sig), ..self }),
    {
        let mut n = self;
        n.signature = Some(sig);
        n
    }

    pub fn with_visibility(self, vis: Visibility) -> (r: CodeNode)
        ensures
            r == (CodeNode { visibility: vis, ..self }),
    {
        let mut n = self;
        n.visibility = vis;
        n
    }

    pub fn as_async(self) -> (r: CodeNode)
        ensures
            r == (CodeNode { is_async: true, ..self }),
    {
        let mut n = self;
        n.is_async = true;
        n
    }

    pub fn as_static(self) -> (r: CodeNode)
        ensures
            r == (CodeNode { is_static: true, ..self }),
    {
        let mut n = self;
        n.is_static = true;
        n
    }

    pub fn as_exported(self) -> (r: CodeNode)
        ensures
            r == (CodeNode { is_exported: true, ..self }),
    {
        let mut n = self;
        n.is_exported = true;
        n
    }

    pub fn with_references(self, refs: Vec<String>) -> (r: CodeNode)
        ensures
            r == (CodeNode { references: refs, ..self }),
    {
        let mut n = self;
        n.references = refs;
        n
    }

    pub fn with_docstring(self, doc: String) -> (r: CodeNode)
        ensures
            r == (CodeNode { docstring: Some(doc), ..self }),
    {
        let mut n = self;
        n.docstring = Some(doc);
        n
    }
}

} // verus!
