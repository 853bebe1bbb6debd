//! Language detection and the single-file parse entry point.
use vstd::prelude::*;
use vstd::string::*;
use crate::lang_rust::{all_extracted_ok, decls, rust_decls, RustParser};
use crate::node::CodeNode;
use crate::syntax::{parse_syntax, Grammar, SyntaxTree};
use crate::text::{base_name, base_name_of, chars_of, lower_of, lowercase};

verus! {

/// What can go wrong when parsing a source file.
#[derive(Clone, Debug, PartialEq, Eq)]
pub enum ParseError {
    /// The file could not be read.
    IoError { path: String, message: String },
    /// No language is known for the file's extension.
    UnsupportedLanguage(String),
    /// The parser produced no tree.
    ParserError(String),
    /// The file is empty.
    EmptyFile(String),
}

impl ParseError {
    /// A read failure for `path`.
    pub fn io(path: String, message: String) -> (r: ParseError)
        ensures
            r == (ParseError::IoError { path, message }),
    {
        ParseError::IoError { path, message }
    }
}

/// The languages the extension table knows.
#[derive(Clone, Copy, Debug, PartialEq, Eq, Hash, Structural)]
pub enum SourceLanguage {
    TypeScript,
    Rust,
    Python,
    Go,
    Java,
    C,
    Cpp,
    Dart,
}

/// The language of a lower-case extension.
pub open spec fn language_of(ext: Seq<char>) -> Option<SourceLanguage> {
    if ext == "ts"@ || ext == "tsx"@ || ext == "mts"@ || ext == "cts"@ || ext == "js"@ || ext == "jsx"@
        || ext == "mjs"@ || ext == "cjs"@ {
        Some(SourceLanguage::TypeScript)
    } else if ext == "rs"@ {
        Some(SourceLanguage::Rust)
    } else if ext == "py"@ || ext == "pyi"@ {
        Some(SourceLanguage::Python)
    } else if ext == "go"@ {
        Some(SourceLanguage::Go)
    } else if ext == "java"@ {
        Some(SourceLanguage::Java)
    } else if ext == "c"@ || ext == "h"@ {
        Some(SourceLanguage::C)
    } else if ext == "cpp"@ || ext == "hpp"@ || ext == "cc"@ || ext == "hh"@ || ext == "cxx"@ || ext == "hxx"@ {
        Some(SourceLanguage::Cpp)
    } else if ext == "dart"@ {
        Some(SourceLanguage::Dart)
    } else {
        None
    }
}

fn is_one_of(s: &String, options: &Vec<&'static str>) -> (r: bool)
    ensures
        r == exists|i: int| 0 <= i < options@.len() && (#[trigger] options@[i])@ == s@,
{
    let mut i: usize = 0;
    while i < options.len()
        invariant
            i <= options@.len(),
            forall|j: int| 0 <= j < i ==> (#[trigger] options@[j])@ != s@,
        decreases options@.len() - i,
    {
        let o = String::from_str(options[i]);
        if o == *s {
            return true;
        }
        i = i + 1;
    }
    false
}

/// The language for a file extension, compared without regard to case.
pub fn get_parser(extension: &str) -> (r: Option<SourceLanguage>)
    ensures
        r == language_of(lower_of(extension@)),
{
    let e = lowercase(extension);
    let ts = vec!["ts", "tsx", "mts", "cts", "js", "jsx", "mjs", "cjs"];
    let py = vec!["py", "pyi"];
    let c = vec!["c", "h"];
    let cpp = vec!["cpp", "hpp", "cc", "hh", "cxx", "hxx"];
    proof {
        reveal_strlit("ts");
        reveal_strlit("tsx");
    }
    if is_one_of(&e, &ts) {
        assert(ts@[0]@ == "ts"@ && ts@[1]@ == "tsx"@ && ts@[2]@ == "mts"@ && ts@[3]@ == "cts"@);
        assert(ts@[4]@ == "js"@ && ts@[5]@ == "jsx"@ && ts@[6]@ == "mjs"@ && ts@[7]@ == "cjs"@);
        Some(SourceLanguage::TypeScript)
    } else if is_one_of(&e, &vec!["rs"]) {
        Some(SourceLanguage::Rust)
    } else if is_one_of(&e, &py) {
        Some(SourceLanguage::Python)
    } else if is_one_of(&e, &vec!["go"]) {
        Some(SourceLanguage::Go)
    } else if is_one_of(&e, &vec!["java"]) {
        Some(SourceLanguage::Java)
    } else if is_one_of(&e, &c) {
        Some(SourceLanguage::C)
    } else if is_one_of(&e, &cpp) {
        Some(SourceLanguage::Cpp)
    } else if is_one_of(&e, &vec!["dart"]) {
        Some(SourceLanguage::Dart)
    } else {
        proof {
            assert(ts@[0]@ == "ts"@ && ts@[1]@ == "tsx"@ && ts@[2]@ == "mts"@ && ts@[3]@ == "cts"@);
            assert(ts@[4]@ == "js"@ && ts@[5]@ == "jsx"@ && ts@[6]@ == "mjs"@ && ts@[7]@ == "cjs"@);
            assert(py@[0]@ == "py"@ && py@[1]@ == "pyi"@);
            assert(c@[0]@ == "c"@ && c@[1]@ == "h"@);
            assert(cpp@[0]@ == "cpp"@ && cpp@[1]@ == "hpp"@ && cpp@[2]@ == "cc"@);
            assert(cpp@[3]@ == "hh"@ && cpp@[4]@ == "cxx"@ && cpp@[5]@ == "hxx"@);
        }
        None
    }
}

/// Every extension the extension table knows.
pub fn supported_extensions() -> (r: Vec<&'static str>)
    ensures
        r@.map_values(|e: &'static str| e@) == seq![
            "ts"@, "tsx"@, "mts"@, "cts"@, "js"@, "jsx"@, "mjs"@, "cjs"@, "rs"@, "py"@, "pyi"@, "go"@, "java"@,
            "c"@, "h"@, "cpp"@, "hpp"@, "cc"@, "hh"@, "cxx"@, "hxx"@, "dart"@,
        ],
        forall|x: Seq<char>| language_of(x).is_some() <==> r@.map_values(|e: &'static str| e@).contains(x),
{
    let r = vec![
        "ts", "tsx", "mts", "cts", "js", "jsx", "mjs", "cjs", "rs", "py", "pyi", "go", "java", "c", "h",
        "cpp", "hpp", "cc", "hh", "cxx", "hxx", "dart",
    ];
    let ghost v = r@.map_values(|e: &'static str| e@);
    assert(v =~= seq![
        "ts"@, "tsx"@, "mts"@, "cts"@, "js"@, "jsx"@, "mjs"@, "cjs"@, "rs"@, "py"@, "pyi"@, "go"@, "java"@,
        "c"@, "h"@, "cpp"@, "hpp"@, "cc"@, "hh"@, "cxx"@, "hxx"@, "dart"@,
    ]);
    assert forall|x: Seq<char>| language_of(x).is_some() <==> v.contains(x) by {
        if language_of(x).is_some() {
            if x == "ts"@ { assert(v[0] == x); } else if x == "tsx"@ { assert(v[1] == x); }
            else if x == "mts"@ { assert(v[2] == x); } else if x == "cts"@ { assert(v[3] == x); }
            else if x == "js"@ { assert(v[4] == x); } else if x == "jsx"@ { assert(v[5] == x); }
            else if x == "mjs"@ { assert(v[6] == x); } else if x == "cjs"@ { assert(v[7] == x); }
            else if x == "rs"@ { assert(v[8] == x); } else if x == "py"@ { assert(v[9] == x); }
            else if x == "pyi"@ { assert(v[10] == x); } else if x == "go"@ { assert(v[11] == x); }
            else if x == "java"@ { assert(v[12] == x); } else if x == "c"@ { assert(v[13] == x); }
            else if x == "h"@ { assert(v[14] == x); } else if x == "cpp"@ { assert(v[15] == x); }
            else if x == "hpp"@ { assert(v[16] == x); } else if x == "cc"@ { assert(v[17] == x); }
            else if x == "hh"@ { assert(v[18] == x); } else if x == "cxx"@ { assert(v[19] == x); }
            else if x == "hxx"@ { assert(v[20] == x); } else { assert(v[21] == x); }
        }
        if v.contains(x) {
            let i = choose|i: int| 0 <= i < v.len() && v[i] == x;
        }
    }
    r
}

/// Whether an extension is known, without regard to case.
pub fn is_supported(extension: &str) -> (r: bool)
    ensures
        r == language_of(lower_of(extension@)).is_some(),
{
    get_parser(extension).is_some()
}

/// The grammar this library parses a language with, if it has one.
pub open spec fn grammar_of(l: SourceLanguage) -> Option<Grammar> {
    match l {
        SourceLanguage::Rust => Some(Grammar::Rust),
        SourceLanguage::Python => Some(Grammar::Python),
        SourceLanguage::TypeScript => Some(Grammar::TypeScript),
        SourceLanguage::C => Some(Grammar::C),
        _ => None,
    }
}

/// Parses source text in `language` and extracts its entities (declarations nested more
/// than `MAX_NESTING` levels deep in the syntax tree are not seen); `ParserError` when the
/// parser gives no tree or the language has no grammar here.
pub fn parse_source(source: &str, file_path: &str, language: SourceLanguage) -> (r: Result<Vec<CodeNode>, ParseError>)
    ensures
        grammar_of(language).is_none() ==> r.is_err(),
        r.is_ok() ==> all_extracted_ok(r.unwrap()@, file_path@),
        r.is_err() ==> r->Err_0 is ParserError,
        r.is_ok() && language == SourceLanguage::Rust ==> exists|t: SyntaxTree| #[trigger] t.wf()
            && decls(r.unwrap()@) == rust_decls(t, source@, t.root as int, None),
{
    let grammar = match language {
        SourceLanguage::Rust => Grammar::Rust,
        SourceLanguage::Python => Grammar::Python,
        SourceLanguage::TypeScript => Grammar::TypeScript,
        SourceLanguage::C => Grammar::C,
        _ => {
            return Err(ParseError::ParserError(String::from_str("no grammar for this language")));
        },
    };
    match parse_syntax(grammar, source) {
        Some(tree) => {
            match grammar {
                Grammar::Rust => Ok(RustParser::extract_nodes(&tree, source, file_path)),
                _ => Ok(crate::lang_more::extract_with(grammar, &tree, source, file_path)),
            }
        },
        None => Err(ParseError::ParserError(String::from_str("the parser returned no tree"))),
    }
}

/// Parses the contents of the file at `path` (already read) with the language its
/// extension names. An empty file is an error, except `__init__.py`, which has no
/// entities; an unknown extension is `UnsupportedLanguage`.
pub fn parse_single_file(path: &str, extension: Option<&str>, source: &str) -> (r: Result<Vec<CodeNode>, ParseError>)
    ensures
        source@.len() == 0 && base_name(path@) == "__init__.py"@ ==> r.is_ok() && r.unwrap()@.len() == 0,
        source@.len() == 0 && base_name(path@) != "__init__.py"@ ==> r is Err && r->Err_0 is EmptyFile
            && r->Err_0->EmptyFile_0@ == path@,
        source@.len() > 0 && (extension.is_none() || language_of(lower_of(extension.unwrap()@)).is_none())
            ==> r is Err && r->Err_0 is UnsupportedLanguage && r->Err_0->UnsupportedLanguage_0@ == path@,
        r.is_ok() ==> all_extracted_ok(r.unwrap()@, path@),
        r.is_ok() && source@.len() > 0 && extension.is_some()
            && language_of(lower_of(extension.unwrap()@)) == Some(SourceLanguage::Rust)
            ==> exists|t: SyntaxTree| #[trigger] t.wf() && decls(r.unwrap()@) == rust_decls(t, source@, t.root as int, None),
{
    if source.unicode_len() == 0 {
        let p = chars_of(path);
        let marker = chars_of("__init__.py");
        if crate::text::chars_eq(&base_name_of(&p), &marker) {
            let v: Vec<CodeNode> = Vec::new();
            assert(all_extracted_ok(v@, path@));
            return Ok(v);
        }
        return Err(ParseError::EmptyFile(String::from_str(path)));
    }
    let language = match extension {
        Some(e) => get_parser(e),
        None => None,
    };
    match language {
        Some(l) => parse_source(source, path, l),
        None => Err(ParseError::UnsupportedLanguage(String::from_str(path))),
    }
}

/// Index of the last `.` in `s`, if any.
pub open spec fn last_dot(s: Seq<char>) -> Option<int>
    decreases s.len(),
{
    if s.len() == 0 {
        None
    } else if s.last() == '.' {
        Some(s.len() - 1)
    } else {
        last_dot(s.drop_last())
    }
}

/// The extension of a path as `Path::extension` reads it: what follows the last `.`,
/// when that dot lies in the file name (no `/` after it) and does not begin the name.
pub open spec fn extension_of(path: Seq<char>) -> Option<Seq<char>> {
    match last_dot(path) {
        Some(i) => if i > 0 && path[i - 1] != '/' && !path.subrange(i + 1, path.len() as int).contains('/') {
            Some(path.subrange(i + 1, path.len() as int))
        } else {
            None
        },
        None => None,
    }
}

/// The language of a file, from its extension.
pub fn detect_language(path: &str) -> (r: Option<SourceLanguage>)
    ensures
        extension_of(path@) is None ==> r.is_none(),
        extension_of(path@) is Some ==> r == language_of(lower_of(extension_of(path@)->0)),
{
    let p = chars_of(path);
    let mut i: usize = p.len();
    assert(p@.subrange(0, i as int) =~= p@);
    while i > 0 && p[i - 1] != '.'
        invariant
            i <= p@.len(),
            last_dot(p@) == last_dot(p@.subrange(0, i as int)),
        decreases i,
    {
        assert(p@.subrange(0, i as int).drop_last() =~= p@.subrange(0, i - 1));
        i = i - 1;
    }
    proof {
        if i > 0 {
            assert(p@.subrange(0, i as int).last() == '.');
            assert(last_dot(p@) == Some((i - 1) as int));
        } else {
            assert(last_dot(p@.subrange(0, 0)) is None);
        }
    }
    if i <= 1 || p[i - 2] == '/' {
        return None;
    }
    let mut j: usize = i;
    while j < p.len()
        invariant
            i <= j <= p@.len(),
            i >= 2,
            p@ == path@,
            last_dot(p@) == Some((i - 1) as int),
            !p@.subrange(i as int, j as int).contains('/'),
        decreases p@.len() - j,
    {
        if p[j] == '/' {
            proof {
                let rest = p@.subrange(i as int, p@.len() as int);
                assert(rest[j - i] == '/');
                assert(rest.contains('/'));
                assert(last_dot(p@) == Some((i - 1) as int));
                assert((i - 1) as int + 1 == i as int);
                assert(extension_of(path@) is None);
            }
            return None;
        }
        j = j + 1;
        proof {
            assert forall|k: int| 0 <= k < (j - i) implies p@.subrange(i as int, j as int)[k] != '/' by {
                if k < j - 1 - i {
                    assert(p@.subrange(i as int, j as int)[k] == p@.subrange(i as int, j - 1)[k]);
                }
            }
        }
    }
    let ext = path.substring_char(i, p.len());
    get_parser(ext)
}

} // verus!
