//! The language registry: every supported language, its display name, the
//! comment syntax it uses, and the table mapping file extensions to it.

use vstd::prelude::*;
use vstd::string::StringSliceAdditionalSpecFns;

verus! {

/// A language recognised by the scanner, plus the synthetic `Total` used
/// for the summary row of a scan result.
#[derive(Clone, Copy, Debug, PartialEq, Eq, Hash, Structural)]
pub enum Lang {
    Asm,
    C,
    CHeader,
    Cpp,
    CSharp,
    CppHeader,
    Css,
    D,
    FSharp,
    Go,
    Haskell,
    Html,
    Java,
    JavaScript,
    Json,
    Kotlin,
    Lua,
    Makefile,
    Markdown,
    Perl,
    PlainText,
    Python,
    Ruby,
    Rust,
    Toml,
    TypeScript,
    Xml,
    Yaml,
    Total,
}

/// The comment syntax of one language: the single-line comment prefixes,
/// and the index-aligned lists of block-comment start and end delimiters.
#[derive(Clone)]
pub struct CommentInfo {
    pub single_line: Vec<&'static str>,
    pub multi_line_start: Vec<&'static str>,
    pub multi_line_end: Vec<&'static str>,
}

/// The mathematical view of a `CommentInfo`: each delimiter as its byte
/// string.
#[verifier::ext_equal]
pub struct SyntaxModel {
    pub singles: Seq<Seq<u8>>,
    pub starts: Seq<Seq<u8>>,
    pub ends: Seq<Seq<u8>>,
}

impl SyntaxModel {
    /// Block-comment start and end delimiters are index-aligned.
    pub open spec fn wf(self) -> bool {
        self.starts.len() == self.ends.len()
    }
}

impl CommentInfo {
    pub open spec fn model(self) -> SyntaxModel {
        SyntaxModel {
            singles: self.single_line@.map_values(|s: &'static str| s.spec_bytes()),
            starts: self.multi_line_start@.map_values(|s: &'static str| s.spec_bytes()),
            ends: self.multi_line_end@.map_values(|s: &'static str| s.spec_bytes()),
        }
    }

    pub open spec fn wf(self) -> bool {
        self.model().wf()
    }
}

/// C-style comments: `//`, and `/*` ... `*/`.
pub open spec fn cpp_syntax() -> SyntaxModel {
    SyntaxModel {
        singles: seq!["//".spec_bytes()],
        starts: seq!["/*".spec_bytes()],
        ends: seq!["*/".spec_bytes()],
    }
}

/// Python-style comments: `#`, and `"""` ... `"""`.
pub open spec fn py_syntax() -> SyntaxModel {
    SyntaxModel {
        singles: seq!["#".spec_bytes()],
        starts: seq!["\"\"\"".spec_bytes()],
        ends: seq!["\"\"\"".spec_bytes()],
    }
}

/// Markup comments: `<!--` ... `-->` only.
pub open spec fn html_syntax() -> SyntaxModel {
    SyntaxModel {
        singles: Seq::empty(),
        starts: seq!["<!--".spec_bytes()],
        ends: seq!["-->".spec_bytes()],
    }
}

/// Ruby comments: `#`, and `=begin` ... `=end`.
pub open spec fn ruby_syntax() -> SyntaxModel {
    SyntaxModel {
        singles: seq!["#".spec_bytes()],
        starts: seq!["=begin".spec_bytes()],
        ends: seq!["=end".spec_bytes()],
    }
}

/// Perl comments: `#`, and `=begin` ... `=cut`.
pub open spec fn perl_syntax() -> SyntaxModel {
    SyntaxModel {
        singles: seq!["#".spec_bytes()],
        starts: seq!["=begin".spec_bytes()],
        ends: seq!["=cut".spec_bytes()],
    }
}

/// `#` single-line comments and no block syntax.
pub open spec fn hash_syntax() -> SyntaxModel {
    SyntaxModel { singles: seq!["#".spec_bytes()], starts: Seq::empty(), ends: Seq::empty() }
}

/// Haskell comments: `--`, and `{-` ... `-}`.
pub open spec fn haskell_syntax() -> SyntaxModel {
    SyntaxModel {
        singles: seq!["--".spec_bytes()],
        starts: seq!["{-".spec_bytes()],
        ends: seq!["-}".spec_bytes()],
    }
}

/// Lua comments: `--`, and `--[[` ... `--]]`.
pub open spec fn lua_syntax() -> SyntaxModel {
    SyntaxModel {
        singles: seq!["--".spec_bytes()],
        starts: seq!["--[[".spec_bytes()],
        ends: seq!["--]]".spec_bytes()],
    }
}

/// No comment syntax at all: every non-blank line is code.
pub open spec fn plain_syntax() -> SyntaxModel {
    SyntaxModel { singles: Seq::empty(), starts: Seq::empty(), ends: Seq::empty() }
}

/// F#-style comments: `//`, and `(*` ... `*)`.
pub open spec fn fsharp_syntax() -> SyntaxModel {
    SyntaxModel {
        singles: seq!["//".spec_bytes()],
        starts: seq!["(*".spec_bytes()],
        ends: seq!["*)".spec_bytes()],
    }
}

/// Assembly comments: `;`, `#`, `@` or `//`, and `/*` ... `*/`.
pub open spec fn asm_syntax() -> SyntaxModel {
    SyntaxModel {
        singles: seq![
            ";".spec_bytes(),
            "#".spec_bytes(),
            "@".spec_bytes(),
            "//".spec_bytes(),
        ],
        starts: seq!["/*".spec_bytes()],
        ends: seq!["*/".spec_bytes()],
    }
}

/// The comment syntax of each language. The synthetic `Total` has none.
pub open spec fn lang_syntax(l: Lang) -> SyntaxModel {
    match l {
        Lang::C | Lang::CHeader | Lang::CSharp | Lang::Cpp | Lang::CppHeader | Lang::Css
        | Lang::D | Lang::Go | Lang::Java | Lang::JavaScript | Lang::Kotlin | Lang::Markdown
        | Lang::Rust | Lang::Toml | Lang::TypeScript => cpp_syntax(),
        Lang::Python => py_syntax(),
        Lang::Html | Lang::Xml => html_syntax(),
        Lang::Ruby => ruby_syntax(),
        Lang::Perl => perl_syntax(),
        Lang::Yaml | Lang::Makefile => hash_syntax(),
        Lang::Haskell => haskell_syntax(),
        Lang::Lua => lua_syntax(),
        Lang::Json | Lang::PlainText | Lang::Total => plain_syntax(),
        Lang::FSharp => fsharp_syntax(),
        Lang::Asm => asm_syntax(),
    }
}

/// Builds a `CommentInfo` whose model is `cpp_syntax()`.
fn cpp_style() -> (r: CommentInfo)
    ensures
        r.model() == cpp_syntax(),
{
    let mut single_line: Vec<&'static str> = Vec::new();
    single_line.push("//");
    let mut multi_line_start: Vec<&'static str> = Vec::new();
    multi_line_start.push("/*");
    let mut multi_line_end: Vec<&'static str> = Vec::new();
    multi_line_end.push("*/");
    let r = CommentInfo { single_line, multi_line_start, multi_line_end };
    proof {
        assert(r.model() =~= cpp_syntax());
    }
    r
}

/// Builds a `CommentInfo` with the given one-entry delimiter lists.
fn one_pair_style(single: &'static str, start: &'static str, end: &'static str) -> (r: CommentInfo)
    ensures
        (r.model() == SyntaxModel {
            singles: seq![single.spec_bytes()],
            starts: seq![start.spec_bytes()],
            ends: seq![end.spec_bytes()],
        }),
{
    let mut single_line: Vec<&'static str> = Vec::new();
    single_line.push(single);
    let mut multi_line_start: Vec<&'static str> = Vec::new();
    multi_line_start.push(start);
    let mut multi_line_end: Vec<&'static str> = Vec::new();
    multi_line_end.push(end);
    let r = CommentInfo { single_line, multi_line_start, multi_line_end };
    proof {
        assert(r.model().singles =~= seq![single.spec_bytes()]);
        assert(r.model().starts =~= seq![start.spec_bytes()]);
        assert(r.model().ends =~= seq![end.spec_bytes()]);
    }
    r
}

/// Builds a `CommentInfo` whose model is `html_syntax()`.
fn html_style() -> (r: CommentInfo)
    ensures
        r.model() == html_syntax(),
{
    let single_line: Vec<&'static str> = Vec::new();
    let mut multi_line_start: Vec<&'static str> = Vec::new();
    multi_line_start.push("<!--");
    let mut multi_line_end: Vec<&'static str> = Vec::new();
    multi_line_end.push("-->");
    let r = CommentInfo { single_line, multi_line_start, multi_line_end };
    proof {
        assert(r.model() =~= html_syntax());
    }
    r
}

/// Builds a `CommentInfo` whose model is `hash_syntax()`.
fn hash_style() -> (r: CommentInfo)
    ensures
        r.model() == hash_syntax(),
{
    let mut single_line: Vec<&'static str> = Vec::new();
    single_line.push("#");
    let multi_line_start: Vec<&'static str> = Vec::new();
    let multi_line_end: Vec<&'static str> = Vec::new();
    let r = CommentInfo { single_line, multi_line_start, multi_line_end };
    proof {
        assert(r.model() =~= hash_syntax());
    }
    r
}

/// Builds a `CommentInfo` whose model is `plain_syntax()`.
fn plain_style() -> (r: CommentInfo)
    ensures
        r.model() == plain_syntax(),
{
    let single_line: Vec<&'static str> = Vec::new();
    let multi_line_start: Vec<&'static str> = Vec::new();
    let multi_line_end: Vec<&'static str> = Vec::new();
    let r = CommentInfo { single_line, multi_line_start, multi_line_end };
    proof {
        assert(r.model() =~= plain_syntax());
    }
    r
}

/// Builds a `CommentInfo` whose model is `asm_syntax()`.
fn asm_style() -> (r: CommentInfo)
    ensures
        r.model() == asm_syntax(),
{
    let mut single_line: Vec<&'static str> = Vec::new();
    single_line.push(";");
    single_line.push("#");
    single_line.push("@");
    single_line.push("//");
    let mut multi_line_start: Vec<&'static str> = Vec::new();
    multi_line_start.push("/*");
    let mut multi_line_end: Vec<&'static str> = Vec::new();
    multi_line_end.push("*/");
    let r = CommentInfo { single_line, multi_line_start, multi_line_end };
    proof {
        assert(r.model().singles =~= asm_syntax().singles);
        assert(r.model().starts =~= asm_syntax().starts);
        assert(r.model().ends =~= asm_syntax().ends);
    }
    r
}

/// The extension table as a sequence of key/value pairs: a file whose
/// extension equals a key (byte for byte, case significant) belongs to the
/// paired language. Lookup takes the first matching entry.
pub open spec fn ext_table() -> Seq<(Seq<u8>, Lang)> {
    seq![
        ("s".spec_bytes(), Lang::Asm),
        ("S".spec_bytes(), Lang::Asm),
        ("asm".spec_bytes(), Lang::Asm),
        ("C".spec_bytes(), Lang::Cpp),
        ("c".spec_bytes(), Lang::C),
        ("c++".spec_bytes(), Lang::Cpp),
        ("cc".spec_bytes(), Lang::Cpp),
        ("cpp".spec_bytes(), Lang::Cpp),
        ("cs".spec_bytes(), Lang::CSharp),
        ("css".spec_bytes(), Lang::Css),
        ("cxx".spec_bytes(), Lang::Cpp),
        ("d".spec_bytes(), Lang::D),
        ("di".spec_bytes(), Lang::D),
        ("fs".spec_bytes(), Lang::FSharp),
        ("go".spec_bytes(), Lang::Go),
        ("h".spec_bytes(), Lang::CHeader),
        ("h++".spec_bytes(), Lang::CppHeader),
        ("hh".spec_bytes(), Lang::CppHeader),
        ("hpp".spec_bytes(), Lang::CppHeader),
        ("hs".spec_bytes(), Lang::Haskell),
        ("htm".spec_bytes(), Lang::Html),
        ("html".spec_bytes(), Lang::Html),
        ("hxx".spec_bytes(), Lang::CppHeader),
        ("java".spec_bytes(), Lang::Java),
        ("js".spec_bytes(), Lang::JavaScript),
        ("json".spec_bytes(), Lang::Json),
        ("kt".spec_bytes(), Lang::Kotlin),
        ("lua".spec_bytes(), Lang::Lua),
        ("mk".spec_bytes(), Lang::Makefile),
        ("md".spec_bytes(), Lang::Markdown),
        ("pl".spec_bytes(), Lang::Perl),
        ("py".spec_bytes(), Lang::Python),
        ("py3".spec_bytes(), Lang::Python),
        ("rb".spec_bytes(), Lang::Ruby),
        ("rs".spec_bytes(), Lang::Rust),
        ("toml".spec_bytes(), Lang::Toml),
        ("ts".spec_bytes(), Lang::TypeScript),
        ("txt".spec_bytes(), Lang::PlainText),
        ("xml".spec_bytes(), Lang::Xml),
        ("yaml".spec_bytes(), Lang::Yaml),
        ("yml".spec_bytes(), Lang::Yaml),
    ]
}

/// The byte-level view of one extension-table entry.
pub open spec fn ext_entry_model(p: (&'static str, Lang)) -> (Seq<u8>, Lang) {
    (p.0.spec_bytes(), p.1)
}

impl Lang {
    /// The extension table, in declared order.
    #[verifier::rlimit(40)]
    pub fn extensions() -> (r: Vec<(&'static str, Lang)>)
        ensures
            r@.map_values(|p: (&'static str, Lang)| ext_entry_model(p)) == ext_table(),
    {
        let mut r: Vec<(&'static str, Lang)> = Vec::new();
        r.push(("s", Lang::Asm));
        r.push(("S", Lang::Asm));
        r.push(("asm", Lang::Asm));
        r.push(("C", Lang::Cpp));
        r.push(("c", Lang::C));
        r.push(("c++", Lang::Cpp));
        r.push(("cc", Lang::Cpp));
        r.push(("cpp", Lang::Cpp));
        r.push(("cs", Lang::CSharp));
        r.push(("css", Lang::Css));
        r.push(("cxx", Lang::Cpp));
        r.push(("d", Lang::D));
        r.push(("di", Lang::D));
        r.push(("fs", Lang::FSharp));
        r.push(("go", Lang::Go));
        r.push(("h", Lang::CHeader));
        r.push(("h++", Lang::CppHeader));
        r.push(("hh", Lang::CppHeader));
        r.push(("hpp", Lang::CppHeader));
        r.push(("hs", Lang::Haskell));
        r.push(("htm", Lang::Html));
        r.push(("html", Lang::Html));
        r.push(("hxx", Lang::CppHeader));
        r.push(("java", Lang::Java));
        r.push(("js", Lang::JavaScript));
        r.push(("json", Lang::Json));
        r.push(("kt", Lang::Kotlin));
        r.push(("lua", Lang::Lua));
        r.push(("mk", Lang::Makefile));
        r.push(("md", Lang::Markdown));
        r.push(("pl", Lang::Perl));
        r.push(("py", Lang::Python));
        r.push(("py3", Lang::Python));
        r.push(("rb", Lang::Ruby));
        r.push(("rs", Lang::Rust));
        r.push(("toml", Lang::Toml));
        r.push(("ts", Lang::TypeScript));
        r.push(("txt", Lang::PlainText));
        r.push(("xml", Lang::Xml));
        r.push(("yaml", Lang::Yaml));
        r.push(("yml", Lang::Yaml));
        proof {
            assert(r@.map_values(|p: (&'static str, Lang)| ext_entry_model(p)) =~= ext_table());
        }
        r
    }

    /// The display name of this language, as shown in the report table.
    pub fn name(&self) -> (r: &'static str)
        ensures
            r@ == self.spec_name(),
    {
        match *self {
            Lang::Asm => "Assembly",
            Lang::C => "C",
            Lang::CHeader => "C Header",
            Lang::CSharp => "C#",
            Lang::Cpp => "C++",
            Lang::CppHeader => "C++ Header",
            Lang::Css => "CSS",
            Lang::D => "D",
            Lang::FSharp => "F#",
            Lang::Go => "Go",
            Lang::Haskell => "Haskell",
            Lang::Html => "HTML",
            Lang::Java => "Java",
            Lang::JavaScript => "JavaScript",
            Lang::Json => "JSON",
            Lang::Kotlin => "Kotlin",
            Lang::Lua => "Lua",
            Lang::Makefile => "Makefile",
            Lang::Markdown => "Markdown",
            Lang::Perl => "Perl",
            Lang::PlainText => "Plain Text",
            Lang::Python => "Python",
            Lang::Ruby => "Ruby",
            Lang::Rust => "Rust",
            Lang::Toml => "TOML",
            Lang::TypeScript => "TypeScript",
            Lang::Xml => "XML",
            Lang::Yaml => "YAML",
            Lang::Total => "TOTAL",
        }
    }

    /// The display name of this language as a character sequence.
    pub open spec fn spec_name(self) -> Seq<char> {
        match self {
            Lang::Asm => "Assembly"@,
            Lang::C => "C"@,
            Lang::CHeader => "C Header"@,
            Lang::CSharp => "C#"@,
            Lang::Cpp => "C++"@,
            Lang::CppHeader => "C++ Header"@,
            Lang::Css => "CSS"@,
            Lang::D => "D"@,
            Lang::FSharp => "F#"@,
            Lang::Go => "Go"@,
            Lang::Haskell => "Haskell"@,
            Lang::Html => "HTML"@,
            Lang::Java => "Java"@,
            Lang::JavaScript => "JavaScript"@,
            Lang::Json => "JSON"@,
            Lang::Kotlin => "Kotlin"@,
            Lang::Lua => "Lua"@,
            Lang::Makefile => "Makefile"@,
            Lang::Markdown => "Markdown"@,
            Lang::Perl => "Perl"@,
            Lang::PlainText => "Plain Text"@,
            Lang::Python => "Python"@,
            Lang::Ruby => "Ruby"@,
            Lang::Rust => "Rust"@,
            Lang::Toml => "TOML"@,
            Lang::TypeScript => "TypeScript"@,
            Lang::Xml => "XML"@,
            Lang::Yaml => "YAML"@,
            Lang::Total => "TOTAL"@,
        }
    }

    /// The position of this language in the declared enumeration, used to
    /// break ties when scan results are ordered.
    pub open spec fn rank(self) -> int {
        match self {
            Lang::Asm => 0,
            Lang::C => 1,
            Lang::CHeader => 2,
            Lang::Cpp => 3,
            Lang::CSharp => 4,
            Lang::CppHeader => 5,
            Lang::Css => 6,
            Lang::D => 7,
            Lang::FSharp => 8,
            Lang::Go => 9,
            Lang::Haskell => 10,
            Lang::Html => 11,
            Lang::Java => 12,
            Lang::JavaScript => 13,
            Lang::Json => 14,
            Lang::Kotlin => 15,
            Lang::Lua => 16,
            Lang::Makefile => 17,
            Lang::Markdown => 18,
            Lang::Perl => 19,
            Lang::PlainText => 20,
            Lang::Python => 21,
            Lang::Ruby => 22,
            Lang::Rust => 23,
            Lang::Toml => 24,
            Lang::TypeScript => 25,
            Lang::Xml => 26,
            Lang::Yaml => 27,
            Lang::Total => 28,
        }
    }

    /// The exact position of this language in the declared enumeration,
    /// computed at run time; agrees with `rank`.
    pub fn rank_exec(&self) -> (r: usize)
        ensures
            r == self.rank(),
    {
        match *self {
            Lang::Asm => 0,
            Lang::C => 1,
            Lang::CHeader => 2,
            Lang::Cpp => 3,
            Lang::CSharp => 4,
            Lang::CppHeader => 5,
            Lang::Css => 6,
            Lang::D => 7,
            Lang::FSharp => 8,
            Lang::Go => 9,
            Lang::Haskell => 10,
            Lang::Html => 11,
            Lang::Java => 12,
            Lang::JavaScript => 13,
            Lang::Json => 14,
            Lang::Kotlin => 15,
            Lang::Lua => 16,
            Lang::Makefile => 17,
            Lang::Markdown => 18,
            Lang::Perl => 19,
            Lang::PlainText => 20,
            Lang::Python => 21,
            Lang::Ruby => 22,
            Lang::Rust => 23,
            Lang::Toml => 24,
            Lang::TypeScript => 25,
            Lang::Xml => 26,
            Lang::Yaml => 27,
            Lang::Total => 28,
        }
    }

    /// The comment syntax used when classifying lines of this language.
    pub fn comment_info(&self) -> (r: CommentInfo)
        ensures
            r.model() == lang_syntax(*self),
            r.wf(),
    {
        match *self {
            Lang::C | Lang::CHeader | Lang::CSharp | Lang::Cpp | Lang::CppHeader | Lang::Css
            | Lang::D | Lang::Go | Lang::Java | Lang::JavaScript | Lang::Kotlin
            | Lang::Markdown | Lang::Rust | Lang::Toml | Lang::TypeScript => cpp_style(),
            Lang::Python => one_pair_style("#", "\"\"\"", "\"\"\""),
            Lang::Html | Lang::Xml => html_style(),
            Lang::Ruby => one_pair_style("#", "=begin", "=end"),
            Lang::Perl => one_pair_style("#", "=begin", "=cut"),
            Lang::Yaml | Lang::Makefile => hash_style(),
            Lang::Haskell => one_pair_style("--", "{-", "-}"),
            Lang::Lua => one_pair_style("--", "--[[", "--]]"),
            Lang::Json | Lang::PlainText | Lang::Total => plain_style(),
            Lang::FSharp => one_pair_style("//", "(*", "*)"),
            Lang::Asm => asm_style(),
        }
    }
}

} // verus!
