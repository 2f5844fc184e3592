use sloc::lang::Lang;
use sloc::scanner::Scanner;

#[test]
fn resolves_known_extensions() {
    let scanner = Scanner::new();
    assert_eq!(scanner.resolve(b"main.rs"), Some(Lang::Rust));
    assert_eq!(scanner.resolve(b"lib.c"), Some(Lang::C));
    assert_eq!(scanner.resolve(b"script.py3"), Some(Lang::Python));
    assert_eq!(scanner.resolve(b"index.html"), Some(Lang::Html));
    assert_eq!(scanner.resolve(b"build.mk"), Some(Lang::Makefile));
}

#[test]
fn extension_is_taken_after_the_last_dot() {
    let scanner = Scanner::new();
    assert_eq!(scanner.resolve(b"archive.tar.gz"), None);
    assert_eq!(scanner.resolve(b"module.test.js"), Some(Lang::JavaScript));
}

#[test]
fn extension_case_is_significant() {
    let scanner = Scanner::new();
    assert_eq!(scanner.resolve(b"lib.C"), Some(Lang::Cpp));
    assert_eq!(scanner.resolve(b"lib.c"), Some(Lang::C));
    assert_eq!(scanner.resolve(b"boot.S"), Some(Lang::Asm));
}

#[test]
fn hidden_file_has_no_extension() {
    let scanner = Scanner::new();
    assert_eq!(scanner.resolve(b".gitignore"), None);
    assert_eq!(scanner.resolve(b".hidden.rs"), Some(Lang::Rust));
}

#[test]
fn unrecognized_extension_is_excluded() {
    let scanner = Scanner::new();
    assert_eq!(scanner.resolve(b"data.zzz"), None);
    assert_eq!(scanner.resolve(b"noextension"), None);
}

#[test]
fn makefile_is_matched_by_name() {
    let scanner = Scanner::new();
    assert_eq!(scanner.resolve(b"Makefile"), Some(Lang::Makefile));
    assert_eq!(scanner.resolve(b"makefile"), Some(Lang::Makefile));
    assert_eq!(scanner.resolve(b"MAKEFILE"), Some(Lang::Makefile));
    assert_eq!(scanner.resolve(b"Makefile.old"), None);
}

#[test]
fn resolve_by_extension_alone() {
    let scanner = Scanner::new();
    assert_eq!(scanner.resolve_by_extension(b"rs"), Some(Lang::Rust));
    assert_eq!(scanner.resolve_by_extension(b"toml"), Some(Lang::Toml));
    assert_eq!(scanner.resolve_by_extension(b"nope"), None);
}

#[test]
fn resolve_by_filename_alone() {
    let scanner = Scanner::new();
    assert_eq!(scanner.resolve_by_filename(b"makefile"), Some(Lang::Makefile));
    assert_eq!(scanner.resolve_by_filename(b"main.rs"), None);
}

#[test]
fn extension_table_is_complete() {
    let table = Lang::extensions();
    assert_eq!(table.len(), 41);
    assert!(table.iter().any(|p| p.0 == "rs" && p.1 == Lang::Rust));
    assert!(table.iter().any(|p| p.0 == "yml" && p.1 == Lang::Yaml));
}

#[test]
fn comment_info_tables() {
    let rust = Lang::Rust.comment_info();
    assert_eq!(rust.single_line, vec!["//"]);
    assert_eq!(rust.multi_line_start, vec!["/*"]);
    assert_eq!(rust.multi_line_end, vec!["*/"]);

    let html = Lang::Html.comment_info();
    assert!(html.single_line.is_empty());
    assert_eq!(html.multi_line_start, vec!["<!--"]);
    assert_eq!(html.multi_line_end, vec!["-->"]);

    let yaml = Lang::Yaml.comment_info();
    assert_eq!(yaml.single_line, vec!["#"]);
    assert!(yaml.multi_line_start.is_empty());

    let perl = Lang::Perl.comment_info();
    assert_eq!(perl.multi_line_start, vec!["=begin"]);
    assert_eq!(perl.multi_line_end, vec!["=cut"]);

    let json = Lang::Json.comment_info();
    assert!(json.single_line.is_empty());
    assert!(json.multi_line_start.is_empty());
}

#[test]
fn display_names() {
    assert_eq!(Lang::Cpp.name(), "C++");
    assert_eq!(Lang::CSharp.name(), "C#");
    assert_eq!(Lang::PlainText.name(), "Plain Text");
    assert_eq!(Lang::Total.name(), "TOTAL");
}
