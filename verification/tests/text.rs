use sloc::text::{bytes_eq, ends_with, lower_eq, starts_with, trim};

#[test]
fn trim_strips_both_ends() {
    assert_eq!(trim(b"  x  "), &b"x"[..]);
    assert_eq!(trim(b"\t\r mid dle \t"), &b"mid dle"[..]);
    assert_eq!(trim(b"nospace"), &b"nospace"[..]);
    assert_eq!(trim(b"   "), &b""[..]);
    assert_eq!(trim(b""), &b""[..]);
}

#[test]
fn prefix_and_suffix_tests() {
    assert!(starts_with(b"// comment", b"//"));
    assert!(!starts_with(b"/ comment", b"//"));
    assert!(starts_with(b"anything", b""));
    assert!(!starts_with(b"a", b"ab"));
    assert!(ends_with(b"end */", b"*/"));
    assert!(!ends_with(b"*/ end", b"*/"));
    assert!(ends_with(b"x", b""));
    assert!(!ends_with(b"b", b"ab"));
}

#[test]
fn byte_equality() {
    assert!(bytes_eq(b"abc", b"abc"));
    assert!(!bytes_eq(b"abc", b"abd"));
    assert!(!bytes_eq(b"abc", b"ab"));
    assert!(bytes_eq(b"", b""));
}

#[test]
fn case_insensitive_comparison() {
    assert!(lower_eq(b"MAKEFILE", b"makefile"));
    assert!(lower_eq(b"MakeFile", b"makefile"));
    assert!(!lower_eq(b"makefile", b"MAKEFILE"));
    assert!(!lower_eq(b"makefiles", b"makefile"));
}
