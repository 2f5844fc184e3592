use sloc::counter::{Sloc, Stats};
use sloc::lang::Lang;
use sloc::scanner::{column_widths, to_sloc_strs};
use sloc::text::u64_string;

#[test]
fn decimal_rendering() {
    assert_eq!(u64_string(0), "0");
    assert_eq!(u64_string(7), "7");
    assert_eq!(u64_string(42), "42");
    assert_eq!(u64_string(1234567890), "1234567890");
    assert_eq!(u64_string(u64::MAX), "18446744073709551615");
}

#[test]
fn rows_are_rendered_in_decimal() {
    let slocs = vec![Sloc {
        lang: Lang::Rust,
        stats: Stats { files: 3, lines: 120, code: 90, comments: 20, blanks: 10 },
    }];
    let rows = to_sloc_strs(&slocs);
    assert_eq!(rows.len(), 1);
    assert_eq!(rows[0].lang, "Rust");
    assert_eq!(rows[0].files, "3");
    assert_eq!(rows[0].lines, "120");
    assert_eq!(rows[0].code, "90");
    assert_eq!(rows[0].comments, "20");
    assert_eq!(rows[0].blanks, "10");
}

#[test]
fn column_widths_have_a_floor_of_eleven() {
    let rows = to_sloc_strs(&Vec::new());
    let w = column_widths(&rows);
    assert_eq!(w.lang, 11);
    assert_eq!(w.files, 11);
    assert_eq!(w.lines, 11);
    assert_eq!(w.code, 11);
    assert_eq!(w.comments, 11);
    assert_eq!(w.blanks, 11);
}

#[test]
fn column_widths_grow_with_long_values() {
    let slocs = vec![Sloc {
        lang: Lang::JavaScript,
        stats: Stats {
            files: 1,
            lines: 123456789012,
            code: 123456789012,
            comments: 0,
            blanks: 0,
        },
    }];
    let rows = to_sloc_strs(&slocs);
    let w = column_widths(&rows);
    assert_eq!(w.lang, 11);
    assert_eq!(w.lines, 13);
    assert_eq!(w.code, 13);
    assert_eq!(w.files, 11);
}
