use sloc::counter::{Sloc, Stats};
use sloc::lang::Lang;
use sloc::scanner::aggregate;

fn rec(lang: Lang, files: u64, lines: u64, comments: u64, blanks: u64) -> Sloc {
    Sloc {
        lang,
        stats: Stats { files, lines, code: lines - comments - blanks, comments, blanks },
    }
}

#[test]
fn two_files_of_one_language() {
    let records = vec![rec(Lang::Rust, 1, 10, 2, 1), rec(Lang::Rust, 1, 5, 0, 0)];
    let result = aggregate(&records);
    assert_eq!(result.len(), 2);
    let row = &result[0];
    assert_eq!(row.lang, Lang::Rust);
    assert_eq!(row.stats.files, 2);
    assert_eq!(row.stats.lines, 15);
    assert_eq!(row.stats.comments, 2);
    assert_eq!(row.stats.blanks, 1);
    assert_eq!(row.stats.code, 12);
}

#[test]
fn empty_scan_has_only_a_zero_total() {
    let result = aggregate(&Vec::new());
    assert_eq!(result.len(), 1);
    let total = &result[0];
    assert_eq!(total.lang, Lang::Total);
    assert_eq!(total.stats.files, 0);
    assert_eq!(total.stats.lines, 0);
    assert_eq!(total.stats.code, 0);
    assert_eq!(total.stats.comments, 0);
    assert_eq!(total.stats.blanks, 0);
}

#[test]
fn rows_are_sorted_by_lines_descending() {
    let records = vec![
        rec(Lang::C, 1, 5, 0, 0),
        rec(Lang::Rust, 1, 10, 0, 0),
        rec(Lang::Python, 1, 7, 0, 0),
    ];
    let result = aggregate(&records);
    assert_eq!(result.len(), 4);
    assert_eq!(result[0].lang, Lang::Rust);
    assert_eq!(result[1].lang, Lang::Python);
    assert_eq!(result[2].lang, Lang::C);
    assert_eq!(result[3].lang, Lang::Total);
}

#[test]
fn ties_follow_enumeration_order() {
    let records = vec![rec(Lang::Rust, 1, 4, 0, 0), rec(Lang::C, 1, 4, 0, 0)];
    let result = aggregate(&records);
    assert_eq!(result[0].lang, Lang::C);
    assert_eq!(result[1].lang, Lang::Rust);
}

#[test]
fn total_is_the_field_wise_sum_of_the_rows() {
    let records = vec![
        rec(Lang::Rust, 1, 10, 2, 1),
        rec(Lang::C, 2, 20, 5, 3),
        rec(Lang::Rust, 1, 6, 1, 1),
    ];
    let result = aggregate(&records);
    let rows = &result[..result.len() - 1];
    let total = result.last().unwrap();
    assert_eq!(total.lang, Lang::Total);
    assert_eq!(total.stats.files, rows.iter().map(|r| r.stats.files).sum::<u64>());
    assert_eq!(total.stats.lines, rows.iter().map(|r| r.stats.lines).sum::<u64>());
    assert_eq!(total.stats.code, rows.iter().map(|r| r.stats.code).sum::<u64>());
    assert_eq!(total.stats.comments, rows.iter().map(|r| r.stats.comments).sum::<u64>());
    assert_eq!(total.stats.blanks, rows.iter().map(|r| r.stats.blanks).sum::<u64>());
}

#[test]
fn every_row_satisfies_the_record_invariant() {
    let records = vec![
        rec(Lang::Rust, 1, 10, 2, 1),
        rec(Lang::C, 2, 20, 5, 3),
        rec(Lang::Rust, 1, 6, 1, 1),
        rec(Lang::Yaml, 1, 1, 1, 0),
    ];
    for row in aggregate(&records) {
        assert_eq!(row.stats.lines, row.stats.code + row.stats.comments + row.stats.blanks);
    }
}

#[test]
fn merge_adds_field_wise_and_rederives_code() {
    let mut a = Stats { files: 1, lines: 10, code: 7, comments: 2, blanks: 1 };
    let b = Stats { files: 1, lines: 5, code: 5, comments: 0, blanks: 0 };
    a.merge(&b);
    assert_eq!(a.files, 2);
    assert_eq!(a.lines, 15);
    assert_eq!(a.comments, 2);
    assert_eq!(a.blanks, 1);
    assert_eq!(a.code, 12);
}

#[test]
fn new_sloc_is_zeroed() {
    let s = Sloc::new(Lang::Go);
    assert_eq!(s.lang, Lang::Go);
    assert_eq!(s.stats.files, 0);
    assert_eq!(s.stats.lines, 0);
    assert_eq!(s.stats.code, 0);
    assert_eq!(s.stats.comments, 0);
    assert_eq!(s.stats.blanks, 0);
}
