//! Path resolution and aggregation: maps a file name to its language,
//! merges per-file records by language, orders the result and appends the
//! grand total.

use vstd::prelude::*;
use vstd::string::StringSliceAdditionalSpecFns;

use crate::counter::{Sloc, SlocStr, Stats, StatsModel};
use crate::lang::{ext_entry_model, ext_table, Lang};
use crate::text::{bytes_eq, dec_chars, lower_byte, lower_eq, u64_string};

verus! {

/// First-match lookup in an extension table: the language paired with the
/// first key equal to `key`, if any.
pub open spec fn lookup_ext(table: Seq<(Seq<u8>, Lang)>, key: Seq<u8>) -> Option<Lang>
    decreases table.len(),
{
    if table.len() == 0 {
        None
    } else if table[0].0 == key {
        Some(table[0].1)
    } else {
        lookup_ext(table.skip(1), key)
    }
}

/// Whether `name`, lower-cased byte for byte, reads `makefile`.
pub open spec fn is_makefile_name(name: Seq<u8>) -> bool {
    name.map_values(|b: u8| lower_byte(b)) == "makefile".spec_bytes()
}

/// The extension of a file name: the bytes after the last dot, unless the
/// only dot is the leading byte (a hidden file) or there is none.
pub open spec fn ext_of(name: Seq<u8>) -> Option<Seq<u8>> {
    match name.index_of_last(46u8) {
        Some(i) => if i > 0 {
            Some(name.skip(i + 1))
        } else {
            None
        },
        None => None,
    }
}

/// The language a file name resolves to: by extension first, then by the
/// case-insensitive `makefile` convention; `None` means the file takes no
/// part in a scan.
pub open spec fn resolve_spec(name: Seq<u8>) -> Option<Lang> {
    let by_ext = match ext_of(name) {
        Some(e) => lookup_ext(ext_table(), e),
        None => None,
    };
    match by_ext {
        Some(l) => Some(l),
        None => if is_makefile_name(name) {
            Some(Lang::Makefile)
        } else {
            None
        },
    }
}

/// A successful lookup returns a language that stands in the table.
proof fn lemma_lookup_in_table(table: Seq<(Seq<u8>, Lang)>, key: Seq<u8>)
    ensures
        match lookup_ext(table, key) {
            Some(l) => exists|i: int| 0 <= i < table.len() && (#[trigger] table[i]).1 == l,
            None => true,
        },
    decreases table.len(),
{
    if table.len() > 0 && table[0].0 != key {
        lemma_lookup_in_table(table.skip(1), key);
        match lookup_ext(table.skip(1), key) {
            Some(l) => {
                let i = choose|i: int| 0 <= i < table.skip(1).len() && table.skip(1)[i].1 == l;
                assert(table[i + 1].1 == l);
            },
            None => {
            },
        }
    }
}

/// No extension maps to the synthetic `Total`.
proof fn lemma_ext_table_langs()
    ensures
        forall|i: int|
            0 <= i < ext_table().len() ==> (#[trigger] ext_table()[i]).1 != Lang::Total,
{
}

/// The language registry: the extension table, built once per run and
/// read-only afterwards. Comment syntax is served by `Lang::comment_info`.
pub struct Scanner {
    pub extensions: Vec<(&'static str, Lang)>,
}

impl Scanner {
    /// The held table is exactly the declared extension table.
    pub open spec fn wf(self) -> bool {
        self.extensions@.map_values(|p: (&'static str, Lang)| ext_entry_model(p)) == ext_table()
    }

    /// A registry holding the full extension table.
    pub fn new() -> (r: Scanner)
        ensures
            r.wf(),
    {
        Scanner { extensions: Lang::extensions() }
    }

    /// Looks `ext` up in the extension table.
    pub fn resolve_by_extension(&self, ext: &[u8]) -> (r: Option<Lang>)
        requires
            self.wf(),
        ensures
            r == lookup_ext(ext_table(), ext@),
    {
        let ghost table = ext_table();
        let n: usize = self.extensions.len();
        proof {
            assert(table.len() == n);
            assert(table.skip(0) =~= table);
        }
        let mut i: usize = 0;
        while i < n
            invariant
                0 <= i <= n,
                self.wf(),
                n == self.extensions@.len(),
                table == ext_table(),
                lookup_ext(table, ext@) == lookup_ext(table.skip(i as int), ext@),
            decreases n - i,
        {
            let entry: (&'static str, Lang) = self.extensions[i];
            proof {
                assert(table[i as int] == ext_entry_model(self.extensions@[i as int]));
                assert(table.skip(i as int)[0] == table[i as int]);
            }
            if bytes_eq(entry.0.as_bytes(), ext) {
                return Some(entry.1);
            }
            proof {
                assert(table.skip(i as int).skip(1) =~= table.skip(i as int + 1));
            }
            i = i + 1;
        }
        proof {
            assert(table.skip(n as int).len() == 0);
        }
        None
    }

    /// Resolves a bare file name: only the `makefile` convention, matched
    /// case-insensitively.
    pub fn resolve_by_filename(&self, name: &[u8]) -> (r: Option<Lang>)
        ensures
            r == if is_makefile_name(name@) {
                Some(Lang::Makefile)
            } else {
                None::<Lang>
            },
    {
        let mk: &'static str = "makefile";
        if lower_eq(name, mk.as_bytes()) {
            Some(Lang::Makefile)
        } else {
            None
        }
    }

    /// The extension of `name`, if it has one.
    fn extension<'a>(&self, name: &'a [u8]) -> (r: Option<&'a [u8]>)
        ensures
            match r {
                Some(e) => ext_of(name@) == Some(e@),
                None => ext_of(name@) is None,
            },
    {
        let n: usize = name.len();
        let mut i: usize = n;
        while i > 0
            invariant
                0 <= i <= n,
                n == name@.len(),
                forall|j: int| i <= j < n ==> name@[j] != 46,
            decreases i,
        {
            if name[i - 1] == 46 {
                let d: usize = i - 1;
                proof {
                    name@.index_of_last_ensures(46u8);
                    match name@.index_of_last(46u8) {
                        Some(x) => {
                            if x < d {
                                assert(name@[d as int] == 46);
                            } else if x > d {
                                assert(name@[x] != 46);
                            }
                            assert(x == d);
                        },
                        None => {
                            assert(!name@.contains(46u8));
                            assert(name@[d as int] == 46);
                            assert(false);
                        },
                    }
                }
                if d == 0 {
                    return None;
                }
                let e: &'a [u8] = &name[d + 1..n];
                proof {
                    assert(e@ =~= name@.skip(d + 1));
                }
                return Some(e);
            }
            i = i - 1;
        }
        proof {
            name@.index_of_last_ensures(46u8);
            match name@.index_of_last(46u8) {
                Some(x) => {
                    assert(name@[x] != 46);
                    assert(false);
                },
                None => {
                },
            }
        }
        None
    }

    /// Resolves a file name to its language: by extension, falling back to
    /// the bare-name convention; `None` excludes the file from the scan.
    pub fn resolve(&self, name: &[u8]) -> (r: Option<Lang>)
        requires
            self.wf(),
        ensures
            r == resolve_spec(name@),
            r != Some(Lang::Total),
    {
        proof {
            lemma_ext_table_langs();
            match ext_of(name@) {
                Some(e) => {
                    lemma_lookup_in_table(ext_table(), e);
                },
                None => {
                },
            }
        }
        let by_ext = match self.extension(name) {
            Some(e) => self.resolve_by_extension(e),
            None => None,
        };
        match by_ext {
            Some(l) => Some(l),
            None => self.resolve_by_filename(name),
        }
    }
}

/// The field-wise sum of the stats of all records.
pub open spec fn sum_stats(s: Seq<Sloc>) -> StatsModel
    decreases s.len(),
{
    if s.len() == 0 {
        StatsModel::zero()
    } else {
        sum_stats(s.drop_last()).plus(s.last().stats.model())
    }
}

/// The field-wise sum of the stats of the records of language `l`.
pub open spec fn lang_sum(s: Seq<Sloc>, l: Lang) -> StatsModel
    decreases s.len(),
{
    if s.len() == 0 {
        StatsModel::zero()
    } else {
        lang_sum(s.drop_last(), l).plus(
            if s.last().lang == l {
                s.last().stats.model()
            } else {
                StatsModel::zero()
            },
        )
    }
}

/// Whether some record of language `l` occurs in `s`.
pub open spec fn has_lang(s: Seq<Sloc>, l: Lang) -> bool {
    exists|i: int| 0 <= i < s.len() && s[i].lang == l
}

/// The order of the final report: more lines first, ties broken by the
/// enumeration order of the language.
pub open spec fn sloc_le(a: Sloc, b: Sloc) -> bool {
    a.stats.lines > b.stats.lines || (a.stats.lines == b.stats.lines && a.lang.rank()
        <= b.lang.rank())
}

/// Sums have non-negative fields, and when every record satisfies the
/// record invariant the sum does too.
pub proof fn lemma_sum_stats_wf(s: Seq<Sloc>)
    ensures
        sum_stats(s).files >= 0,
        sum_stats(s).lines >= 0,
        sum_stats(s).code >= 0,
        sum_stats(s).comments >= 0,
        sum_stats(s).blanks >= 0,
        (forall|i: int| 0 <= i < s.len() ==> (#[trigger] s[i]).stats.wf()) ==> sum_stats(s).lines
            == sum_stats(s).code + sum_stats(s).comments + sum_stats(s).blanks,
    decreases s.len(),
{
    if s.len() > 0 {
        lemma_sum_stats_wf(s.drop_last());
        assert(s.drop_last().len() == s.len() - 1);
        assert(forall|i: int| 0 <= i < s.drop_last().len() ==> s.drop_last()[i] == s[i]);
        assert(s.last() == s[s.len() - 1]);
    }
}

/// A per-language sum never exceeds the full sum in any field, and is
/// itself non-negative.
pub proof fn lemma_lang_sum_le(s: Seq<Sloc>, l: Lang)
    ensures
        0 <= lang_sum(s, l).files <= sum_stats(s).files,
        0 <= lang_sum(s, l).lines <= sum_stats(s).lines,
        0 <= lang_sum(s, l).code <= sum_stats(s).code,
        0 <= lang_sum(s, l).comments <= sum_stats(s).comments,
        0 <= lang_sum(s, l).blanks <= sum_stats(s).blanks,
    decreases s.len(),
{
    if s.len() > 0 {
        lemma_lang_sum_le(s.drop_last(), l);
    }
}

/// A prefix of a record sequence sums to no more than the whole, field by
/// field.
pub proof fn lemma_sum_stats_prefix(s: Seq<Sloc>, k: int)
    requires
        0 <= k <= s.len(),
    ensures
        sum_stats(s.take(k)).files <= sum_stats(s).files,
        sum_stats(s.take(k)).lines <= sum_stats(s).lines,
        sum_stats(s.take(k)).code <= sum_stats(s).code,
        sum_stats(s.take(k)).comments <= sum_stats(s).comments,
        sum_stats(s.take(k)).blanks <= sum_stats(s).blanks,
    decreases s.len(),
{
    if k == s.len() {
        assert(s.take(k) =~= s);
    } else {
        assert(s.len() > 0);
        assert(s.drop_last().take(k) =~= s.take(k));
        lemma_sum_stats_prefix(s.drop_last(), k);
        assert(s.last().stats.model().files >= 0);
    }
}

/// The sum over the records of a sequence of languages, each counted by
/// `lang_sum`.
pub open spec fn sum_lang_sums(ls: Seq<Lang>, s: Seq<Sloc>) -> StatsModel
    decreases ls.len(),
{
    if ls.len() == 0 {
        StatsModel::zero()
    } else {
        lang_sum(s, ls[0]).plus(sum_lang_sums(ls.skip(1), s))
    }
}

proof fn lemma_sum_lang_sums_empty(ls: Seq<Lang>)
    ensures
        sum_lang_sums(ls, Seq::empty()) == StatsModel::zero(),
    decreases ls.len(),
{
    if ls.len() > 0 {
        lemma_sum_lang_sums_empty(ls.skip(1));
        assert(sum_lang_sums(ls, Seq::empty()) =~= StatsModel::zero());
    }
}

/// Appending a record whose language is not among `ls` leaves the summed
/// per-language totals unchanged.
proof fn lemma_sum_lang_sums_absent(ls: Seq<Lang>, s: Seq<Sloc>)
    requires
        s.len() > 0,
        !ls.contains(s.last().lang),
    ensures
        sum_lang_sums(ls, s) == sum_lang_sums(ls, s.drop_last()),
    decreases ls.len(),
{
    if ls.len() > 0 {
        assert(ls[0] != s.last().lang);
        assert forall|k: int| 0 <= k < ls.skip(1).len() implies ls.skip(1)[k] != s.last().lang by {
            assert(ls.skip(1)[k] == ls[k + 1]);
            if ls.skip(1)[k] == s.last().lang {
                assert(ls.contains(s.last().lang));
            }
        }
        assert(!ls.skip(1).contains(s.last().lang)) by {
            if ls.skip(1).contains(s.last().lang) {
                let k = choose|k: int|
                    0 <= k < ls.skip(1).len() && ls.skip(1)[k] == s.last().lang;
                assert(ls.skip(1)[k] != s.last().lang);
            }
        }
        lemma_sum_lang_sums_absent(ls.skip(1), s);
        assert(sum_lang_sums(ls, s) =~= sum_lang_sums(ls, s.drop_last()));
    }
}

/// Appending one record adds its stats to the summed per-language totals,
/// provided its language occurs exactly once in `ls`.
proof fn lemma_sum_lang_sums_step(ls: Seq<Lang>, s: Seq<Sloc>)
    requires
        s.len() > 0,
        ls.contains(s.last().lang),
        forall|a: int, b: int| 0 <= a < b < ls.len() ==> ls[a] != ls[b],
    ensures
        sum_lang_sums(ls, s) == sum_lang_sums(ls, s.drop_last()).plus(s.last().stats.model()),
    decreases ls.len(),
{
    let r = s.last();
    let p = s.drop_last();
    if ls[0] == r.lang {
        assert(lang_sum(s, ls[0]) == lang_sum(p, ls[0]).plus(r.stats.model()));
        assert(!ls.skip(1).contains(r.lang)) by {
            if ls.skip(1).contains(r.lang) {
                let k = choose|k: int| 0 <= k < ls.skip(1).len() && ls.skip(1)[k] == r.lang;
                assert(ls[k + 1] == r.lang);
                assert(ls[0] == ls[k + 1]);
            }
        }
        lemma_sum_lang_sums_absent(ls.skip(1), s);
        assert(sum_lang_sums(ls, s) =~= sum_lang_sums(ls, p).plus(r.stats.model()));
    } else {
        assert(ls.skip(1).contains(r.lang)) by {
            let k = choose|k: int| 0 <= k < ls.len() && ls[k] == r.lang;
            assert(k > 0);
            assert(ls.skip(1)[k - 1] == ls[k]);
        }
        assert(forall|a: int, b: int|
            0 <= a < b < ls.skip(1).len() ==> ls.skip(1)[a] != ls.skip(1)[b]) by {
            assert forall|a: int, b: int|
                0 <= a < b < ls.skip(1).len() implies ls.skip(1)[a] != ls.skip(1)[b] by {
                assert(ls.skip(1)[a] == ls[a + 1]);
                assert(ls.skip(1)[b] == ls[b + 1]);
            }
        }
        lemma_sum_lang_sums_step(ls.skip(1), s);
        assert(lang_sum(s, ls[0]) == lang_sum(p, ls[0]));
        assert(sum_lang_sums(ls, s) =~= sum_lang_sums(ls, p).plus(r.stats.model()));
    }
}

/// A family of distinct languages covering every language in `s` accounts
/// for the whole sum.
proof fn lemma_sum_lang_sums_covers(ls: Seq<Lang>, s: Seq<Sloc>)
    requires
        forall|a: int, b: int| 0 <= a < b < ls.len() ==> ls[a] != ls[b],
        forall|l: Lang| has_lang(s, l) ==> ls.contains(l),
    ensures
        sum_lang_sums(ls, s) == sum_stats(s),
    decreases s.len(),
{
    if s.len() == 0 {
        assert(s =~= Seq::<Sloc>::empty());
        lemma_sum_lang_sums_empty(ls);
        assert(sum_stats(s) == StatsModel::zero());
    } else {
        let p = s.drop_last();
        let r = s.last();
        assert forall|l: Lang| has_lang(p, l) implies ls.contains(l) by {
            let i = choose|i: int| 0 <= i < p.len() && p[i].lang == l;
            assert(s[i] == p[i]);
            assert(has_lang(s, l));
        }
        lemma_sum_lang_sums_covers(ls, p);
        assert(has_lang(s, r.lang)) by {
            assert(s[s.len() - 1].lang == r.lang);
        }
        lemma_sum_lang_sums_step(ls, s);
        assert(sum_stats(s) == sum_stats(p).plus(r.stats.model()));
        assert(sum_lang_sums(ls, s) =~= sum_stats(s));
    }
}

/// `sum_stats` can also be unfolded at the front.
proof fn lemma_sum_stats_front(s: Seq<Sloc>)
    requires
        s.len() > 0,
    ensures
        sum_stats(s) == s[0].stats.model().plus(sum_stats(s.skip(1))),
    decreases s.len(),
{
    if s.len() == 1 {
        assert(s.drop_last().len() == 0);
        assert(s.skip(1).len() == 0);
        assert(sum_stats(s.drop_last()) == StatsModel::zero());
        assert(sum_stats(s.skip(1)) == StatsModel::zero());
        assert(sum_stats(s) == StatsModel::zero().plus(s.last().stats.model()));
        assert(s.last() == s[0]);
        assert(sum_stats(s) =~= s[0].stats.model().plus(sum_stats(s.skip(1))));
    } else {
        lemma_sum_stats_front(s.drop_last());
        let mid = sum_stats(s.drop_last().skip(1));
        let a = s[0].stats.model();
        let l = s.last().stats.model();
        assert(s.drop_last()[0] == s[0]);
        assert(sum_stats(s.drop_last()) == a.plus(mid));
        assert(sum_stats(s) == a.plus(mid).plus(l));
        assert(s.skip(1).drop_last() =~= s.drop_last().skip(1));
        assert(s.skip(1).last() == s.last());
        assert(s.skip(1).len() > 0);
        assert(sum_stats(s.skip(1)) == sum_stats(s.skip(1).drop_last()).plus(
            s.skip(1).last().stats.model(),
        ));
        assert(sum_stats(s.skip(1)) == mid.plus(l));
        assert(a.plus(mid).plus(l) =~= a.plus(mid.plus(l)));
    }
}

/// The languages of a sequence of records, in order.
pub open spec fn langs_of(rows: Seq<Sloc>) -> Seq<Lang> {
    rows.map_values(|r: Sloc| r.lang)
}

/// Rows whose stats are exactly the per-language sums add up to the
/// summed per-language totals of their languages.
proof fn lemma_rows_sum(records: Seq<Sloc>, rows: Seq<Sloc>)
    requires
        forall|a: int|
            0 <= a < rows.len() ==> (#[trigger] rows[a]).stats.model() == lang_sum(
                records,
                rows[a].lang,
            ),
    ensures
        sum_stats(rows) == sum_lang_sums(langs_of(rows), records),
    decreases rows.len(),
{
    if rows.len() == 0 {
        assert(langs_of(rows).len() == 0);
    } else {
        assert forall|a: int|
            0 <= a < rows.skip(1).len() implies (#[trigger] rows.skip(1)[a]).stats.model()
            == lang_sum(records, rows.skip(1)[a].lang) by {
            assert(rows.skip(1)[a] == rows[a + 1]);
        }
        lemma_rows_sum(records, rows.skip(1));
        lemma_sum_stats_front(rows);
        assert(langs_of(rows)[0] == rows[0].lang);
        assert(langs_of(rows).skip(1) =~= langs_of(rows.skip(1)));
        assert(sum_stats(rows) =~= sum_lang_sums(langs_of(rows), records));
    }
}

/// The record invariant is additive: when every record satisfies it, the
/// per-language sums split their line totals into code, comments and
/// blanks in the same way.
pub proof fn lemma_lang_sum_wf(s: Seq<Sloc>, l: Lang)
    requires
        forall|i: int| 0 <= i < s.len() ==> (#[trigger] s[i]).stats.wf(),
    ensures
        lang_sum(s, l).lines == lang_sum(s, l).code + lang_sum(s, l).comments + lang_sum(
            s,
            l,
        ).blanks,
    decreases s.len(),
{
    if s.len() > 0 {
        assert(forall|i: int| 0 <= i < s.drop_last().len() ==> s.drop_last()[i] == s[i]);
        lemma_lang_sum_wf(s.drop_last(), l);
        assert(s.last() == s[s.len() - 1]);
    }
}

/// A language that occurs nowhere in `s` sums to zero.
pub proof fn lemma_lang_sum_absent(s: Seq<Sloc>, l: Lang)
    requires
        !has_lang(s, l),
    ensures
        lang_sum(s, l) == StatsModel::zero(),
    decreases s.len(),
{
    if s.len() > 0 {
        assert(!has_lang(s.drop_last(), l)) by {
            if has_lang(s.drop_last(), l) {
                let i = choose|i: int| 0 <= i < s.drop_last().len() && s.drop_last()[i].lang == l;
                assert(s[i].lang == l);
            }
        }
        lemma_lang_sum_absent(s.drop_last(), l);
        assert(s.last().lang != l) by {
            if s.last().lang == l {
                assert(s[s.len() - 1].lang == l);
            }
        }
        assert(lang_sum(s, l) =~= StatsModel::zero());
    }
}

/// Compares two records in report order.
fn sloc_before(a: &Sloc, b: &Sloc) -> (r: bool)
    ensures
        r == sloc_le(*a, *b),
{
    a.stats.lines > b.stats.lines || (a.stats.lines == b.stats.lines && a.lang.rank_exec()
        <= b.lang.rank_exec())
}

/// Sorts records into report order by selection sort. The elements are
/// rearranged but otherwise untouched: the length is kept, every value
/// present before is present after and vice versa, and records of
/// pairwise-distinct languages stay pairwise distinct.
fn sort_slocs(v: &mut Vec<Sloc>)
    requires
        forall|a: int, b: int| 0 <= a < b < old(v)@.len() ==> old(v)@[a].lang != old(v)@[b].lang,
    ensures
        final(v)@.len() == old(v)@.len(),
        forall|a: int, b: int| 0 <= a < b < final(v)@.len() ==> sloc_le(final(v)@[a], final(v)@[b]),
        forall|x: Sloc| final(v)@.contains(x) == old(v)@.contains(x),
        forall|a: int, b: int| 0 <= a < b < final(v)@.len() ==> final(v)@[a].lang
            != final(v)@[b].lang,
{
    let n: usize = v.len();
    let mut i: usize = 0;
    while i < n
        invariant
            0 <= i <= n,
            n == v@.len(),
            forall|a: int, b: int| 0 <= a < b < i ==> sloc_le(v@[a], v@[b]),
            forall|a: int, b: int| 0 <= a < i && i <= b < n ==> sloc_le(v@[a], v@[b]),
            forall|x: Sloc| v@.contains(x) == old(v)@.contains(x),
            forall|a: int, b: int| 0 <= a < b < n ==> v@[a].lang != v@[b].lang,
        decreases n - i,
    {
        let mut mi: usize = i;
        let mut j: usize = i + 1;
        while j < n
            invariant
                0 <= i <= mi < j <= n,
                n == v@.len(),
                forall|k: int| i <= k < j ==> sloc_le(v@[mi as int], v@[k]),
            decreases n - j,
        {
            if sloc_before(&v[j], &v[mi]) {
                mi = j;
            } else {
                assert(sloc_le(v@[mi as int], v@[j as int]));
            }
            j = j + 1;
        }
        if mi != i {
            let ghost before = v@;
            let vi: Sloc = v[i];
            let vm: Sloc = v[mi];
            v[i] = vm;
            v[mi] = vi;
            proof {
                assert(v@ =~= before.update(i as int, vm).update(mi as int, vi));
                assert forall|x: Sloc| v@.contains(x) == before.contains(x) by {
                    if before.contains(x) {
                        let k = choose|k: int| 0 <= k < before.len() && before[k] == x;
                        if k == i {
                            assert(v@[mi as int] == x);
                        } else if k == mi {
                            assert(v@[i as int] == x);
                        } else {
                            assert(v@[k] == x);
                        }
                        assert(v@.contains(x));
                    }
                    if v@.contains(x) {
                        let k = choose|k: int| 0 <= k < v@.len() && v@[k] == x;
                        if k == i {
                            assert(before[mi as int] == x);
                        } else if k == mi {
                            assert(before[i as int] == x);
                        } else {
                            assert(before[k] == x);
                        }
                        assert(before.contains(x));
                    }
                }
                assert forall|a: int, b: int| 0 <= a < b < n implies v@[a].lang != v@[b].lang by {
                    let pa = if a == i {
                        mi as int
                    } else if a == mi {
                        i as int
                    } else {
                        a
                    };
                    let pb = if b == i {
                        mi as int
                    } else if b == mi {
                        i as int
                    } else {
                        b
                    };
                    assert(v@[a] == before[pa]);
                    assert(v@[b] == before[pb]);
                }
            }
        }
        proof {
            assert forall|a: int, b: int| 0 <= a < b < i + 1 implies sloc_le(v@[a], v@[b]) by {
                if b < i {
                } else {
                    assert(b == i);
                }
            }
            assert forall|a: int, b: int|
                0 <= a < i + 1 && i + 1 <= b < n implies sloc_le(v@[a], v@[b]) by {}
        }
        i = i + 1;
    }
}

/// The partition law: rows with pairwise-distinct languages, one for each
/// language occurring in `records`, whose stats are the per-language
/// sums, together sum to exactly the sum of all records. In particular
/// the `Total` row of a scan result equals the field-wise sum of the
/// per-language rows.
pub proof fn lemma_rows_sum_to_total(records: Seq<Sloc>, rows: Seq<Sloc>)
    requires
        forall|a: int, b: int| 0 <= a < b < rows.len() ==> rows[a].lang != rows[b].lang,
        forall|a: int|
            0 <= a < rows.len() ==> (#[trigger] rows[a]).stats.model() == lang_sum(
                records,
                rows[a].lang,
            ),
        forall|l: Lang| has_lang(records, l) ==> has_lang(rows, l),
    ensures
        sum_stats(rows) == sum_stats(records),
{
    let ls = langs_of(rows);
    assert forall|a: int, b: int| 0 <= a < b < ls.len() implies ls[a] != ls[b] by {
        assert(ls[a] == rows[a].lang);
        assert(ls[b] == rows[b].lang);
    }
    assert forall|l: Lang| has_lang(records, l) implies ls.contains(l) by {
        assert(has_lang(rows, l));
        let i = choose|i: int| 0 <= i < rows.len() && rows[i].lang == l;
        assert(ls[i] == l);
    }
    lemma_rows_sum(records, rows);
    lemma_sum_lang_sums_covers(ls, records);
}

/// Merges per-file records into one row per language, orders the rows
/// (most lines first, ties broken by the enumeration order of the
/// language) and appends a synthetic `Total` row equal to the field-wise
/// sum of every input record. Each row's code count is re-derived from
/// its own totals, never summed independently, so every row satisfies the
/// record invariant.
pub fn aggregate(records: &Vec<Sloc>) -> (r: Vec<Sloc>)
    requires
        forall|i: int| 0 <= i < records@.len() ==> (#[trigger] records@[i]).stats.wf(),
        forall|i: int| 0 <= i < records@.len() ==> (#[trigger] records@[i]).lang != Lang::Total,
        sum_stats(records@).files <= u64::MAX,
        sum_stats(records@).lines <= u64::MAX,
    ensures
        r@.len() >= 1,
        r@.last().lang == Lang::Total,
        r@.last().stats.model() == sum_stats(records@),
        r@.last().stats.wf(),
        forall|a: int| 0 <= a < r@.len() - 1 ==> (#[trigger] r@[a]).lang != Lang::Total,
        forall|a: int|
            0 <= a < r@.len() - 1 ==> (#[trigger] r@[a]).stats.model() == lang_sum(
                records@,
                r@[a].lang,
            ),
        forall|a: int| 0 <= a < r@.len() - 1 ==> (#[trigger] r@[a]).stats.wf(),
        forall|a: int, b: int| 0 <= a < b < r@.len() - 1 ==> r@[a].lang != r@[b].lang,
        forall|a: int, b: int| 0 <= a < b < r@.len() - 1 ==> sloc_le(r@[a], r@[b]),
        forall|l: Lang| #[trigger] has_lang(r@.drop_last(), l) == has_lang(records@, l),
{
    let n: usize = records.len();
    let mut acc: Vec<Sloc> = Vec::new();
    let mut i: usize = 0;
    proof {
        assert(records@.take(0) =~= Seq::<Sloc>::empty());
    }
    while i < n
        invariant
            0 <= i <= n,
            n == records@.len(),
            forall|x: int| 0 <= x < records@.len() ==> (#[trigger] records@[x]).stats.wf(),
            forall|x: int| 0 <= x < records@.len() ==> (#[trigger] records@[x]).lang != Lang::Total,
            sum_stats(records@).files <= u64::MAX,
            sum_stats(records@).lines <= u64::MAX,
            forall|a: int, b: int| 0 <= a < b < acc@.len() ==> acc@[a].lang != acc@[b].lang,
            forall|a: int| 0 <= a < acc@.len() ==> (#[trigger] acc@[a]).lang != Lang::Total,
            forall|a: int|
                0 <= a < acc@.len() ==> (#[trigger] acc@[a]).stats.model() == lang_sum(
                    records@.take(i as int),
                    acc@[a].lang,
                ),
            forall|a: int| 0 <= a < acc@.len() ==> (#[trigger] acc@[a]).stats.wf(),
            forall|l: Lang| #[trigger] has_lang(acc@, l) == has_lang(records@.take(i as int), l),
        decreases n - i,
    {
        let rec: Sloc = records[i];
        let ghost done = records@.take(i as int);
        let ghost done1 = records@.take(i as int + 1);
        proof {
            assert(done1.drop_last() =~= done);
            assert(done1.last() == records@[i as int]);
        }
        let m: usize = acc.len();
        let mut j: usize = 0;
        let mut found: Option<usize> = None;
        while j < m && found.is_none()
            invariant
                0 <= j <= m,
                m == acc@.len(),
                match found {
                    Some(f) => f < m && acc@[f as int].lang == rec.lang,
                    None => forall|a: int| 0 <= a < j ==> acc@[a].lang != rec.lang,
                },
            decreases m - j,
        {
            if acc[j].lang == rec.lang {
                found = Some(j);
            }
            j = j + 1;
        }
        let ghost before = acc@;
        match found {
            Some(f) => {
                proof {
                    lemma_lang_sum_le(done1, rec.lang);
                    lemma_sum_stats_prefix(records@, i as int + 1);
                    assert(lang_sum(done1, rec.lang) == lang_sum(done, rec.lang).plus(
                        rec.stats.model(),
                    ));
                }
                let mut row: Sloc = acc[f];
                row.stats.merge(&rec.stats);
                acc[f] = row;
                proof {
                    assert(acc@ =~= before.update(f as int, row));
                    assert forall|a: int| 0 <= a < acc@.len() implies acc@[a].lang
                        == before[a].lang by {
                        if a == f {
                        }
                    }
                    assert forall|a: int|
                        0 <= a < acc@.len() implies (#[trigger] acc@[a]).stats.model() == lang_sum(
                        done1,
                        acc@[a].lang,
                    ) && acc@[a].stats.wf() by {
                        if a == f {
                            assert(acc@[a].stats.model() =~= lang_sum(done1, acc@[a].lang));
                        } else {
                            assert(acc@[a] == before[a]);
                            assert(before[a].lang != before[f as int].lang);
                            assert(lang_sum(done1, acc@[a].lang) =~= lang_sum(
                                done,
                                acc@[a].lang,
                            ));
                        }
                    }
                    assert forall|l: Lang| #[trigger] has_lang(acc@, l) == has_lang(done1, l) by {
                        if has_lang(acc@, l) {
                            let a = choose|a: int| 0 <= a < acc@.len() && acc@[a].lang == l;
                            assert(before[a].lang == l);
                            assert(has_lang(before, l));
                            assert(has_lang(done, l));
                            let w = choose|w: int| 0 <= w < done.len() && done[w].lang == l;
                            assert(done1[w].lang == l);
                            assert(has_lang(done1, l));
                        }
                        if has_lang(done1, l) {
                            let w = choose|w: int| 0 <= w < done1.len() && done1[w].lang == l;
                            if w < done.len() {
                                assert(done[w].lang == l);
                                assert(has_lang(done, l));
                                assert(has_lang(before, l));
                                let a = choose|a: int|
                                    0 <= a < before.len() && before[a].lang == l;
                                assert(acc@[a].lang == l);
                                assert(has_lang(acc@, l));
                            } else {
                                assert(done1[w] == records@[i as int]);
                                assert(l == rec.lang);
                                assert(acc@[f as int].lang == l);
                                assert(has_lang(acc@, l));
                            }
                        }
                    }
                }
            },
            None => {
                proof {
                    assert(forall|a: int| 0 <= a < acc@.len() ==> acc@[a].lang != rec.lang);
                    assert(!has_lang(before, rec.lang)) by {
                        if has_lang(before, rec.lang) {
                            let a = choose|a: int|
                                0 <= a < before.len() && before[a].lang == rec.lang;
                            assert(before[a].lang != rec.lang);
                        }
                    }
                    assert(!has_lang(done, rec.lang));
                    lemma_lang_sum_absent(done, rec.lang);
                    assert(lang_sum(done1, rec.lang) == StatsModel::zero().plus(
                        rec.stats.model(),
                    ));
                    assert(lang_sum(done1, rec.lang) =~= rec.stats.model());
                }
                acc.push(rec);
                proof {
                    assert(acc@ =~= before.push(rec));
                    assert forall|a: int|
                        0 <= a < acc@.len() implies (#[trigger] acc@[a]).stats.model() == lang_sum(
                        done1,
                        acc@[a].lang,
                    ) && acc@[a].stats.wf() && acc@[a].lang != Lang::Total by {
                        if a < before.len() {
                            assert(acc@[a] == before[a]);
                            assert(before[a].lang != rec.lang);
                            assert(lang_sum(done1, acc@[a].lang) =~= lang_sum(
                                done,
                                acc@[a].lang,
                            ));
                        } else {
                            assert(acc@[a] == rec);
                            assert(records@[i as int].lang != Lang::Total);
                        }
                    }
                    assert forall|a: int, b: int|
                        0 <= a < b < acc@.len() implies acc@[a].lang != acc@[b].lang by {
                        if b < before.len() {
                        } else {
                            assert(acc@[b] == rec);
                            assert(acc@[a] == before[a]);
                        }
                    }
                    assert forall|l: Lang| #[trigger] has_lang(acc@, l) == has_lang(done1, l) by {
                        if has_lang(acc@, l) {
                            let a = choose|a: int| 0 <= a < acc@.len() && acc@[a].lang == l;
                            if a < before.len() {
                                assert(has_lang(before, l));
                                assert(has_lang(done, l));
                                let w = choose|w: int| 0 <= w < done.len() && done[w].lang == l;
                                assert(done1[w].lang == l);
                            } else {
                                assert(l == rec.lang);
                                assert(done1[done1.len() - 1].lang == l);
                            }
                            assert(has_lang(done1, l));
                        }
                        if has_lang(done1, l) {
                            let w = choose|w: int| 0 <= w < done1.len() && done1[w].lang == l;
                            if w < done.len() {
                                assert(done[w].lang == l);
                                assert(has_lang(done, l));
                                assert(has_lang(before, l));
                                let a = choose|a: int|
                                    0 <= a < before.len() && before[a].lang == l;
                                assert(acc@[a].lang == l);
                            } else {
                                assert(done1[w] == records@[i as int]);
                                assert(l == rec.lang);
                                assert(acc@[acc@.len() - 1].lang == l);
                            }
                            assert(has_lang(acc@, l));
                        }
                    }
                }
            },
        }
        i = i + 1;
    }
    proof {
        assert(records@.take(n as int) =~= records@);
    }
    let ghost merged = acc@;
    sort_slocs(&mut acc);
    proof {
        assert forall|a: int|
            0 <= a < acc@.len() implies (#[trigger] acc@[a]).lang != Lang::Total && acc@[a].stats.model()
            == lang_sum(records@, acc@[a].lang) && acc@[a].stats.wf() by {
            assert(acc@.contains(acc@[a]));
            assert(merged.contains(acc@[a]));
            let w = choose|w: int| 0 <= w < merged.len() && merged[w] == acc@[a];
            assert(merged[w].stats.model() == lang_sum(records@, merged[w].lang));
        }
        assert forall|l: Lang| #[trigger] has_lang(acc@, l) == has_lang(records@, l) by {
            if has_lang(acc@, l) {
                let a = choose|a: int| 0 <= a < acc@.len() && acc@[a].lang == l;
                assert(acc@.contains(acc@[a]));
                assert(merged.contains(acc@[a]));
                let w = choose|w: int| 0 <= w < merged.len() && merged[w] == acc@[a];
                assert(has_lang(merged, l));
            }
            if has_lang(records@, l) {
                assert(has_lang(merged, l));
                let w = choose|w: int| 0 <= w < merged.len() && merged[w].lang == l;
                assert(merged.contains(merged[w]));
                assert(acc@.contains(merged[w]));
                let a = choose|a: int| 0 <= a < acc@.len() && acc@[a] == merged[w];
                assert(acc@[a].lang == l);
                assert(has_lang(acc@, l));
            }
        }
        lemma_rows_sum_to_total(records@, acc@);
        lemma_sum_stats_wf(records@);
    }
    let k: usize = acc.len();
    let mut total: Sloc = Sloc::new(Lang::Total);
    let mut x: usize = 0;
    proof {
        assert(acc@.take(0) =~= Seq::<Sloc>::empty());
        assert(total.stats.model() =~= sum_stats(acc@.take(0)));
    }
    while x < k
        invariant
            0 <= x <= k,
            k == acc@.len(),
            total.lang == Lang::Total,
            total.stats.wf(),
            total.stats.model().files == sum_stats(acc@.take(x as int)).files,
            total.stats.model().lines == sum_stats(acc@.take(x as int)).lines,
            total.stats.model().comments == sum_stats(acc@.take(x as int)).comments,
            total.stats.model().blanks == sum_stats(acc@.take(x as int)).blanks,
            sum_stats(acc@) == sum_stats(records@),
            sum_stats(records@).files <= u64::MAX,
            sum_stats(records@).lines <= u64::MAX,
            forall|a: int| 0 <= a < acc@.len() ==> (#[trigger] acc@[a]).stats.wf(),
        decreases k - x,
    {
        proof {
            assert(acc@.take(x as int + 1).drop_last() =~= acc@.take(x as int));
            assert(acc@.take(x as int + 1).last() == acc@[x as int]);
            lemma_sum_stats_prefix(acc@, x as int + 1);
            lemma_sum_stats_wf(acc@.take(x as int + 1));
        }
        let row: Sloc = acc[x];
        total.stats.merge(&row.stats);
        x = x + 1;
    }
    proof {
        assert(acc@.take(k as int) =~= acc@);
        assert(total.stats.model() =~= sum_stats(records@));
    }
    let ghost rows_v = acc@;
    acc.push(total);
    proof {
        assert(acc@.drop_last() =~= rows_v);
        assert(acc@.last() == total);
        assert(forall|a: int| 0 <= a < acc@.len() - 1 ==> acc@[a] == rows_v[a]);
    }
    acc
}

/// Renders records as report rows: the display name of the language and
/// each count in decimal.
pub fn to_sloc_strs(slocs: &Vec<Sloc>) -> (r: Vec<SlocStr>)
    ensures
        r@.len() == slocs@.len(),
        forall|i: int|
            0 <= i < r@.len() ==> {
                &&& (#[trigger] r@[i]).lang@ == slocs@[i].lang.spec_name()
                &&& r@[i].files@ == dec_chars(slocs@[i].stats.files as int)
                &&& r@[i].lines@ == dec_chars(slocs@[i].stats.lines as int)
                &&& r@[i].code@ == dec_chars(slocs@[i].stats.code as int)
                &&& r@[i].comments@ == dec_chars(slocs@[i].stats.comments as int)
                &&& r@[i].blanks@ == dec_chars(slocs@[i].stats.blanks as int)
            },
{
    let n: usize = slocs.len();
    let mut r: Vec<SlocStr> = Vec::new();
    let mut i: usize = 0;
    while i < n
        invariant
            0 <= i <= n,
            n == slocs@.len(),
            r@.len() == i,
            forall|x: int|
                0 <= x < i ==> {
                    &&& (#[trigger] r@[x]).lang@ == slocs@[x].lang.spec_name()
                    &&& r@[x].files@ == dec_chars(slocs@[x].stats.files as int)
                    &&& r@[x].lines@ == dec_chars(slocs@[x].stats.lines as int)
                    &&& r@[x].code@ == dec_chars(slocs@[x].stats.code as int)
                    &&& r@[x].comments@ == dec_chars(slocs@[x].stats.comments as int)
                    &&& r@[x].blanks@ == dec_chars(slocs@[x].stats.blanks as int)
                },
        decreases n - i,
    {
        let s: Sloc = slocs[i];
        let row = SlocStr {
            lang: s.lang.name().to_owned(),
            files: u64_string(s.stats.files),
            lines: u64_string(s.stats.lines),
            code: u64_string(s.stats.code),
            comments: u64_string(s.stats.comments),
            blanks: u64_string(s.stats.blanks),
        };
        r.push(row);
        i = i + 1;
    }
    r
}

/// The rendered byte length of a string value.
pub open spec fn render_len(s: Seq<char>) -> int {
    vstd::utf8::encode_utf8(s).len() as int
}

/// The width a report column takes before its separating space: the
/// longest rendered value, with a floor of ten.
pub open spec fn col_width(vals: Seq<Seq<char>>) -> int
    decreases vals.len(),
{
    if vals.len() == 0 {
        10
    } else {
        let rest = col_width(vals.drop_last());
        if render_len(vals.last()) > rest {
            render_len(vals.last())
        } else {
            rest
        }
    }
}

/// The width of each report column, one wider than the longest value.
pub struct ColWidths {
    pub lang: usize,
    pub files: usize,
    pub lines: usize,
    pub code: usize,
    pub comments: usize,
    pub blanks: usize,
}

/// Computes the column widths of a rendered report: each column is sized
/// to its longest value, at least ten, plus one for spacing.
pub fn column_widths(rows: &Vec<SlocStr>) -> (r: ColWidths)
    requires
        forall|i: int| 0 <= i < rows@.len() ==> render_len((#[trigger] rows@[i]).lang@) < usize::MAX,
        forall|i: int|
            0 <= i < rows@.len() ==> render_len((#[trigger] rows@[i]).files@) < usize::MAX,
        forall|i: int|
            0 <= i < rows@.len() ==> render_len((#[trigger] rows@[i]).lines@) < usize::MAX,
        forall|i: int| 0 <= i < rows@.len() ==> render_len((#[trigger] rows@[i]).code@) < usize::MAX,
        forall|i: int|
            0 <= i < rows@.len() ==> render_len((#[trigger] rows@[i]).comments@) < usize::MAX,
        forall|i: int|
            0 <= i < rows@.len() ==> render_len((#[trigger] rows@[i]).blanks@) < usize::MAX,
    ensures
        r.lang == col_width(rows@.map_values(|x: SlocStr| x.lang@)) + 1,
        r.files == col_width(rows@.map_values(|x: SlocStr| x.files@)) + 1,
        r.lines == col_width(rows@.map_values(|x: SlocStr| x.lines@)) + 1,
        r.code == col_width(rows@.map_values(|x: SlocStr| x.code@)) + 1,
        r.comments == col_width(rows@.map_values(|x: SlocStr| x.comments@)) + 1,
        r.blanks == col_width(rows@.map_values(|x: SlocStr| x.blanks@)) + 1,
{
    let n: usize = rows.len();
    let mut lang: usize = 10;
    let mut files: usize = 10;
    let mut lines: usize = 10;
    let mut code: usize = 10;
    let mut comments: usize = 10;
    let mut blanks: usize = 10;
    let mut i: usize = 0;
    proof {
        assert(rows@.take(0).map_values(|x: SlocStr| x.lang@).len() == 0);
    }
    while i < n
        invariant
            0 <= i <= n,
            n == rows@.len(),
            forall|x: int|
                0 <= x < rows@.len() ==> render_len((#[trigger] rows@[x]).lang@) < usize::MAX,
            forall|x: int|
                0 <= x < rows@.len() ==> render_len((#[trigger] rows@[x]).files@) < usize::MAX,
            forall|x: int|
                0 <= x < rows@.len() ==> render_len((#[trigger] rows@[x]).lines@) < usize::MAX,
            forall|x: int|
                0 <= x < rows@.len() ==> render_len((#[trigger] rows@[x]).code@) < usize::MAX,
            forall|x: int|
                0 <= x < rows@.len() ==> render_len((#[trigger] rows@[x]).comments@) < usize::MAX,
            forall|x: int|
                0 <= x < rows@.len() ==> render_len((#[trigger] rows@[x]).blanks@) < usize::MAX,
            lang == col_width(rows@.take(i as int).map_values(|x: SlocStr| x.lang@)),
            files == col_width(rows@.take(i as int).map_values(|x: SlocStr| x.files@)),
            lines == col_width(rows@.take(i as int).map_values(|x: SlocStr| x.lines@)),
            code == col_width(rows@.take(i as int).map_values(|x: SlocStr| x.code@)),
            comments == col_width(rows@.take(i as int).map_values(|x: SlocStr| x.comments@)),
            blanks == col_width(rows@.take(i as int).map_values(|x: SlocStr| x.blanks@)),
            lang < usize::MAX,
            files < usize::MAX,
            lines < usize::MAX,
            code < usize::MAX,
            comments < usize::MAX,
            blanks < usize::MAX,
        decreases n - i,
    {
        proof {
            let t1 = rows@.take(i as int);
            let t2 = rows@.take(i as int + 1);
            assert(t2.drop_last() =~= t1);
            assert(t2.last() == rows@[i as int]);
            assert(t2.map_values(|x: SlocStr| x.lang@).drop_last() =~= t1.map_values(
                |x: SlocStr| x.lang@,
            ));
            assert(t2.map_values(|x: SlocStr| x.lang@).last() == rows@[i as int].lang@);
            assert(t2.map_values(|x: SlocStr| x.files@).drop_last() =~= t1.map_values(
                |x: SlocStr| x.files@,
            ));
            assert(t2.map_values(|x: SlocStr| x.files@).last() == rows@[i as int].files@);
            assert(t2.map_values(|x: SlocStr| x.lines@).drop_last() =~= t1.map_values(
                |x: SlocStr| x.lines@,
            ));
            assert(t2.map_values(|x: SlocStr| x.lines@).last() == rows@[i as int].lines@);
            assert(t2.map_values(|x: SlocStr| x.code@).drop_last() =~= t1.map_values(
                |x: SlocStr| x.code@,
            ));
            assert(t2.map_values(|x: SlocStr| x.code@).last() == rows@[i as int].code@);
            assert(t2.map_values(|x: SlocStr| x.comments@).drop_last() =~= t1.map_values(
                |x: SlocStr| x.comments@,
            ));
            assert(t2.map_values(|x: SlocStr| x.comments@).last() == rows@[i as int].comments@);
            assert(t2.map_values(|x: SlocStr| x.blanks@).drop_last() =~= t1.map_values(
                |x: SlocStr| x.blanks@,
            ));
            assert(t2.map_values(|x: SlocStr| x.blanks@).last() == rows@[i as int].blanks@);
        }
        let row: &SlocStr = &rows[i];
        if lang < row.lang.as_str().len() {
            lang = row.lang.as_str().len();
        }
        if files < row.files.as_str().len() {
            files = row.files.as_str().len();
        }
        if lines < row.lines.as_str().len() {
            lines = row.lines.as_str().len();
        }
        if code < row.code.as_str().len() {
            code = row.code.as_str().len();
        }
        if comments < row.comments.as_str().len() {
            comments = row.comments.as_str().len();
        }
        if blanks < row.blanks.as_str().len() {
            blanks = row.blanks.as_str().len();
        }
        i = i + 1;
    }
    proof {
        assert(rows@.take(n as int) =~= rows@);
    }
    ColWidths {
        lang: lang + 1,
        files: files + 1,
        lines: lines + 1,
        code: code + 1,
        comments: comments + 1,
        blanks: blanks + 1,
    }
}

} // verus!
