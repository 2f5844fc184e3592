//! The line classifier: splits a file's raw bytes into logical lines and
//! classifies each line as code, comment or blank with a small state
//! machine that tracks open block comments.

use vstd::prelude::*;
use vstd::string::StringSliceAdditionalSpecFns;

use crate::lang::{CommentInfo, Lang, SyntaxModel};
use crate::text::{ends_with, is_space_byte, starts_with, trim, trim_spec};

verus! {

/// Line counts for one file or one language: total lines, code lines,
/// comment lines and blank lines, plus the number of files summed in.
#[derive(Clone, Copy, Debug, PartialEq, Eq, Structural)]
pub struct Stats {
    pub files: u64,
    pub lines: u64,
    pub code: u64,
    pub comments: u64,
    pub blanks: u64,
}

/// The mathematical view of `Stats`, with unbounded integer fields.
#[verifier::ext_equal]
pub struct StatsModel {
    pub files: int,
    pub lines: int,
    pub code: int,
    pub comments: int,
    pub blanks: int,
}

impl StatsModel {
    pub open spec fn zero() -> StatsModel {
        StatsModel { files: 0, lines: 0, code: 0, comments: 0, blanks: 0 }
    }

    pub open spec fn plus(self, other: StatsModel) -> StatsModel {
        StatsModel {
            files: self.files + other.files,
            lines: self.lines + other.lines,
            code: self.code + other.code,
            comments: self.comments + other.comments,
            blanks: self.blanks + other.blanks,
        }
    }
}

impl Stats {
    pub open spec fn model(self) -> StatsModel {
        StatsModel {
            files: self.files as int,
            lines: self.lines as int,
            code: self.code as int,
            comments: self.comments as int,
            blanks: self.blanks as int,
        }
    }

    /// The record invariant: the line total splits exactly into code,
    /// comment and blank lines.
    pub open spec fn wf(self) -> bool {
        self.lines == self.code + self.comments + self.blanks
    }

    /// Adds `rhs` field-wise into `self`; the code count is re-derived
    /// from the updated totals rather than summed, so the `wf` invariant
    /// is maintained exactly.
    pub fn merge(&mut self, rhs: &Stats)
        requires
            old(self).wf(),
            rhs.wf(),
            old(self).files + rhs.files <= u64::MAX,
            old(self).lines + rhs.lines <= u64::MAX,
        ensures
            final(self).files == old(self).files + rhs.files,
            final(self).lines == old(self).lines + rhs.lines,
            final(self).comments == old(self).comments + rhs.comments,
            final(self).blanks == old(self).blanks + rhs.blanks,
            final(self).code == old(self).code + rhs.code,
            final(self).wf(),
    {
        self.files = self.files + rhs.files;
        self.lines = self.lines + rhs.lines;
        self.comments = self.comments + rhs.comments;
        self.blanks = self.blanks + rhs.blanks;
        self.code = self.lines - self.comments - self.blanks;
    }
}

/// The per-language (or per-file) record: a language and its counts.
#[derive(Clone, Copy, Debug)]
pub struct Sloc {
    pub lang: Lang,
    pub stats: Stats,
}

impl Sloc {
    /// A fresh record for `lang` with every count zero.
    pub fn new(lang: Lang) -> (r: Sloc)
        ensures
            r.lang == lang,
            r.stats == (Stats { files: 0, lines: 0, code: 0, comments: 0, blanks: 0 }),
            r.stats.wf(),
    {
        Sloc { lang, stats: Stats { files: 0, lines: 0, code: 0, comments: 0, blanks: 0 } }
    }
}

/// One row of the final report, fully rendered: the language name and the
/// five counts as decimal strings.
pub struct SlocStr {
    pub lang: String,
    pub files: String,
    pub lines: String,
    pub code: String,
    pub comments: String,
    pub blanks: String,
}

/// The index of the first line feed in `s`, or `s.len()` if there is none.
pub open spec fn find_nl(s: Seq<u8>) -> int
    decreases s.len(),
{
    if s.len() == 0 {
        0
    } else if s[0] == 10 {
        0
    } else {
        1 + find_nl(s.skip(1))
    }
}

/// A line with one trailing carriage return removed: the byte content of a
/// logical line terminated by `\r\n`.
pub open spec fn chop_cr(l: Seq<u8>) -> Seq<u8> {
    if l.len() > 0 && l.last() == 13 {
        l.drop_last()
    } else {
        l
    }
}

/// The logical lines of a file: maximal segments terminated by a line
/// feed, each with one trailing carriage return stripped. Bytes after the
/// last line feed do not form a line.
pub open spec fn line_seq(s: Seq<u8>) -> Seq<Seq<u8>>
    decreases s.len(),
{
    let i = find_nl(s);
    if 0 <= i < s.len() {
        seq![chop_cr(s.take(i))] + line_seq(s.skip(i + 1))
    } else {
        Seq::empty()
    }
}

/// `find_nl` returns the position of the first line feed: it is in range,
/// it points at a line feed when one exists, and nothing before it is one.
pub proof fn lemma_find_nl(s: Seq<u8>)
    ensures
        0 <= find_nl(s) <= s.len(),
        find_nl(s) < s.len() ==> s[find_nl(s)] == 10,
        forall|j: int| 0 <= j < find_nl(s) ==> s[j] != 10,
    decreases s.len(),
{
    if s.len() > 0 && s[0] != 10 {
        lemma_find_nl(s.skip(1));
        assert forall|j: int| 0 <= j < find_nl(s) implies s[j] != 10 by {
            if j > 0 {
                assert(s.skip(1)[j - 1] != 10);
            }
        }
    }
}

/// A file has no more lines than bytes.
pub proof fn lemma_line_seq_len(s: Seq<u8>)
    ensures
        line_seq(s).len() <= s.len(),
    decreases s.len(),
{
    lemma_find_nl(s);
    let i = find_nl(s);
    if 0 <= i < s.len() {
        lemma_line_seq_len(s.skip(i + 1));
    }
}

/// Reads the logical lines of a byte buffer one at a time, left to right.
pub struct LineReader<'a> {
    pub mmap: &'a [u8],
    pub next_index: usize,
}

impl<'a> LineReader<'a> {
    /// The read position never passes the end of the buffer.
    pub open spec fn wf(self) -> bool {
        self.next_index <= self.mmap@.len()
    }

    /// The bytes not yet consumed.
    pub open spec fn remaining(self) -> Seq<u8> {
        self.mmap@.skip(self.next_index as int)
    }

    /// A reader positioned at the start of `mmap`.
    pub fn new(mmap: &'a [u8]) -> (r: LineReader<'a>)
        ensures
            r.wf(),
            r.mmap@ == mmap@,
            r.remaining() == mmap@,
    {
        let r = LineReader { mmap, next_index: 0 };
        proof {
            assert(r.remaining() =~= mmap@);
        }
        r
    }

    /// Consumes and returns the next logical line, or `None` when no
    /// complete line is left.
    pub fn read_line(&mut self) -> (r: Option<&'a [u8]>)
        requires
            old(self).wf(),
        ensures
            final(self).wf(),
            final(self).mmap@ == old(self).mmap@,
            match r {
                Some(l) => {
                    &&& line_seq(old(self).remaining()) == seq![l@] + line_seq(
                        final(self).remaining(),
                    )
                    &&& final(self).next_index > old(self).next_index
                },
                None => {
                    &&& line_seq(old(self).remaining()) == Seq::<Seq<u8>>::empty()
                    &&& *final(self) == *old(self)
                },
            },
    {
        let start: usize = self.next_index;
        let len: usize = self.mmap.len();
        let ghost rem = self.remaining();
        let mut e: usize = start;
        while e < len && self.mmap[e] != 10
            invariant
                start <= e <= len,
                len == self.mmap@.len(),
                forall|j: int| start <= j < e ==> self.mmap@[j] != 10,
            decreases len - e,
        {
            e = e + 1;
        }
        proof {
            lemma_find_nl(rem);
            assert forall|j: int| 0 <= j < e - start implies rem[j] != 10 by {
                assert(self.mmap@[start + j] != 10);
            }
        }
        if e == len {
            proof {
                assert(find_nl(rem) == rem.len()) by {
                    if find_nl(rem) < rem.len() {
                        assert(rem[find_nl(rem)] == 10);
                    }
                }
                assert(line_seq(rem) =~= Seq::<Seq<u8>>::empty());
            }
            return None;
        }
        let ghost k = e - start as int;
        proof {
            assert(rem[k] == self.mmap@[e as int]);
            assert(find_nl(rem) == k) by {
                if find_nl(rem) < k {
                    assert(rem[find_nl(rem)] != 10);
                } else if find_nl(rem) > k {
                    assert(rem[k] != 10);
                }
            }
        }
        self.next_index = e + 1;
        proof {
            assert(self.remaining() =~= rem.skip(k + 1));
            assert(line_seq(rem) == seq![chop_cr(rem.take(k))] + line_seq(self.remaining()));
        }
        let stop: usize = if e > start && self.mmap[e - 1] == 13 {
            e - 1
        } else {
            e
        };
        let line: &'a [u8] = &self.mmap[start..stop];
        proof {
            if e > start && self.mmap@[e - 1] == 13 {
                assert(rem.take(k).len() > 0);
                assert(rem.take(k).last() == self.mmap@[e - 1]);
                assert(line@ =~= rem.take(k).drop_last());
            } else {
                if k > 0 {
                    assert(rem.take(k).last() == self.mmap@[e - 1]);
                }
                assert(line@ =~= rem.take(k));
            }
            assert(line@ == chop_cr(rem.take(k)));
        }
        Some(line)
    }
}

/// The classifier state: either outside any block comment, or inside the
/// block comment opened by the start delimiter with the given index.
#[derive(Clone, Copy, Debug, PartialEq, Eq, Structural)]
pub enum BlockState {
    Normal,
    InBlock(usize),
}

/// What one line counts as.
#[derive(Clone, Copy, Debug, PartialEq, Eq, Structural)]
pub enum LineKind {
    Blank,
    Comment,
    Code,
}

/// A block state is meaningful for a syntax: an open block refers to an
/// existing delimiter pair.
pub open spec fn state_wf(m: SyntaxModel, st: BlockState) -> bool {
    match st {
        BlockState::Normal => true,
        BlockState::InBlock(i) => i < m.ends.len(),
    }
}

/// The index of the first block-comment start delimiter that is a prefix
/// of `t`, if any; earlier delimiter pairs take priority.
pub open spec fn first_start_match(starts: Seq<Seq<u8>>, t: Seq<u8>) -> Option<int>
    decreases starts.len(),
{
    if starts.len() == 0 {
        None
    } else if starts[0].is_prefix_of(t) {
        Some(0int)
    } else {
        match first_start_match(starts.skip(1), t) {
            None => None,
            Some(j) => Some(j + 1),
        }
    }
}

/// `first_start_match` returns the least matching index, and `None`
/// exactly when no start delimiter matches.
pub proof fn lemma_first_start_match(starts: Seq<Seq<u8>>, t: Seq<u8>)
    ensures
        match first_start_match(starts, t) {
            Some(j) => {
                &&& 0 <= j < starts.len()
                &&& starts[j].is_prefix_of(t)
                &&& forall|k: int| 0 <= k < j ==> !(#[trigger] starts[k]).is_prefix_of(t)
            },
            None => forall|k: int|
                0 <= k < starts.len() ==> !(#[trigger] starts[k]).is_prefix_of(t),
        },
    decreases starts.len(),
{
    if starts.len() > 0 && !starts[0].is_prefix_of(t) {
        lemma_first_start_match(starts.skip(1), t);
        match first_start_match(starts, t) {
            Some(j) => {
                assert(starts.skip(1)[j - 1] == starts[j]);
                assert forall|k: int| 0 <= k < j implies !(#[trigger] starts[k]).is_prefix_of(
                    t,
                ) by {
                    if k > 0 {
                        assert(starts.skip(1)[k - 1] == starts[k]);
                    }
                }
            },
            None => {
                assert forall|k: int| 0 <= k < starts.len() implies !(
                #[trigger] starts[k]).is_prefix_of(t) by {
                    if k > 0 {
                        assert(starts.skip(1)[k - 1] == starts[k]);
                    }
                }
            },
        }
    }
}

/// Whether some single-line comment prefix of `m` starts the trimmed
/// line `t`.
pub open spec fn single_line_match(m: SyntaxModel, t: Seq<u8>) -> bool {
    exists|k: int| 0 <= k < m.singles.len() && (#[trigger] m.singles[k]).is_prefix_of(t)
}

/// The classifier state after one line. A blank line changes nothing; an
/// open block closes when the line ends with the matching end delimiter; a
/// line opening a block enters it unless the same line also closes it.
pub open spec fn step_state(m: SyntaxModel, st: BlockState, line: Seq<u8>) -> BlockState {
    let t = trim_spec(line);
    if t.len() == 0 {
        st
    } else {
        match st {
            BlockState::InBlock(i) => if m.ends[i as int].is_suffix_of(t) {
                BlockState::Normal
            } else {
                st
            },
            BlockState::Normal => match first_start_match(m.starts, t) {
                Some(j) => if m.ends[j].is_suffix_of(t) {
                    BlockState::Normal
                } else {
                    BlockState::InBlock(j as usize)
                },
                None => BlockState::Normal,
            },
        }
    }
}

/// How one line is classified: blank if whitespace only; a comment while a
/// block comment is open, when it opens one, or when it starts with a
/// single-line prefix; code otherwise.
pub open spec fn line_kind(m: SyntaxModel, st: BlockState, line: Seq<u8>) -> LineKind {
    let t = trim_spec(line);
    if t.len() == 0 {
        LineKind::Blank
    } else {
        match st {
            BlockState::InBlock(i) => LineKind::Comment,
            BlockState::Normal => if first_start_match(m.starts, t) is Some {
                LineKind::Comment
            } else if single_line_match(m, t) {
                LineKind::Comment
            } else {
                LineKind::Code
            },
        }
    }
}

/// Line totals of part of a scan: total, comment and blank lines (code
/// lines are the rest).
#[verifier::ext_equal]
pub struct Tally {
    pub lines: int,
    pub comments: int,
    pub blanks: int,
}

impl Tally {
    pub open spec fn zero() -> Tally {
        Tally { lines: 0, comments: 0, blanks: 0 }
    }

    pub open spec fn plus(self, other: Tally) -> Tally {
        Tally {
            lines: self.lines + other.lines,
            comments: self.comments + other.comments,
            blanks: self.blanks + other.blanks,
        }
    }

    /// The contribution of a single line.
    pub open spec fn of_kind(k: LineKind) -> Tally {
        Tally {
            lines: 1,
            comments: if k is Comment {
                1
            } else {
                0
            },
            blanks: if k is Blank {
                1
            } else {
                0
            },
        }
    }
}

/// The tally of a whole run of the classifier over `lines`, starting in
/// state `st`.
pub open spec fn scan_tally(m: SyntaxModel, st: BlockState, lines: Seq<Seq<u8>>) -> Tally
    decreases lines.len(),
{
    if lines.len() == 0 {
        Tally::zero()
    } else {
        Tally::of_kind(line_kind(m, st, lines[0])).plus(
            scan_tally(m, step_state(m, st, lines[0]), lines.skip(1)),
        )
    }
}

/// Classifies one line and advances the block-comment state.
fn step_line(info: &CommentInfo, st: BlockState, line: &[u8]) -> (r: (BlockState, LineKind))
    requires
        info.wf(),
        state_wf(info.model(), st),
    ensures
        r.0 == step_state(info.model(), st, line@),
        r.1 == line_kind(info.model(), st, line@),
        state_wf(info.model(), r.0),
{
    let ghost m = info.model();
    let t = trim(line);
    if t.len() == 0 {
        return (st, LineKind::Blank);
    }
    match st {
        BlockState::InBlock(i) => {
            let end: &'static str = info.multi_line_end[i];
            proof {
                assert(m.ends[i as int] == info.multi_line_end@[i as int].spec_bytes());
            }
            if ends_with(t, end.as_bytes()) {
                (BlockState::Normal, LineKind::Comment)
            } else {
                (BlockState::InBlock(i), LineKind::Comment)
            }
        },
        BlockState::Normal => {
            let n: usize = info.multi_line_start.len();
            let mut j: usize = 0;
            let mut found: Option<usize> = None;
            while j < n && found.is_none()
                invariant
                    0 <= j <= n,
                    n == m.starts.len(),
                    m == info.model(),
                    info.wf(),
                    t@ == trim_spec(line@),
                    match found {
                        Some(f) => {
                            &&& f < j
                            &&& m.starts[f as int].is_prefix_of(t@)
                            &&& forall|k: int|
                                0 <= k < f ==> !(#[trigger] m.starts[k]).is_prefix_of(t@)
                        },
                        None => forall|k: int|
                            0 <= k < j ==> !(#[trigger] m.starts[k]).is_prefix_of(t@),
                    },
                decreases n - j,
            {
                let start: &'static str = info.multi_line_start[j];
                proof {
                    assert(m.starts[j as int] == info.multi_line_start@[j as int].spec_bytes());
                }
                if starts_with(t, start.as_bytes()) {
                    found = Some(j);
                }
                j = j + 1;
            }
            proof {
                lemma_first_start_match(m.starts, t@);
            }
            match found {
                Some(f) => {
                    proof {
                        assert(first_start_match(m.starts, t@) == Some(f as int));
                    }
                    let end: &'static str = info.multi_line_end[f];
                    proof {
                        assert(m.ends[f as int] == info.multi_line_end@[f as int].spec_bytes());
                    }
                    if ends_with(t, end.as_bytes()) {
                        (BlockState::Normal, LineKind::Comment)
                    } else {
                        (BlockState::InBlock(f), LineKind::Comment)
                    }
                },
                None => {
                    proof {
                        assert(first_start_match(m.starts, t@) is None);
                    }
                    let ns: usize = info.single_line.len();
                    let mut k: usize = 0;
                    let mut is_comment: bool = false;
                    while k < ns && !is_comment
                        invariant
                            0 <= k <= ns,
                            ns == m.singles.len(),
                            m == info.model(),
                            info.wf(),
                            t@ == trim_spec(line@),
                            is_comment ==> single_line_match(m, t@),
                            !is_comment ==> forall|x: int|
                                0 <= x < k ==> !(#[trigger] m.singles[x]).is_prefix_of(t@),
                        decreases ns - k,
                    {
                        let p: &'static str = info.single_line[k];
                        proof {
                            assert(m.singles[k as int] == info.single_line@[k as int].spec_bytes());
                        }
                        if starts_with(t, p.as_bytes()) {
                            is_comment = true;
                        }
                        k = k + 1;
                    }
                    if is_comment {
                        (BlockState::Normal, LineKind::Comment)
                    } else {
                        assert(!single_line_match(m, t@));
                        (BlockState::Normal, LineKind::Code)
                    }
                },
            }
        },
    }
}

/// The record a file's bytes count as, under syntax `m`: one file, the
/// tally of a full scan of its logical lines started outside any block
/// comment, and the code count derived as the lines that are neither
/// comments nor blanks.
pub open spec fn file_stats(m: SyntaxModel, content: Seq<u8>) -> StatsModel {
    let t = scan_tally(m, BlockState::Normal, line_seq(content));
    StatsModel {
        files: 1,
        lines: t.lines,
        code: t.lines - t.comments - t.blanks,
        comments: t.comments,
        blanks: t.blanks,
    }
}

/// Classifies the content of one file of a fixed language.
pub struct Counter {
    pub lang: Lang,
    pub comment_info: CommentInfo,
}

impl Counter {
    pub fn new(lang: Lang, comment_info: CommentInfo) -> (r: Counter)
        ensures
            r.lang == lang,
            r.comment_info.model() == comment_info.model(),
    {
        Counter { lang, comment_info }
    }

    /// Counts the lines of `content`: runs the classifier over every
    /// logical line starting outside any block comment, and returns a
    /// one-file record whose code count is derived from the totals.
    pub fn count(&self, content: &[u8]) -> (r: Sloc)
        requires
            self.comment_info.wf(),
        ensures
            r.lang == self.lang,
            r.stats.files == 1,
            r.stats.model() == file_stats(self.comment_info.model(), content@),
            r.stats.wf(),
    {
        let ghost m = self.comment_info.model();
        let ghost total = line_seq(content@);
        let clen: usize = content.len();
        proof {
            assert(content@.len() == clen <= usize::MAX);
            lemma_line_seq_len(content@);
            lemma_scan_tally_bounds(m, BlockState::Normal, total);
        }
        let mut reader = LineReader::new(content);
        let mut lines: u64 = 0;
        let mut comments: u64 = 0;
        let mut blanks: u64 = 0;
        let mut st = BlockState::Normal;
        loop
            invariant
                reader.wf(),
                reader.mmap@ == content@,
                self.comment_info.wf(),
                m == self.comment_info.model(),
                state_wf(m, st),
                total == line_seq(content@),
                line_seq(reader.remaining()).len() <= total.len(),
                total.len() <= content@.len() <= usize::MAX,
                lines == total.len() - line_seq(reader.remaining()).len(),
                comments + blanks <= lines,
                scan_tally(m, BlockState::Normal, total) == (Tally {
                    lines: lines as int,
                    comments: comments as int,
                    blanks: blanks as int,
                }).plus(scan_tally(m, st, line_seq(reader.remaining()))),
            ensures
                reader.wf(),
                lines as int == scan_tally(m, BlockState::Normal, total).lines,
                comments as int == scan_tally(m, BlockState::Normal, total).comments,
                blanks as int == scan_tally(m, BlockState::Normal, total).blanks,
                comments + blanks <= lines,
            decreases content@.len() - reader.next_index,
        {
            let ghost rem_before = line_seq(reader.remaining());
            let line = match reader.read_line() {
                Some(line) => line,
                None => {
                    proof {
                        let t_now = Tally {
                            lines: lines as int,
                            comments: comments as int,
                            blanks: blanks as int,
                        };
                        assert(scan_tally(m, st, line_seq(reader.remaining())) == Tally::zero());
                        assert(t_now.plus(Tally::zero()) =~= t_now);
                    }
                    break ;
                },
            };
            let ghost rem_after = line_seq(reader.remaining());
            let step = step_line(&self.comment_info, st, line);
            proof {
                let t_now = Tally {
                    lines: lines as int,
                    comments: comments as int,
                    blanks: blanks as int,
                };
                assert(rem_before == seq![line@] + rem_after);
                assert(rem_before[0] == line@);
                assert(rem_before.skip(1) =~= rem_after);
                assert(scan_tally(m, st, rem_before) == Tally::of_kind(line_kind(m, st, line@)).plus(
                    scan_tally(m, step.0, rem_after),
                ));
                let one = Tally::of_kind(line_kind(m, st, line@));
                assert(t_now.plus(one.plus(scan_tally(m, step.0, rem_after))) =~= (t_now.plus(
                    one,
                )).plus(scan_tally(m, step.0, rem_after)));
            }
            lines = lines + 1;
            match step.1 {
                LineKind::Blank => {
                    blanks = blanks + 1;
                },
                LineKind::Comment => {
                    comments = comments + 1;
                },
                LineKind::Code => {
                },
            }
            st = step.0;
        }
        let code: u64 = lines - comments - blanks;
        let r = Sloc {
            lang: self.lang,
            stats: Stats { files: 1, lines, code, comments, blanks },
        };
        proof {
            assert(r.stats.model() =~= file_stats(m, content@));
        }
        r
    }
}

/// Trimming a whitespace-only line leaves nothing.
pub proof fn lemma_trim_all_space(line: Seq<u8>)
    requires
        forall|i: int| 0 <= i < line.len() ==> is_space_byte(#[trigger] line[i]),
    ensures
        trim_spec(line).len() == 0,
    decreases line.len(),
{
    if line.len() > 0 {
        assert forall|i: int| 0 <= i < line.skip(1).len() implies is_space_byte(
            #[trigger] line.skip(1)[i],
        ) by {
            assert(line.skip(1)[i] == line[i + 1]);
        }
        lemma_trim_all_space(line.skip(1));
    }
}

/// A whitespace-only line counts as blank and never changes the
/// block-comment state, whatever that state is: not even immediately
/// after a block-comment start or right before its end.
pub proof fn lemma_blank_line(m: SyntaxModel, st: BlockState, line: Seq<u8>)
    requires
        forall|i: int| 0 <= i < line.len() ==> is_space_byte(#[trigger] line[i]),
    ensures
        line_kind(m, st, line) == LineKind::Blank,
        step_state(m, st, line) == st,
{
    lemma_trim_all_space(line);
}

/// A line that both opens a block comment and closes it (its first
/// matching start delimiter's end delimiter ends the line) is exactly one
/// comment line, and the block state does not persist past it.
pub proof fn lemma_one_line_block(m: SyntaxModel, line: Seq<u8>, j: int)
    requires
        m.wf(),
        trim_spec(line).len() > 0,
        first_start_match(m.starts, trim_spec(line)) == Some(j),
        0 <= j < m.ends.len(),
        m.ends[j].is_suffix_of(trim_spec(line)),
    ensures
        line_kind(m, BlockState::Normal, line) == LineKind::Comment,
        step_state(m, BlockState::Normal, line) == BlockState::Normal,
        scan_tally(m, BlockState::Normal, seq![line]) == (Tally {
            lines: 1,
            comments: 1,
            blanks: 0,
        }),
{
    lemma_first_start_match(m.starts, trim_spec(line));
    assert(line_kind(m, BlockState::Normal, line) == LineKind::Comment);
    assert(step_state(m, BlockState::Normal, line) == BlockState::Normal);
    let single = seq![line];
    assert(single[0] == line);
    assert(single.skip(1) =~= Seq::<Seq<u8>>::empty());
    assert(scan_tally(m, BlockState::Normal, single.skip(1)) == Tally::zero());
    assert(scan_tally(m, BlockState::Normal, single) == Tally::of_kind(LineKind::Comment).plus(
        Tally::zero(),
    ));
    assert(scan_tally(m, BlockState::Normal, single) =~= (Tally {
        lines: 1,
        comments: 1,
        blanks: 0,
    }));
}

/// A file consisting solely of non-blank single-line-comment lines (each
/// trimmed line starts with a single-line prefix and with no block-comment
/// start delimiter) tallies every line as a comment: no code, no blanks.
pub proof fn lemma_single_line_comment_file(m: SyntaxModel, lines: Seq<Seq<u8>>)
    requires
        m.wf(),
        forall|i: int| 0 <= i < lines.len() ==> trim_spec(#[trigger] lines[i]).len() > 0,
        forall|i: int|
            0 <= i < lines.len() ==> first_start_match(m.starts, trim_spec(#[trigger] lines[i]))
                is None,
        forall|i: int| 0 <= i < lines.len() ==> single_line_match(m, trim_spec(#[trigger] lines[i])),
    ensures
        scan_tally(m, BlockState::Normal, lines) == (Tally {
            lines: lines.len() as int,
            comments: lines.len() as int,
            blanks: 0,
        }),
    decreases lines.len(),
{
    if lines.len() == 0 {
        assert(scan_tally(m, BlockState::Normal, lines) =~= (Tally {
            lines: lines.len() as int,
            comments: lines.len() as int,
            blanks: 0,
        }));
    } else {
        assert(line_kind(m, BlockState::Normal, lines[0]) == LineKind::Comment);
        assert(step_state(m, BlockState::Normal, lines[0]) == BlockState::Normal);
        assert forall|i: int| 0 <= i < lines.skip(1).len() implies trim_spec(
            #[trigger] lines.skip(1)[i],
        ).len() > 0 && first_start_match(m.starts, trim_spec(lines.skip(1)[i])) is None
            && single_line_match(m, trim_spec(lines.skip(1)[i])) by {
            assert(lines.skip(1)[i] == lines[i + 1]);
        }
        lemma_single_line_comment_file(m, lines.skip(1));
        assert(scan_tally(m, BlockState::Normal, lines) =~= (Tally {
            lines: lines.len() as int,
            comments: lines.len() as int,
            blanks: 0,
        }));
    }
}

/// Every tally of a scan is consistent: each line adds one to the line
/// total and at most one of the comment and blank counts.
pub proof fn lemma_scan_tally_bounds(m: SyntaxModel, st: BlockState, lines: Seq<Seq<u8>>)
    ensures
        scan_tally(m, st, lines).lines == lines.len(),
        scan_tally(m, st, lines).comments >= 0,
        scan_tally(m, st, lines).blanks >= 0,
        scan_tally(m, st, lines).comments + scan_tally(m, st, lines).blanks <= lines.len(),
    decreases lines.len(),
{
    if lines.len() > 0 {
        lemma_scan_tally_bounds(m, step_state(m, st, lines[0]), lines.skip(1));
    }
}

} // verus!
