//! The indent kinds and the detection core.
//!
//! Detection scans the document's lines in order, measuring the leading
//! whitespace run of each non-empty line, and records the absolute
//! difference between consecutive measurements as a candidate indent width
//! in a tally; a line whose measurement did not change speaks again for the
//! width last recorded. The most used width becomes the amount, and the kind
//! is spaces or tabs according to which begins more lines, a tie favouring
//! spaces.

use crate::lines::{chars_of, line_views, lines_of, split_lines};
use crate::usage::{bump, counters_below, most_used, most_used_spec, UsageMap};
use vstd::prelude::*;
use vstd::string::StringExecFns;

verus! {

/// The two indentation characters a document can be indented with.
#[derive(Debug, PartialEq, Eq, Clone, Copy, Structural)]
pub enum IndentKind {
    Space,
    Tab,
}

/// The canonical single character of an indent kind.
pub open spec fn kind_char(kind: IndentKind) -> char {
    match kind {
        IndentKind::Space => ' ',
        IndentKind::Tab => '\t',
    }
}

/// The sequence made of `n` copies of the character `c`.
pub open spec fn repeat_char(c: char, n: nat) -> Seq<char> {
    Seq::new(n, |i: int| c)
}

impl IndentKind {
    /// A string of `times` repetitions of this kind's canonical character.
    pub fn repeat(&self, times: usize) -> (r: String)
        ensures
            r@ == repeat_char(kind_char(*self), times as nat),
            r@.len() == times,
    {
        let unit: &str = match *self {
            IndentKind::Space => " ",
            IndentKind::Tab => "\t",
        };
        proof {
            reveal_strlit(" ");
            reveal_strlit("\t");
            assert(unit@ =~= seq![kind_char(*self)]);
        }
        let mut s = String::new();
        let mut i: usize = 0;
        while i < times
            invariant
                i <= times,
                unit@ =~= seq![kind_char(*self)],
                s@ =~= repeat_char(kind_char(*self), i as nat),
            decreases times - i,
        {
            s.append(unit);
            i = i + 1;
            proof {
                assert(s@ =~= repeat_char(kind_char(*self), i as nat));
            }
        }
        s
    }
}

/// The length of the run of copies of `c` at the start of `line`.
pub open spec fn leading_run_len(line: Seq<char>, c: char) -> int
    decreases line.len(),
{
    if line.len() == 0 || line[0] != c {
        0
    } else {
        1 + leading_run_len(line.drop_first(), c)
    }
}

/// The measured leading whitespace of a line: the length of the run of the
/// character that begins it, when that character is a space or a tab, and
/// zero otherwise. Mixed leading whitespace is measured only up to the first
/// character unlike the one the line begins with.
pub open spec fn indent_len_of(line: Seq<char>) -> int {
    if line.len() == 0 {
        0
    } else if line[0] == ' ' {
        leading_run_len(line, ' ')
    } else if line[0] == '\t' {
        leading_run_len(line, '\t')
    } else {
        0
    }
}

/// Whether `line` begins with the character `c`.
pub open spec fn starts_with_char(line: Seq<char>, c: char) -> bool {
    line.len() > 0 && line[0] == c
}

/// How many of `lines` begin with the character `c`.
pub open spec fn count_starting(lines: Seq<Seq<char>>, c: char) -> int
    decreases lines.len(),
{
    if lines.len() == 0 {
        0
    } else {
        count_starting(lines.drop_last(), c) + if starts_with_char(lines.last(), c) {
            1int
        } else {
            0int
        }
    }
}

/// One step of the detection scan: the running state is the previous
/// measured indent, the width last recorded, and the tally. An empty line is
/// skipped whole; any other line records the absolute change of the measured
/// indent when there is one, and otherwise speaks again for the width last
/// recorded, if any.
pub open spec fn scan_step(
    st: (int, Option<int>, Seq<(int, int, int)>),
    line: Seq<char>,
) -> (int, Option<int>, Seq<(int, int, int)>) {
    if line.len() == 0 {
        st
    } else {
        let ind = indent_len_of(line);
        let diff = ind - st.0;
        if diff != 0 {
            let key = if diff >= 0 {
                diff
            } else {
                -diff
            };
            (ind, Some(key), bump(st.2, key))
        } else {
            match st.1 {
                Some(key) => (ind, st.1, bump(st.2, key)),
                None => (ind, None, st.2),
            }
        }
    }
}

/// The detection scan over `lines`, started from no indent seen.
pub open spec fn scan_lines(lines: Seq<Seq<char>>) -> (int, Option<int>, Seq<(int, int, int)>)
    decreases lines.len(),
{
    if lines.len() == 0 {
        (0, None, Seq::empty())
    } else {
        scan_step(scan_lines(lines.drop_last()), lines.last())
    }
}

/// The detection scan over the lines of the document `text`.
pub open spec fn scan_of(text: Seq<char>) -> (int, Option<int>, Seq<(int, int, int)>) {
    scan_lines(lines_of(text))
}

/// The detected amount: the most used candidate width of the scan's tally.
pub open spec fn spec_amount_of(text: Seq<char>) -> int {
    most_used_spec(scan_of(text).2)
}

/// The detected kind: none when no amount was detected, and otherwise spaces
/// or tabs according to which begins more lines, a tie favouring spaces.
pub open spec fn spec_kind_of(text: Seq<char>) -> Option<IndentKind> {
    if spec_amount_of(text) == 0 {
        None
    } else if count_starting(lines_of(text), ' ') >= count_starting(lines_of(text), '\t') {
        Some(IndentKind::Space)
    } else {
        Some(IndentKind::Tab)
    }
}

/// The detected literal indent string: the detected kind's character
/// repeated the detected amount of times, empty when no kind was detected.
pub open spec fn spec_indent_of(text: Seq<char>) -> Seq<char> {
    match spec_kind_of(text) {
        None => Seq::empty(),
        Some(k) => repeat_char(kind_char(k), spec_amount_of(text) as nat),
    }
}

/// The leading run is an initial segment of the line: everything before it
/// is the run's character, the character at its end is not, and a line
/// beginning with `c` has a run of at least one.
pub proof fn lemma_leading_run_len_bounds(line: Seq<char>, c: char)
    ensures
        0 <= leading_run_len(line, c) <= line.len(),
        forall|j: int| 0 <= j < leading_run_len(line, c) ==> line[j] == c,
        leading_run_len(line, c) < line.len() ==> line[leading_run_len(line, c)] != c,
        line.len() > 0 && line[0] == c ==> leading_run_len(line, c) >= 1,
    decreases line.len(),
{
    if line.len() == 0 || line[0] != c {
    } else {
        lemma_leading_run_len_bounds(line.drop_first(), c);
        assert forall|j: int| 0 <= j < leading_run_len(line, c) implies line[j] == c by {
            if j > 0 {
                assert(line.drop_first()[j - 1] == c);
            }
        }
        if leading_run_len(line, c) < line.len() {
            assert(line[leading_run_len(line, c)] == line.drop_first()[leading_run_len(
                line.drop_first(),
                c,
            )]);
        }
    }
}

/// The measured indent lies within the line; it is positive exactly when the
/// line begins with a space or a tab.
pub proof fn lemma_indent_len_of(line: Seq<char>)
    ensures
        0 <= indent_len_of(line) <= line.len(),
        indent_len_of(line) > 0 <==> (line.len() > 0 && (line[0] == ' ' || line[0] == '\t')),
{
    if line.len() > 0 && line[0] == ' ' {
        lemma_leading_run_len_bounds(line, ' ');
    }
    if line.len() > 0 && line[0] == '\t' {
        lemma_leading_run_len_bounds(line, '\t');
    }
}

/// At most all of the lines begin with `c`.
pub proof fn lemma_count_starting_bounds(lines: Seq<Seq<char>>, c: char)
    ensures
        0 <= count_starting(lines, c) <= lines.len(),
    decreases lines.len(),
{
    if lines.len() == 0 {
    } else {
        lemma_count_starting_bounds(lines.drop_last(), c);
    }
}

/// Every entry of the scan's tally is well formed: its width is positive,
/// its counters are equal, and each counter is at least one and at most the
/// number of lines scanned.
pub open spec fn entries_wf(entries: Seq<(int, int, int)>, bound: int) -> bool {
    forall|j: int|
        0 <= j < entries.len() ==> {
            let e = #[trigger] entries[j];
            1 <= e.0 && 1 <= e.1 <= bound && e.2 == e.1
        }
}

/// Recording a positive width keeps the tally well formed, with room for
/// the one counter that grew.
pub proof fn lemma_bump_wf(entries: Seq<(int, int, int)>, key: int, bound: int)
    requires
        entries_wf(entries, bound),
        key >= 1,
        bound >= 0,
    ensures
        entries_wf(bump(entries, key), bound + 1),
{
    crate::usage::lemma_find_key_bounds(entries, key);
}

/// The scan's state is well formed: the previous measurement is
/// non-negative, a recorded width is positive, and the tally's entries are
/// well formed with counters bounded by the number of lines.
pub proof fn lemma_scan_wf(lines: Seq<Seq<char>>)
    ensures
        scan_lines(lines).0 >= 0,
        match scan_lines(lines).1 {
            Some(k) => k >= 1,
            None => true,
        },
        entries_wf(scan_lines(lines).2, lines.len() as int),
    decreases lines.len(),
{
    if lines.len() == 0 {
    } else {
        lemma_scan_wf(lines.drop_last());
        let st = scan_lines(lines.drop_last());
        let line = lines.last();
        let prior: int = lines.len() - 1;
        assert(entries_wf(st.2, prior));
        lemma_indent_len_of(line);
        if line.len() == 0 {
            assert(entries_wf(st.2, prior + 1));
        } else {
            let ind = indent_len_of(line);
            let diff = ind - st.0;
            if diff != 0 {
                let key = if diff >= 0 {
                    diff
                } else {
                    -diff
                };
                lemma_bump_wf(st.2, key, prior);
            } else {
                match st.1 {
                    Some(key) => {
                        lemma_bump_wf(st.2, key, prior);
                    },
                    None => {
                        assert(entries_wf(st.2, prior + 1));
                    },
                }
            }
        }
    }
}

/// The measured leading whitespace of the line held in `line`.
pub(crate) fn leading_run(line: &Vec<char>) -> (r: usize)
    ensures
        r as int == indent_len_of(line@),
{
    if line.len() == 0 {
        return 0;
    }
    let c = line[0];
    if c != ' ' && c != '\t' {
        return 0;
    }
    let mut i: usize = 1;
    while i < line.len() && line[i] == c
        invariant
            line@.len() >= 1,
            c == line@[0],
            c == ' ' || c == '\t',
            1 <= i <= line@.len(),
            forall|j: int| 0 <= j < i as int ==> line@[j] == c,
        decreases line@.len() - i,
    {
        i = i + 1;
    }
    proof {
        lemma_leading_run_len_bounds(line@, c);
        let run = leading_run_len(line@, c);
        if run < i as int {
            assert(line@[run] == c);
        } else if run > i as int {
            assert(line@[i as int] == c);
        }
    }
    i
}

/// A detected indentation convention: the repeat count of one level, the
/// literal string of one level, and the character kind, absent when no
/// indentation was detected.
#[derive(Debug, PartialEq)]
pub struct Indent {
    amount: usize,
    indent: String,
    kind: Option<IndentKind>,
}

impl Indent {
    /// The repeat count of one indentation level.
    pub closed spec fn spec_amount(&self) -> usize {
        self.amount
    }

    /// The characters of the literal indent string of one level.
    pub closed spec fn spec_indent(&self) -> Seq<char> {
        self.indent@
    }

    /// The detected character kind.
    pub closed spec fn spec_kind(&self) -> Option<IndentKind> {
        self.kind
    }

    /// The three fields agree: without a kind the amount is zero and the
    /// string empty; with one the amount is positive and the string is the
    /// kind's character repeated that many times.
    pub open spec fn wf(&self) -> bool {
        match self.spec_kind() {
            None => self.spec_amount() == 0 && self.spec_indent() == Seq::<char>::empty(),
            Some(k) => self.spec_amount() > 0 && self.spec_indent() == repeat_char(
                kind_char(k),
                self.spec_amount() as nat,
            ),
        }
    }

    pub fn amount(&self) -> (r: usize)
        ensures
            r == self.spec_amount(),
    {
        self.amount
    }

    pub fn indent(&self) -> (r: &str)
        ensures
            r@ == self.spec_indent(),
    {
        self.indent.as_str()
    }

    pub fn kind(&self) -> (r: Option<IndentKind>)
        ensures
            r == self.spec_kind(),
    {
        self.kind
    }
}

/// Detects the dominant indentation convention of `string`. Total over all
/// inputs: an empty document, or one whose lines never change their leading
/// whitespace, yields amount zero, an empty indent string and no kind.
pub fn detect_indent(string: &str) -> (r: Indent)
    ensures
        r.spec_amount() as int == spec_amount_of(string@),
        r.spec_kind() == spec_kind_of(string@),
        r.spec_indent() == spec_indent_of(string@),
        r.wf(),
{
    let chars = chars_of(string);
    let lines = split_lines(&chars);
    let ghost lv = line_views(lines@);
    let n = lines.len();

    let mut spaces: usize = 0;
    let mut tabs: usize = 0;
    let mut indents = UsageMap::new();
    let mut prev: usize = 0;
    let mut current: Option<usize> = None;

    let mut li: usize = 0;
    proof {
        assert(lv.take(0) =~= Seq::<Seq<char>>::empty());
        assert(indents@ =~= scan_lines(lv.take(0)).2);
    }
    while li < n
        invariant
            n == lines@.len(),
            li <= n,
            lv == line_views(lines@),
            lv == lines_of(string@),
            spaces as int == count_starting(lv.take(li as int), ' '),
            tabs as int == count_starting(lv.take(li as int), '\t'),
            prev as int == scan_lines(lv.take(li as int)).0,
            match (current, scan_lines(lv.take(li as int)).1) {
                (Some(k), Some(ks)) => k as int == ks,
                (None, None) => true,
                _ => false,
            },
            indents@ == scan_lines(lv.take(li as int)).2,
        decreases n - li,
    {
        let ghost i0 = li as int;
        let ghost st0 = scan_lines(lv.take(i0));
        proof {
            assert(lv.take(i0 + 1).drop_last() =~= lv.take(i0));
            assert(lv.take(i0 + 1).last() == lv[i0]);
            lemma_scan_wf(lv.take(i0));
            lemma_count_starting_bounds(lv.take(i0), ' ');
            lemma_count_starting_bounds(lv.take(i0), '\t');
            assert(lv.take(i0).len() == i0);
        }
        let line = &lines[li];
        proof {
            assert(line@ == lv[i0]);
            lemma_indent_len_of(line@);
        }
        if line.len() > 0 {
            let ind = leading_run(line);
            if ind > 0 {
                if line[0] == ' ' {
                    spaces = spaces + 1;
                } else {
                    tabs = tabs + 1;
                }
            }
            if ind != prev {
                let key = if ind >= prev {
                    ind - prev
                } else {
                    prev - ind
                };
                current = Some(key);
                proof {
                    assert(counters_below(indents@, usize::MAX - 1));
                }
                indents.record(key);
            } else {
                if let Some(k) = current {
                    proof {
                        assert(counters_below(indents@, usize::MAX - 1));
                    }
                    indents.record(k);
                }
            }
            prev = ind;
        }
        li = li + 1;
        proof {
            assert(scan_lines(lv.take(i0 + 1)) == scan_step(st0, lv[i0]));
            assert(prev as int == scan_lines(lv.take(li as int)).0);
            assert(indents@ == scan_lines(lv.take(li as int)).2);
            assert(spaces as int == count_starting(lv.take(li as int), ' '));
            assert(tabs as int == count_starting(lv.take(li as int), '\t'));
        }
    }
    proof {
        assert(lv.take(n as int) =~= lv);
    }
    let amount = most_used(&indents);
    let (kind, indent): (Option<IndentKind>, String) = if amount == 0 {
        (None, String::new())
    } else if spaces >= tabs {
        (Some(IndentKind::Space), IndentKind::Space.repeat(amount))
    } else {
        (Some(IndentKind::Tab), IndentKind::Tab.repeat(amount))
    };
    let r = Indent { amount, indent, kind };
    proof {
        assert(r.spec_indent() == spec_indent_of(string@));
    }
    r
}

} // verus!
