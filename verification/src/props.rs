//! Properties of the detection, each stated over the spec functions that
//! `detect_indent`'s contract is written in.

use crate::detect::{
    count_starting, indent_len_of, kind_char, lemma_indent_len_of,
    lemma_leading_run_len_bounds, lemma_scan_wf, leading_run_len, repeat_char, scan_lines,
    scan_of, spec_amount_of, spec_indent_of, spec_kind_of, starts_with_char, IndentKind,
};
use crate::lines::{lemma_lines_of_no_newline, lines_of};
use crate::usage::{
    bump, find_key, lemma_most_used_in_keys, most_used_spec, selection_state,
};
use vstd::prelude::*;

verus! {

/// Lines that never carry leading whitespace leave the scan where it
/// started: nothing measured, nothing recorded, an empty tally.
pub proof fn lemma_scan_all_zero(lines: Seq<Seq<char>>)
    requires
        forall|k: int| 0 <= k < lines.len() ==> indent_len_of(#[trigger] lines[k]) == 0,
    ensures
        scan_lines(lines) == (0int, None::<int>, Seq::<(int, int, int)>::empty()),
    decreases lines.len(),
{
    if lines.len() == 0 {
    } else {
        assert forall|k: int| 0 <= k < lines.drop_last().len() implies indent_len_of(
            #[trigger] lines.drop_last()[k],
        ) == 0 by {
            assert(lines.drop_last()[k] == lines[k]);
        }
        lemma_scan_all_zero(lines.drop_last());
        assert(indent_len_of(lines.last()) == 0);
    }
}

/// A document none of whose lines begins with a space or a tab — an empty
/// document included — detects to amount zero, no kind, and an empty indent
/// string.
pub proof fn lemma_no_leading_whitespace(text: Seq<char>)
    requires
        forall|k: int|
            0 <= k < lines_of(text).len() ==> !starts_with_char(
                #[trigger] lines_of(text)[k],
                ' ',
            ) && !starts_with_char(lines_of(text)[k], '\t'),
    ensures
        spec_amount_of(text) == 0,
        spec_kind_of(text) is None,
        spec_indent_of(text) == Seq::<char>::empty(),
{
    let lns = lines_of(text);
    assert forall|k: int| 0 <= k < lns.len() implies indent_len_of(#[trigger] lns[k]) == 0 by {
        lemma_indent_len_of(lns[k]);
    }
    lemma_scan_all_zero(lns);
    assert(selection_state(Seq::<(int, int, int)>::empty()) == (0int, 0int, 0int));
}

/// The detected amount is never negative.
pub proof fn lemma_amount_nonneg(text: Seq<char>)
    ensures
        spec_amount_of(text) >= 0,
{
    lemma_scan_wf(lines_of(text));
    lemma_most_used_in_keys(scan_of(text).2);
    if spec_amount_of(text) != 0 {
        let entries = scan_of(text).2;
        let j = choose|j: int|
            0 <= j < entries.len() && (#[trigger] entries[j]).0 == most_used_spec(entries);
        assert(entries[j].0 >= 1);
    }
}

/// A detected kind names the majority: spaces only when at least as many
/// lines begin with a space as with a tab, and tabs only when strictly more
/// lines begin with a tab than with a space — an exact tie favours spaces.
pub proof fn lemma_kind_majority(text: Seq<char>)
    ensures
        spec_kind_of(text) == Some(IndentKind::Space) ==> count_starting(lines_of(text), ' ')
            >= count_starting(lines_of(text), '\t'),
        spec_kind_of(text) == Some(IndentKind::Tab) ==> count_starting(lines_of(text), '\t')
            > count_starting(lines_of(text), ' '),
{
}

/// The detected unit is stable under repetition: detecting on the literal
/// indent string that detection itself returned — taken as a document of
/// that single line — yields the same amount, the same kind and the same
/// indent string again.
pub proof fn lemma_detect_stable(text: Seq<char>)
    ensures
        spec_amount_of(spec_indent_of(text)) == spec_amount_of(text),
        spec_kind_of(spec_indent_of(text)) == spec_kind_of(text),
        spec_indent_of(spec_indent_of(text)) == spec_indent_of(text),
{
    let a = spec_amount_of(text);
    let k = spec_kind_of(text);
    let u = spec_indent_of(text);
    lemma_amount_nonneg(text);
    if k is None {
        assert(u =~= Seq::<char>::empty());
        assert(lines_of(u) =~= Seq::<Seq<char>>::empty());
        assert(scan_lines(Seq::<Seq<char>>::empty()) == (
            0int,
            None::<int>,
            Seq::<(int, int, int)>::empty(),
        ));
        assert(selection_state(Seq::<(int, int, int)>::empty()) == (0int, 0int, 0int));
        assert(spec_amount_of(u) == 0);
    } else {
        let kk = match k {
            Some(kk) => kk,
            None => IndentKind::Space,
        };
        let c = kind_char(kk);
        assert(a >= 1);
        assert(u == repeat_char(c, a as nat));
        assert(u.len() == a);
        assert(forall|j: int| 0 <= j < u.len() ==> u[j] == c);
        assert(c == ' ' || c == '\t');
        lemma_lines_of_no_newline(u);
        let lns = seq![u];
        assert(lines_of(u) == lns);
        assert(lns.drop_last() =~= Seq::<Seq<char>>::empty());
        assert(lns.last() == u);
        assert(scan_lines(Seq::<Seq<char>>::empty()) == (
            0int,
            None::<int>,
            Seq::<(int, int, int)>::empty(),
        ));
        lemma_leading_run_len_bounds(u, c);
        let run = leading_run_len(u, c);
        assert(run == a) by {
            if run < a {
                assert(u[run] == c);
            }
        }
        assert(indent_len_of(u) == a);
        assert(find_key(Seq::<(int, int, int)>::empty(), a) == 0);
        let entries = seq![(a, 1int, 1int)];
        assert(bump(Seq::<(int, int, int)>::empty(), a) =~= entries);
        assert(scan_lines(lns).2 == entries);
        assert(entries.drop_last() =~= Seq::<(int, int, int)>::empty());
        assert(selection_state(Seq::<(int, int, int)>::empty()) == (0int, 0int, 0int));
        assert(selection_state(entries) == (a, 1int, 1int));
        assert(spec_amount_of(u) == a);
        assert(count_starting(Seq::<Seq<char>>::empty(), ' ') == 0);
        assert(count_starting(Seq::<Seq<char>>::empty(), '\t') == 0);
        assert(count_starting(lns, ' ') == if starts_with_char(u, ' ') {
            1int
        } else {
            0int
        });
        assert(count_starting(lns, '\t') == if starts_with_char(u, '\t') {
            1int
        } else {
            0int
        });
        assert(starts_with_char(u, c));
        if c == ' ' {
            assert(kk == IndentKind::Space);
            assert(spec_kind_of(u) == Some(IndentKind::Space));
        } else {
            assert(kk == IndentKind::Tab);
            assert(!starts_with_char(u, ' '));
            assert(spec_kind_of(u) == Some(IndentKind::Tab));
        }
        assert(spec_indent_of(u) == u);
    }
}

} // verus!
