//! Splitting a document into lines.
//!
//! A document is split at every line feed; each line excludes its terminator,
//! and a carriage return immediately before a line feed is dropped with it.
//! A final segment after the last line feed is a line only when it is
//! non-empty, so a trailing line feed does not produce a spurious empty line.

use vstd::prelude::*;
use vstd::string::StrSliceExecFns;

verus! {

/// The index of the first line feed in `s`, or `s.len()` when there is none.
pub open spec fn first_nl(s: Seq<char>) -> int
    decreases s.len(),
{
    if s.len() == 0 {
        0
    } else if s[0] == '\n' {
        0
    } else {
        1 + first_nl(s.drop_first())
    }
}

/// `line` without a final carriage return, if it carries one.
pub open spec fn strip_cr(line: Seq<char>) -> Seq<char> {
    if line.len() > 0 && line.last() == '\r' {
        line.drop_last()
    } else {
        line
    }
}

/// The lines of a document, split as described in the module documentation.
pub open spec fn lines_of(s: Seq<char>) -> Seq<Seq<char>>
    decreases s.len(),
{
    if s.len() == 0 {
        Seq::empty()
    } else {
        let i = first_nl(s);
        if 0 <= i && i < s.len() {
            seq![strip_cr(s.take(i))] + lines_of(s.skip(i + 1))
        } else {
            seq![s]
        }
    }
}

/// `first_nl` lies within the document and names the first line feed:
/// nothing before it is a line feed, and the character there is one.
pub proof fn lemma_first_nl_bounds(s: Seq<char>)
    ensures
        0 <= first_nl(s) <= s.len(),
        forall|j: int| 0 <= j < first_nl(s) ==> s[j] != '\n',
        first_nl(s) < s.len() ==> s[first_nl(s)] == '\n',
    decreases s.len(),
{
    if s.len() == 0 {
    } else if s[0] == '\n' {
    } else {
        lemma_first_nl_bounds(s.drop_first());
        assert forall|j: int| 0 <= j < first_nl(s) implies s[j] != '\n' by {
            if j > 0 {
                assert(s.drop_first()[j - 1] != '\n');
            }
        }
        if first_nl(s) < s.len() {
            assert(s[first_nl(s)] == s.drop_first()[first_nl(s.drop_first())]);
        }
    }
}

/// A position before which no line feed occurs, and at which one occurs or
/// the document ends, is exactly `first_nl`.
pub proof fn lemma_first_nl_unique(s: Seq<char>, k: int)
    requires
        0 <= k <= s.len(),
        forall|j: int| 0 <= j < k ==> s[j] != '\n',
        k < s.len() ==> s[k] == '\n',
    ensures
        first_nl(s) == k,
{
    lemma_first_nl_bounds(s);
    if first_nl(s) < k {
        assert(s[first_nl(s)] != '\n');
    } else if first_nl(s) > k {
        assert(s[k] != '\n');
    }
}

/// Splitting distributes over concatenation at a line boundary: when `a` is
/// empty or ends with a line feed, the lines of `a + b` are the lines of `a`
/// followed by the lines of `b`.
pub proof fn lemma_lines_of_concat(a: Seq<char>, b: Seq<char>)
    requires
        a.len() == 0 || a.last() == '\n',
    ensures
        lines_of(a + b) == lines_of(a) + lines_of(b),
    decreases a.len(),
{
    if a.len() == 0 {
        assert(a + b =~= b);
        assert(lines_of(a + b) =~~= lines_of(a) + lines_of(b));
    } else {
        lemma_first_nl_bounds(a);
        let i = first_nl(a);
        assert(i < a.len()) by {
            if i == a.len() {
                assert(a[a.len() - 1] != '\n');
            }
        }
        lemma_first_nl_unique(a + b, i);
        assert((a + b).take(i) =~= a.take(i));
        assert((a + b).skip(i + 1) =~= a.skip(i + 1) + b);
        let rest = a.skip(i + 1);
        if rest.len() > 0 {
            assert(rest.last() == a.last());
        }
        lemma_lines_of_concat(rest, b);
        assert(lines_of(a + b) =~~= lines_of(a) + lines_of(b));
    }
}

/// A non-empty document without a line feed is one line, kept as it stands.
pub proof fn lemma_lines_of_no_newline(s: Seq<char>)
    requires
        s.len() > 0,
        forall|j: int| 0 <= j < s.len() ==> s[j] != '\n',
    ensures
        lines_of(s) == seq![s],
{
    lemma_first_nl_unique(s, s.len() as int);
}

/// A line-feed-terminated segment is one line, with a final carriage return
/// stripped.
pub proof fn lemma_lines_of_terminated_line(cur: Seq<char>)
    requires
        forall|j: int| 0 <= j < cur.len() ==> cur[j] != '\n',
    ensures
        lines_of(cur + seq!['\n']) == seq![strip_cr(cur)],
{
    let s = cur + seq!['\n'];
    assert(s[cur.len() as int] == '\n');
    lemma_first_nl_unique(s, cur.len() as int);
    assert(s.take(cur.len() as int) =~= cur);
    assert(s.skip(cur.len() as int + 1) =~= Seq::<char>::empty());
    assert(lines_of(Seq::<char>::empty()) =~= Seq::<Seq<char>>::empty());
    assert(lines_of(s) =~~= seq![strip_cr(cur)]);
}

/// The views of a sequence of character vectors.
pub open spec fn line_views(lines: Seq<Vec<char>>) -> Seq<Seq<char>> {
    Seq::new(lines.len(), |k: int| lines[k]@)
}

/// The characters of `s`, in order, as a vector.
pub(crate) fn chars_of(s: &str) -> (r: Vec<char>)
    ensures
        r@ == s@,
{
    let n = s.unicode_len();
    let mut v: Vec<char> = Vec::new();
    let mut i: usize = 0;
    proof {
        assert(v@ =~= s@.take(0));
    }
    while i < n
        invariant
            n == s@.len(),
            i <= n,
            v@ == s@.take(i as int),
        decreases n - i,
    {
        let c = s.get_char(i);
        v.push(c);
        i = i + 1;
        proof {
            assert(v@ =~= s@.take(i as int));
        }
    }
    proof {
        assert(v@ =~= s@);
    }
    v
}

/// The lines of the document held in `chars`, as vectors of characters.
pub(crate) fn split_lines(chars: &Vec<char>) -> (r: Vec<Vec<char>>)
    ensures
        line_views(r@) == lines_of(chars@),
{
    let n = chars.len();
    let mut lines: Vec<Vec<char>> = Vec::new();
    let mut cur: Vec<char> = Vec::new();
    let ghost mut p: int = 0;
    let mut i: usize = 0;
    proof {
        assert(cur@ =~= chars@.subrange(0, 0));
        assert(line_views(lines@) =~~= lines_of(chars@.take(0)));
    }
    while i < n
        invariant
            n == chars@.len(),
            i <= n,
            0 <= p <= i as int,
            cur@ == chars@.subrange(p, i as int),
            forall|j: int| 0 <= j < cur@.len() ==> cur@[j] != '\n',
            p == 0 || chars@[p - 1] == '\n',
            line_views(lines@) == lines_of(chars@.take(p)),
        decreases n - i,
    {
        let c = chars[i];
        if c == '\n' {
            let ghost cur0 = cur@;
            let ghost lines0 = lines@;
            proof {
                if p > 0 {
                    assert(chars@.take(p).last() == chars@[p - 1]);
                }
                lemma_lines_of_concat(chars@.take(p), cur0 + seq!['\n']);
                lemma_lines_of_terminated_line(cur0);
                assert(chars@.take(p) + (cur0 + seq!['\n']) =~= chars@.take(i + 1));
            }
            if cur.len() > 0 && cur[cur.len() - 1] == '\r' {
                let _dropped = cur.pop();
            }
            proof {
                assert(cur@ =~= strip_cr(cur0));
            }
            lines.push(cur);
            cur = Vec::new();
            proof {
                p = i + 1;
                assert(line_views(lines@) =~~= line_views(lines0).push(strip_cr(cur0)));
                assert(line_views(lines@) =~~= lines_of(chars@.take(p)));
                assert(cur@ =~= chars@.subrange(p, i + 1));
            }
        } else {
            cur.push(c);
            proof {
                assert(cur@ =~= chars@.subrange(p, i + 1));
            }
        }
        i = i + 1;
    }
    if cur.len() > 0 {
        let ghost cur0 = cur@;
        let ghost lines0 = lines@;
        proof {
            if p > 0 {
                assert(chars@.take(p).last() == chars@[p - 1]);
            }
            lemma_lines_of_concat(chars@.take(p), cur0);
            lemma_lines_of_no_newline(cur0);
            assert(chars@.take(p) + cur0 =~= chars@);
        }
        lines.push(cur);
        proof {
            assert(line_views(lines@) =~~= line_views(lines0).push(cur0));
            assert(line_views(lines@) =~~= lines_of(chars@));
        }
    } else {
        proof {
            assert(chars@.take(p) =~= chars@);
            assert(line_views(lines@) == lines_of(chars@));
        }
    }
    lines
}

} // verus!
