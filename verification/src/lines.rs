//! Splitting a document into lines.
//!
//! A line ends at a line feed; a carriage return directly before the line
//! feed belongs to the terminator and is dropped. A final line needs no
//! terminator, and a document that ends with a terminator has no extra
//! empty line after it. An empty document has no lines at all.

use vstd::prelude::*;
use vstd::string::StrSliceExecFns;
use crate::text::chars_of;

verus! {

/// Index of the first line feed in `s`, or `s.len()` if there is none.
pub open spec fn first_newline(s: Seq<char>) -> int
    decreases s.len(),
{
    if s.len() == 0 {
        0
    } else if s[0] == '\n' {
        0
    } else {
        1 + first_newline(s.subrange(1, s.len() as int))
    }
}

/// `first_newline` points at the first line feed, or past the end.
pub proof fn lemma_first_newline(s: Seq<char>)
    ensures
        0 <= first_newline(s) <= s.len(),
        forall|k: int| 0 <= k < first_newline(s) ==> s[k] != '\n',
        first_newline(s) < s.len() ==> s[first_newline(s)] == '\n',
    decreases s.len(),
{
    if s.len() != 0 && s[0] != '\n' {
        let t = s.subrange(1, s.len() as int);
        lemma_first_newline(t);
        assert forall|k: int| 0 <= k < first_newline(s) implies s[k] != '\n' by {
            if k > 0 {
                assert(t[k - 1] == s[k]);
            }
        }
        if first_newline(s) < s.len() {
            assert(t[first_newline(s) - 1] == s[first_newline(s)]);
        }
    }
}

/// A line without its trailing carriage return, if it has one.
pub open spec fn strip_cr(l: Seq<char>) -> Seq<char> {
    if l.len() > 0 && l[l.len() - 1] == '\r' {
        l.subrange(0, l.len() - 1)
    } else {
        l
    }
}

/// The lines of `s`, in order, without their terminators.
pub open spec fn lines_of(s: Seq<char>) -> Seq<Seq<char>>
    decreases s.len(),
    via lines_of_decreases
{
    if s.len() == 0 {
        Seq::empty()
    } else if first_newline(s) == s.len() {
        seq![s]
    } else {
        seq![strip_cr(s.subrange(0, first_newline(s)))] + lines_of(
            s.subrange(first_newline(s) + 1, s.len() as int),
        )
    }
}

#[via_fn]
proof fn lines_of_decreases(s: Seq<char>) {
    lemma_first_newline(s);
}

/// `lines_of` at a document whose first line feed stands at `i`.
pub proof fn lemma_lines_of_split(s: Seq<char>, i: int)
    requires
        0 <= i < s.len(),
        s[i] == '\n',
        forall|k: int| 0 <= k < i ==> s[k] != '\n',
    ensures
        lines_of(s) == seq![strip_cr(s.subrange(0, i))] + lines_of(
            s.subrange(i + 1, s.len() as int),
        ),
{
    lemma_first_newline(s);
    let f = first_newline(s);
    if f < i {
        assert(s[f] != '\n');
    }
    if f > i {
        assert(s[i] != '\n');
    }
    assert(f == i);
}

/// `lines_of` at a document without a line feed.
pub proof fn lemma_lines_of_whole(s: Seq<char>)
    requires
        s.len() > 0,
        forall|k: int| 0 <= k < s.len() ==> s[k] != '\n',
    ensures
        lines_of(s) == seq![s],
{
    lemma_first_newline(s);
    let f = first_newline(s);
    if f < s.len() {
        assert(s[f] != '\n');
    }
    assert(f == s.len());
}

/// The lines of `contents`, in order, as slices of it.
pub fn split_lines<'a>(contents: &'a str) -> (r: Vec<&'a str>)
    ensures
        r.deep_view() == lines_of(contents@),
{
    let n = contents.unicode_len();
    let cs = chars_of(contents);
    let mut r: Vec<&'a str> = Vec::new();
    proof {
        assert(contents@.subrange(0, n as int) =~= contents@);
        assert(r.deep_view() =~= Seq::<Seq<char>>::empty());
        assert(r.deep_view() + lines_of(contents@) =~= lines_of(contents@));
    }
    let mut start: usize = 0;
    let mut pos: usize = 0;
    while pos < n
        invariant
            n == contents@.len(),
            cs@ == contents@,
            start <= pos <= n,
            lines_of(contents@) == r.deep_view() + lines_of(
                contents@.subrange(start as int, n as int),
            ),
            forall|k: int| start <= k < pos ==> contents@[k] != '\n',
        decreases n - pos,
    {
        if cs[pos] == '\n' {
            let line_end = if pos > start && cs[pos - 1] == '\r' {
                pos - 1
            } else {
                pos
            };
            let line = contents.substring_char(start, line_end);
            proof {
                let ghost t = contents@.subrange(start as int, n as int);
                let ghost i = pos - start;
                assert forall|k: int| 0 <= k < i implies t[k] != '\n' by {
                    assert(t[k] == contents@[start + k]);
                }
                assert(t[i as int] == contents@[pos as int]);
                lemma_lines_of_split(t, i as int);
                assert(t.subrange(0, i as int) =~= contents@.subrange(start as int, pos as int));
                assert(t.subrange(i + 1, t.len() as int) =~= contents@.subrange(
                    pos + 1,
                    n as int,
                ));
                assert(line@ =~= strip_cr(t.subrange(0, i as int)));
            }
            let ghost r_before = r.deep_view();
            r.push(line);
            proof {
                assert(r.deep_view() =~= r_before.push(line@));
                assert(r_before.push(line@) =~= r_before + seq![line@]);
                let ghost t = contents@.subrange(start as int, n as int);
                assert(r.deep_view() + lines_of(contents@.subrange(pos + 1, n as int)) =~= r_before
                    + lines_of(t));
            }
            start = pos + 1;
        }
        pos = pos + 1;
    }
    if start < n {
        let line = contents.substring_char(start, n);
        proof {
            let ghost t = contents@.subrange(start as int, n as int);
            assert forall|k: int| 0 <= k < t.len() implies t[k] != '\n' by {
                assert(t[k] == contents@[start + k]);
            }
            lemma_lines_of_whole(t);
            assert(line@ == t);
        }
        let ghost r_before = r.deep_view();
        r.push(line);
        proof {
            assert(r.deep_view() =~= r_before.push(line@));
            assert(r_before.push(line@) =~= r_before + seq![line@]);
        }
    } else {
        proof {
            assert(contents@.subrange(start as int, n as int).len() == 0);
            assert(r.deep_view() + lines_of(contents@.subrange(start as int, n as int)) =~= r
                .deep_view());
        }
    }
    r
}

} // verus!
