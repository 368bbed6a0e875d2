//! The search engine: the lines of a document that contain a query.

use vstd::prelude::*;
use vstd::string::StringExecFns;
use crate::lines::{lines_of, split_lines};
use crate::text::{chars_of, contains_chars, contains_seq};

verus! {

/// The result of `str::to_lowercase`, as a function of the characters alone.
pub uninterp spec fn lower_of(s: Seq<char>) -> Seq<char>;

/// Relies on `str::to_lowercase`: the lowercased text depends on the
/// characters of `s` alone.
#[verifier::external_body]
fn to_lower(s: &str) -> (r: String)
    ensures
        r@ == lower_of(s@),
{
    s.to_lowercase()
}

/// Holds of the lines that contain `q` exactly.
pub open spec fn line_matches(q: Seq<char>) -> spec_fn(Seq<char>) -> bool {
    |l: Seq<char>| contains_seq(l, q)
}

/// Holds of the lines that contain `q` once both are lowercased.
pub open spec fn ci_line_matches(q: Seq<char>) -> spec_fn(Seq<char>) -> bool {
    |l: Seq<char>| contains_seq(lower_of(l), lower_of(q))
}

/// The lines of `d` that contain `q` exactly, in document order.
pub open spec fn matching_lines(q: Seq<char>, d: Seq<char>) -> Seq<Seq<char>> {
    lines_of(d).filter(line_matches(q))
}

/// The lines of `d` that contain `q` lowercased, in document order.
pub open spec fn ci_matching_lines(q: Seq<char>, d: Seq<char>) -> Seq<Seq<char>> {
    lines_of(d).filter(ci_line_matches(q))
}

/// What a search returns under the chosen case policy.
pub open spec fn search_spec(q: Seq<char>, d: Seq<char>, ignore_case: bool) -> Seq<Seq<char>> {
    if ignore_case {
        ci_matching_lines(q, d)
    } else {
        matching_lines(q, d)
    }
}

/// The lines of `contents` that contain `query` exactly, in order.
pub fn search<'a>(query: &str, contents: &'a str) -> (r: Vec<&'a str>)
    ensures
        r.deep_view() == matching_lines(query@, contents@),
{
    let q = chars_of(query);
    let lines = split_lines(contents);
    let mut r: Vec<&'a str> = Vec::new();
    proof {
        assert(lines.deep_view().take(0) =~= Seq::<Seq<char>>::empty());
        reveal(Seq::filter);
        assert(r.deep_view() =~= lines.deep_view().take(0).filter(line_matches(query@)));
    }
    let mut i: usize = 0;
    while i < lines.len()
        invariant
            i <= lines@.len(),
            lines.deep_view() == lines_of(contents@),
            q@ == query@,
            r.deep_view() == lines.deep_view().take(i as int).filter(line_matches(query@)),
        decreases lines@.len() - i,
    {
        let lc = chars_of(lines[i]);
        let ghost r_before = r.deep_view();
        if contains_chars(&lc, &q) {
            r.push(lines[i]);
        }
        proof {
            let dv = lines.deep_view();
            assert(dv.take(i + 1).drop_last() =~= dv.take(i as int));
            assert(dv.take(i + 1).last() == dv[i as int]);
            assert(dv[i as int] == lines@[i as int]@);
            reveal(Seq::filter);
            if contains_seq(dv[i as int], query@) {
                assert(r.deep_view() =~= r_before.push(dv[i as int]));
            }
            assert(r.deep_view() =~= dv.take(i + 1).filter(line_matches(query@)));
        }
        i = i + 1;
    }
    proof {
        assert(lines.deep_view().take(lines@.len() as int) =~= lines.deep_view());
    }
    r
}

/// The lines of `contents` that contain `query` once both sides are
/// lowercased, in order.
pub fn search_case_insensitive<'a>(query: &str, contents: &'a str) -> (r: Vec<&'a str>)
    ensures
        r.deep_view() == ci_matching_lines(query@, contents@),
{
    let lq = to_lower(query);
    let q = chars_of(lq.as_str());
    let lines = split_lines(contents);
    let mut r: Vec<&'a str> = Vec::new();
    proof {
        assert(lines.deep_view().take(0) =~= Seq::<Seq<char>>::empty());
        reveal(Seq::filter);
        assert(r.deep_view() =~= lines.deep_view().take(0).filter(ci_line_matches(query@)));
    }
    let mut i: usize = 0;
    while i < lines.len()
        invariant
            i <= lines@.len(),
            lines.deep_view() == lines_of(contents@),
            q@ == lower_of(query@),
            r.deep_view() == lines.deep_view().take(i as int).filter(ci_line_matches(query@)),
        decreases lines@.len() - i,
    {
        let ll = to_lower(lines[i]);
        let lc = chars_of(ll.as_str());
        let ghost r_before = r.deep_view();
        if contains_chars(&lc, &q) {
            r.push(lines[i]);
        }
        proof {
            let dv = lines.deep_view();
            assert(dv.take(i + 1).drop_last() =~= dv.take(i as int));
            assert(dv.take(i + 1).last() == dv[i as int]);
            assert(dv[i as int] == lines@[i as int]@);
            reveal(Seq::filter);
            if contains_seq(lower_of(dv[i as int]), lower_of(query@)) {
                assert(r.deep_view() =~= r_before.push(dv[i as int]));
            }
            assert(r.deep_view() =~= dv.take(i + 1).filter(ci_line_matches(query@)));
        }
        i = i + 1;
    }
    proof {
        assert(lines.deep_view().take(lines@.len() as int) =~= lines.deep_view());
    }
    r
}

/// The indices, in increasing order, of the lines of which `pred` holds.
pub open spec fn selected_indices(lines: Seq<Seq<char>>, pred: spec_fn(Seq<char>) -> bool) -> Seq<
    int,
>
    decreases lines.len(),
{
    if lines.len() == 0 {
        Seq::empty()
    } else if pred(lines.last()) {
        selected_indices(lines.drop_last(), pred).push(lines.len() - 1)
    } else {
        selected_indices(lines.drop_last(), pred)
    }
}

/// `res` consists exactly of the lines of which `pred` holds, at the
/// positions `idx`, kept in increasing order; no such line is left out.
pub open spec fn selection_of(
    lines: Seq<Seq<char>>,
    pred: spec_fn(Seq<char>) -> bool,
    res: Seq<Seq<char>>,
    idx: Seq<int>,
) -> bool {
    &&& res.len() == idx.len()
    &&& (forall|k: int| 0 <= k < idx.len() ==> 0 <= #[trigger] idx[k] < lines.len())
    &&& (forall|k: int| 0 <= k < idx.len() ==> res[k] == lines[#[trigger] idx[k]])
    &&& (forall|k: int| 0 <= k < idx.len() ==> pred(lines[#[trigger] idx[k]]))
    &&& (forall|k1: int, k2: int|
        0 <= k1 < k2 < idx.len() ==> #[trigger] idx[k1] < #[trigger] idx[k2])
    &&& (forall|j: int| 0 <= j < lines.len() && pred(#[trigger] lines[j]) ==> idx.contains(j))
}

/// Filtering a sequence of lines keeps exactly the lines the predicate
/// holds of, in their original order.
pub proof fn lemma_filter_selection(lines: Seq<Seq<char>>, pred: spec_fn(Seq<char>) -> bool)
    ensures
        selection_of(lines, pred, lines.filter(pred), selected_indices(lines, pred)),
    decreases lines.len(),
{
    reveal(Seq::filter);
    if lines.len() > 0 {
        let sub = lines.drop_last();
        lemma_filter_selection(sub, pred);
        let subres = sub.filter(pred);
        let subidx = selected_indices(sub, pred);
        let res = lines.filter(pred);
        let idx = selected_indices(lines, pred);
        assert(forall|j: int| 0 <= j < sub.len() ==> sub[j] == lines[j]);
        assert forall|j: int| 0 <= j < lines.len() && pred(#[trigger] lines[j]) implies idx.contains(
            j,
        ) by {
            if j < lines.len() - 1 {
                assert(subidx.contains(j));
                let k = choose|k: int| 0 <= k < subidx.len() && subidx[k] == j;
                assert(idx[k] == j);
            } else {
                assert(idx[idx.len() - 1] == j);
            }
        }
    }
}

/// Every returned line contains the query; every line of the document that
/// contains the query is returned; the returned lines keep the document's
/// order. `selection_of` states all three through the index sequence.
pub proof fn lemma_search_exact(q: Seq<char>, d: Seq<char>)
    ensures
        selection_of(
            lines_of(d),
            line_matches(q),
            matching_lines(q, d),
            selected_indices(lines_of(d), line_matches(q)),
        ),
        forall|k: int|
            0 <= k < matching_lines(q, d).len() ==> contains_seq(
                #[trigger] matching_lines(q, d)[k],
                q,
            ),
        forall|j: int|
            0 <= j < lines_of(d).len() && contains_seq(#[trigger] lines_of(d)[j], q)
                ==> matching_lines(q, d).contains(lines_of(d)[j]),
{
    lemma_filter_selection(lines_of(d), line_matches(q));
    let lines = lines_of(d);
    let idx = selected_indices(lines, line_matches(q));
    let res = matching_lines(q, d);
    assert forall|j: int|
        0 <= j < lines.len() && contains_seq(#[trigger] lines[j], q) implies res.contains(
        lines[j],
    ) by {
        assert(idx.contains(j));
        let k = choose|k: int| 0 <= k < idx.len() && idx[k] == j;
        assert(res[k] == lines[j]);
    }
}

/// The same, for the case-insensitive policy: a line is kept exactly when
/// its lowercased text contains the lowercased query.
pub proof fn lemma_search_case_insensitive_exact(q: Seq<char>, d: Seq<char>)
    ensures
        selection_of(
            lines_of(d),
            ci_line_matches(q),
            ci_matching_lines(q, d),
            selected_indices(lines_of(d), ci_line_matches(q)),
        ),
        forall|k: int|
            0 <= k < ci_matching_lines(q, d).len() ==> contains_seq(
                lower_of(#[trigger] ci_matching_lines(q, d)[k]),
                lower_of(q),
            ),
{
    lemma_filter_selection(lines_of(d), ci_line_matches(q));
}

/// A predicate that holds wherever a weaker one does keeps at least as
/// many lines through a filter.
proof fn lemma_filter_len_monotone(
    s: Seq<Seq<char>>,
    narrow: spec_fn(Seq<char>) -> bool,
    wide: spec_fn(Seq<char>) -> bool,
)
    requires
        forall|x: Seq<char>| #[trigger] s.contains(x) && narrow(x) ==> wide(x),
    ensures
        s.filter(narrow).len() <= s.filter(wide).len(),
    decreases s.len(),
{
    reveal(Seq::filter);
    if s.len() > 0 {
        let sub = s.drop_last();
        assert forall|x: Seq<char>| #[trigger] sub.contains(x) && narrow(x) implies wide(x) by {
            let j = choose|j: int| 0 <= j < sub.len() && sub[j] == x;
            assert(s[j] == x);
            assert(s.contains(x));
        }
        lemma_filter_len_monotone(sub, narrow, wide);
        assert(s[s.len() - 1] == s.last());
        assert(s.contains(s.last()));
    }
}

/// The case-insensitive search matches at least as many lines as the
/// exact search, on every document whose exact matches survive
/// lowercasing. The hypothesis leaves out exactly the lines on which a
/// context-sensitive folding breaks an exact match.
pub proof fn lemma_case_insensitive_superset(q: Seq<char>, d: Seq<char>)
    requires
        forall|l: Seq<char>|
            #[trigger] lines_of(d).contains(l) && contains_seq(l, q) ==> contains_seq(
                lower_of(l),
                lower_of(q),
            ),
    ensures
        matching_lines(q, d).len() <= ci_matching_lines(q, d).len(),
{
    lemma_filter_len_monotone(lines_of(d), line_matches(q), ci_line_matches(q));
}

/// Searching is deterministic: two results of a search with the same
/// query, document and case policy are the same sequence of lines.
pub proof fn lemma_search_idempotent(
    q: Seq<char>,
    d: Seq<char>,
    ignore_case: bool,
    r1: Seq<Seq<char>>,
    r2: Seq<Seq<char>>,
)
    requires
        r1 == search_spec(q, d, ignore_case),
        r2 == search_spec(q, d, ignore_case),
    ensures
        r1 == r2,
{
}

/// An empty document yields an empty result, whatever the query and the
/// case policy.
pub proof fn lemma_empty_document(q: Seq<char>, ignore_case: bool)
    ensures
        search_spec(q, Seq::empty(), ignore_case) == Seq::<Seq<char>>::empty(),
{
    reveal(Seq::filter);
    assert(lines_of(Seq::empty()) == Seq::<Seq<char>>::empty());
}

/// The search under the configured case policy.
pub fn search_lines<'a>(query: &str, contents: &'a str, ignore_case: bool) -> (r: Vec<&'a str>)
    ensures
        r.deep_view() == search_spec(query@, contents@, ignore_case),
{
    if ignore_case {
        search_case_insensitive(query, contents)
    } else {
        search(query, contents)
    }
}

} // verus!
