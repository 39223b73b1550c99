use vstd::prelude::*;
use crate::search::{
    contains_folded_query, contains_query, keep_containing, matching_lines,
    matching_lines_ignoring_case,
};
use crate::text::{has_substring, lemma_lower_seq_concat, lines_of, lower_seq};

verus! {

/// `sel` is what `pred` keeps of `ls`, found at the increasing positions
/// `idx` of `ls`: each kept item once, in the order of `ls`.
pub open spec fn is_ordered_selection(
    sel: Seq<Seq<char>>,
    ls: Seq<Seq<char>>,
    pred: spec_fn(Seq<char>) -> bool,
    idx: Seq<int>,
) -> bool {
    &&& idx.len() == sel.len()
    &&& forall|k: int| 0 <= k < idx.len() ==> 0 <= #[trigger] idx[k] < ls.len() && sel[k] == ls[idx[k]]
    &&& forall|k1: int, k2: int| 0 <= k1 < k2 < idx.len() ==> idx[k1] < idx[k2]
    &&& forall|j: int|
        0 <= j < ls.len() && pred(#[trigger] ls[j]) ==> exists|k: int|
            0 <= k < idx.len() && idx[k] == j
}

/// Positions in `ls` of the items that `pred` keeps, in increasing order.
proof fn filter_positions(ls: Seq<Seq<char>>, pred: spec_fn(Seq<char>) -> bool) -> (idx: Seq<int>)
    ensures
        is_ordered_selection(ls.filter(pred), ls, pred, idx),
    decreases ls.len(),
{
    reveal(Seq::filter);
    if ls.len() == 0 {
        Seq::empty()
    } else {
        let init = ls.drop_last();
        let prev = filter_positions(init, pred);
        let n = ls.len() - 1;
        let idx = if pred(ls.last()) {
            prev.push(n)
        } else {
            prev
        };
        assert forall|j: int| 0 <= j < ls.len() && pred(#[trigger] ls[j]) implies exists|k: int|
            0 <= k < idx.len() && idx[k] == j by {
            if j == n {
                assert(idx[prev.len() as int] == j);
            } else {
                assert(pred(init[j]));
                let k = choose|k: int| 0 <= k < prev.len() && prev[k] == j;
                assert(idx[k] == j);
            }
        }
        idx
    }
}

/// Exact search keeps precisely the lines that contain the query: every line
/// it returns contains the query and is a line of the text, and the lines of
/// the text that contain the query come out once each, in their order, at
/// increasing positions of the text.
pub proof fn lemma_search_selects_containing_lines(query: Seq<char>, text: Seq<char>)
    ensures
        forall|k: int|
            0 <= k < matching_lines(query, text).len() ==> has_substring(
                #[trigger] matching_lines(query, text)[k],
                query,
            ),
        exists|idx: Seq<int>|
            #[trigger] is_ordered_selection(
                matching_lines(query, text),
                lines_of(text),
                contains_query(query),
                idx,
            ),
{
    broadcast use vstd::seq_lib::group_filter_ensures;

    let ls = lines_of(text);
    let idx = filter_positions(ls, contains_query(query));
    assert(is_ordered_selection(matching_lines(query, text), ls, contains_query(query), idx));
    assert forall|k: int| 0 <= k < matching_lines(query, text).len() implies has_substring(
        #[trigger] matching_lines(query, text)[k],
        query,
    ) by {
        assert(contains_query(query)(ls.filter(contains_query(query))[k]));
    }
}

/// A line that contains the query also contains it once both are lowercased.
pub proof fn lemma_containment_survives_lowercasing(line: Seq<char>, query: Seq<char>)
    requires
        has_substring(line, query),
    ensures
        has_substring(lower_seq(line), lower_seq(query)),
{
    let i = choose|i: int|
        0 <= i && i + query.len() <= line.len() && #[trigger] line.subrange(i, i + query.len())
            == query;
    let a = line.subrange(0, i);
    let b = line.subrange(i + query.len(), line.len() as int);
    assert(line =~= a + query + b);
    lemma_lower_seq_concat(a + query, b);
    lemma_lower_seq_concat(a, query);
    let low = lower_seq(line);
    let at = lower_seq(a).len() as int;
    assert(low.subrange(at, at + lower_seq(query).len()) =~= lower_seq(query));
}

/// Filtering by a stronger condition after a weaker one is filtering by the
/// stronger one alone.
proof fn lemma_filter_within(
    ls: Seq<Seq<char>>,
    strong: spec_fn(Seq<char>) -> bool,
    weak: spec_fn(Seq<char>) -> bool,
)
    requires
        forall|l: Seq<char>| #[trigger] strong(l) ==> weak(l),
    ensures
        ls.filter(weak).filter(strong) == ls.filter(strong),
    decreases ls.len(),
{
    if ls.len() > 0 {
        let init = ls.drop_last();
        lemma_filter_within(init, strong, weak);
        assert(ls =~= init.push(ls.last()));
        init.lemma_filter_push(ls.last(), weak);
        init.lemma_filter_push(ls.last(), strong);
        init.filter(weak).lemma_filter_push(ls.last(), strong);
    } else {
        reveal(Seq::filter);
    }
}

/// Case-insensitive search finds every line that exact search finds: keeping
/// from its result the lines that contain the query exactly gives the result
/// of exact search. Every line it returns is a line of the text as it stands,
/// not lowercased.
pub proof fn lemma_case_insensitive_extends_exact(query: Seq<char>, text: Seq<char>)
    ensures
        keep_containing(matching_lines_ignoring_case(query, text), query) == matching_lines(
            query,
            text,
        ),
        forall|k: int|
            0 <= k < matching_lines_ignoring_case(query, text).len() ==> lines_of(text).contains(
                #[trigger] matching_lines_ignoring_case(query, text)[k],
            ),
{
    broadcast use vstd::seq_lib::group_filter_ensures;

    let ls = lines_of(text);
    let strong = contains_query(query);
    let weak = contains_folded_query(lower_seq(query));
    assert forall|l: Seq<char>| #[trigger] strong(l) implies weak(l) by {
        lemma_containment_survives_lowercasing(l, query);
    }
    lemma_filter_within(ls, strong, weak);
    assert forall|k: int| 0 <= k < ls.filter(weak).len() implies ls.contains(
        #[trigger] ls.filter(weak)[k],
    ) by {
        assert(ls.filter(weak).contains(ls.filter(weak)[k]));
        ls.lemma_filter_contains_rev(weak, ls.filter(weak)[k]);
    }
}

/// Both searches depend on the contents of their arguments alone: two calls
/// with equal query and text give equal results, in the same order.
pub proof fn lemma_search_is_deterministic(
    query1: Seq<char>,
    text1: Seq<char>,
    query2: Seq<char>,
    text2: Seq<char>,
)
    requires
        query1 == query2,
        text1 == text2,
    ensures
        matching_lines(query1, text1) == matching_lines(query2, text2),
        matching_lines_ignoring_case(query1, text1) == matching_lines_ignoring_case(query2, text2),
{
}

/// Keeping what a condition that always holds keeps leaves the lines as they are.
proof fn lemma_filter_all(ls: Seq<Seq<char>>, pred: spec_fn(Seq<char>) -> bool)
    requires
        forall|l: Seq<char>| #[trigger] pred(l),
    ensures
        ls.filter(pred) == ls,
    decreases ls.len(),
{
    if ls.len() > 0 {
        let init = ls.drop_last();
        lemma_filter_all(init, pred);
        assert(ls =~= init.push(ls.last()));
        init.lemma_filter_push(ls.last(), pred);
    } else {
        reveal(Seq::filter);
    }
}

/// The empty query matches every line, in both searches.
pub proof fn lemma_empty_query_matches_every_line(text: Seq<char>)
    ensures
        matching_lines(Seq::empty(), text) == lines_of(text),
        matching_lines_ignoring_case(Seq::empty(), text) == lines_of(text),
{
    let e = Seq::<char>::empty();
    assert(lower_seq(e) =~= e);
    assert forall|l: Seq<char>| #[trigger] contains_query(e)(l) by {
        assert(l.subrange(0int, 0int + e.len()) =~= e);
        assert(has_substring(l, e));
    }
    assert forall|l: Seq<char>| #[trigger] contains_folded_query(e)(l) by {
        assert(lower_seq(l).subrange(0int, 0int + e.len()) =~= e);
        assert(has_substring(lower_seq(l), e));
    }
    lemma_filter_all(lines_of(text), contains_query(e));
    lemma_filter_all(lines_of(text), contains_folded_query(e));
}

/// The empty text has no lines, so neither search finds anything in it.
pub proof fn lemma_empty_text_has_no_matches(query: Seq<char>)
    ensures
        matching_lines(query, Seq::empty()) == Seq::<Seq<char>>::empty(),
        matching_lines_ignoring_case(query, Seq::empty()) == Seq::<Seq<char>>::empty(),
{
    reveal(Seq::filter);
}

} // verus!
