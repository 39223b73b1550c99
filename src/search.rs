use vstd::prelude::*;
use crate::config::Config;
use crate::text::{chars_of, has_substring, is_substring, lines_of, lower_seq, lowercase, split_lines};

verus! {

/// The contents of a sequence of slices.
pub open spec fn views<'a>(v: Seq<&'a str>) -> Seq<Seq<char>> {
    v.map_values(|l: &'a str| l@)
}

/// Holds of a line that contains `query`.
pub open spec fn contains_query(query: Seq<char>) -> spec_fn(Seq<char>) -> bool {
    |l: Seq<char>| has_substring(l, query)
}

/// Holds of a line whose lowercase form contains `folded_query`.
pub open spec fn contains_folded_query(folded_query: Seq<char>) -> spec_fn(Seq<char>) -> bool {
    |l: Seq<char>| has_substring(lower_seq(l), folded_query)
}

/// The lines among `ls` that contain `query`.
pub open spec fn keep_containing(ls: Seq<Seq<char>>, query: Seq<char>) -> Seq<Seq<char>> {
    ls.filter(contains_query(query))
}

/// The lines among `ls` whose lowercase form contains `folded_query`.
pub open spec fn keep_containing_folded(ls: Seq<Seq<char>>, folded_query: Seq<char>) -> Seq<
    Seq<char>,
> {
    ls.filter(contains_folded_query(folded_query))
}

/// The lines of `text` that contain `query`, in the order of `text`.
pub open spec fn matching_lines(query: Seq<char>, text: Seq<char>) -> Seq<Seq<char>> {
    keep_containing(lines_of(text), query)
}

/// The lines of `text` that contain `query` once both are lowercased, in the
/// order of `text` and as they stand there.
pub open spec fn matching_lines_ignoring_case(query: Seq<char>, text: Seq<char>) -> Seq<
    Seq<char>,
> {
    keep_containing_folded(lines_of(text), lower_seq(query))
}

/// Every line of `contents` that contains `query`, in order, each once. The
/// lines are slices of `contents`.
pub fn search<'a>(query: &str, contents: &'a str) -> (r: Vec<&'a str>)
    ensures
        views(r@) == matching_lines(query@, contents@),
{
    let q = chars_of(query);
    let lines = split_lines(contents);
    let ghost ls = lines_of(contents@);
    let mut r: Vec<&'a str> = Vec::new();
    let mut i: usize = 0;
    while i < lines.len()
        invariant
            q@ == query@,
            lines@.len() == ls.len(),
            forall|k: int| 0 <= k < lines@.len() ==> #[trigger] lines@[k]@ == ls[k],
            i <= lines@.len(),
            views(r@) == keep_containing(ls.take(i as int), query@),
        decreases lines@.len() - i,
    {
        let line = lines[i];
        let cs = chars_of(line);
        let hit = is_substring(cs.as_slice(), q.as_slice());
        proof {
            assert(ls.take(i + 1) =~= ls.take(i as int).push(ls[i as int]));
            ls.take(i as int).lemma_filter_push(ls[i as int], contains_query(query@));
        }
        if hit {
            r.push(line);
        }
        proof {
            assert(views(r@) =~= keep_containing(ls.take(i + 1), query@));
        }
        i += 1;
    }
    proof {
        assert(ls.take(i as int) =~= ls);
    }
    r
}

/// Every line of `contents` whose lowercase form contains the lowercase form
/// of `query`, in order, each once. The lines are returned as they stand in
/// `contents`, not lowercased.
pub fn search_case_insensitive<'a>(query: &str, contents: &'a str) -> (r: Vec<&'a str>)
    ensures
        views(r@) == matching_lines_ignoring_case(query@, contents@),
{
    let q = lowercase(query);
    let lines = split_lines(contents);
    let ghost ls = lines_of(contents@);
    let ghost lq = lower_seq(query@);
    let mut r: Vec<&'a str> = Vec::new();
    let mut i: usize = 0;
    while i < lines.len()
        invariant
            q@ == lq,
            lines@.len() == ls.len(),
            forall|k: int| 0 <= k < lines@.len() ==> #[trigger] lines@[k]@ == ls[k],
            i <= lines@.len(),
            views(r@) == keep_containing_folded(ls.take(i as int), lq),
        decreases lines@.len() - i,
    {
        let line = lines[i];
        let low = lowercase(line);
        let hit = is_substring(low.as_slice(), q.as_slice());
        proof {
            assert(ls.take(i + 1) =~= ls.take(i as int).push(ls[i as int]));
            ls.take(i as int).lemma_filter_push(ls[i as int], contains_folded_query(lq));
        }
        if hit {
            r.push(line);
        }
        proof {
            assert(views(r@) =~= keep_containing_folded(ls.take(i + 1), lq));
        }
        i += 1;
    }
    proof {
        assert(ls.take(i as int) =~= ls);
    }
    r
}

/// The matches that `config` asks for in `contents`: ignoring case when the
/// configuration says so, exactly otherwise.
pub fn search_with<'a>(config: &Config, contents: &'a str) -> (r: Vec<&'a str>)
    ensures
        views(r@) == if config.case_insensitive {
            matching_lines_ignoring_case(config.query@, contents@)
        } else {
            matching_lines(config.query@, contents@)
        },
{
    if config.case_insensitive {
        search_case_insensitive(config.query.as_str(), contents)
    } else {
        search(config.query.as_str(), contents)
    }
}

} // verus!
