use vstd::prelude::*;
use vstd::string::*;

verus! {

/// `pat` occurs in `hay` as a contiguous run of characters.
pub open spec fn has_substring(hay: Seq<char>, pat: Seq<char>) -> bool {
    exists|i: int|
        0 <= i && i + pat.len() <= hay.len() && #[trigger] hay.subrange(i, i + pat.len()) == pat
}

/// Does `pat` occur in `hay` starting at position `at`?
fn occurs_at(hay: &[char], pat: &[char], at: usize) -> (r: bool)
    requires
        at + pat@.len() <= hay@.len(),
    ensures
        r == (hay@.subrange(at as int, at + pat@.len()) == pat@),
{
    let m = pat.len();
    let mut j: usize = 0;
    while j < m
        invariant
            m == pat@.len(),
            hay@.len() == hay.len(),
            at + m <= hay@.len(),
            j <= m,
            forall|k: int| 0 <= k < j ==> hay@[at + k] == pat@[k],
        decreases m - j,
    {
        if hay[at + j] != pat[j] {
            assert(hay@.subrange(at as int, at + m)[j as int] != pat@[j as int]);
            return false;
        }
        j += 1;
    }
    assert(hay@.subrange(at as int, at + m) =~= pat@);
    true
}

/// Substring test on characters: true exactly when `pat` occurs somewhere in
/// `hay`. The empty pattern occurs in every text.
pub fn is_substring(hay: &[char], pat: &[char]) -> (r: bool)
    ensures
        r == has_substring(hay@, pat@),
{
    let n = hay.len();
    let m = pat.len();
    if m > n {
        return false;
    }
    let mut i: usize = 0;
    loop
        invariant
            n == hay@.len(),
            m == pat@.len(),
            m <= n,
            i <= n - m,
            forall|k: int| 0 <= k < i ==> #[trigger] hay@.subrange(k, k + pat@.len()) != pat@,
        decreases n - m - i,
    {
        if occurs_at(hay, pat, i) {
            return true;
        }
        if i == n - m {
            return false;
        }
        i += 1;
    }
}

/// Index of the first newline in `s`, or `s.len()` when there is none.
pub open spec fn newline_index(s: Seq<char>) -> int
    decreases s.len(),
{
    if s.len() == 0 {
        0
    } else if s[0] == '\n' {
        0
    } else {
        1 + newline_index(s.drop_first())
    }
}

/// A line that ended in a newline loses one carriage return before it.
pub open spec fn strip_cr(line: Seq<char>) -> Seq<char> {
    if line.len() > 0 && line.last() == '\r' {
        line.drop_last()
    } else {
        line
    }
}

/// The lines of a text: pieces separated by `\n`, each with a `\r` that stood
/// right before its `\n` removed. A last piece without a newline is a line
/// too (kept as it is), and a text that ends in a newline has no empty line
/// after it; the empty text has no lines.
pub open spec fn lines_of(s: Seq<char>) -> Seq<Seq<char>>
    decreases s.len(),
{
    if s.len() == 0 {
        Seq::empty()
    } else {
        let k = newline_index(s);
        proof {
            lemma_newline_index(s);
        }
        if k == s.len() {
            seq![s]
        } else {
            seq![strip_cr(s.take(k))] + lines_of(s.skip(k + 1))
        }
    }
}

/// `newline_index` points at the first newline of `s`, or at its end.
pub proof fn lemma_newline_index(s: Seq<char>)
    ensures
        0 <= newline_index(s) <= s.len(),
        newline_index(s) < s.len() ==> s[newline_index(s)] == '\n',
        forall|j: int| 0 <= j < newline_index(s) ==> s[j] != '\n',
    decreases s.len(),
{
    if s.len() > 0 && s[0] != '\n' {
        lemma_newline_index(s.drop_first());
        assert forall|j: int| 0 <= j < newline_index(s) implies s[j] != '\n' by {
            if j > 0 {
                assert(s[j] == s.drop_first()[j - 1]);
            }
        }
    }
}

/// The first newline of `s` at or after `from` stands at `to` (or there is
/// none and `to` is the end): then the first newline of the rest is at
/// `to - from`.
proof fn lemma_newline_index_of_rest(s: Seq<char>, from: int, to: int)
    requires
        0 <= from <= to <= s.len(),
        forall|j: int| from <= j < to ==> s[j] != '\n',
        to == s.len() || s[to] == '\n',
    ensures
        newline_index(s.skip(from)) == to - from,
    decreases to - from,
{
    if from < to {
        lemma_newline_index_of_rest(s, from + 1, to);
        assert(s.skip(from).drop_first() =~= s.skip(from + 1));
    }
}

/// The characters of `s`, in order.
pub fn chars_of(s: &str) -> (r: Vec<char>)
    ensures
        r@ == s@,
{
    let mut r: Vec<char> = Vec::new();
    for c in it: s.chars()
        invariant
            it.seq() == s@,
            r@ == it.seq().take(it.index() as int),
    {
        r.push(c);
    }
    r
}

/// Splits `text` into its lines (see `lines_of`). Each line is a slice of
/// `text`, not a copy.
pub fn split_lines<'a>(text: &'a str) -> (r: Vec<&'a str>)
    ensures
        r@.len() == lines_of(text@).len(),
        forall|i: int| 0 <= i < r@.len() ==> #[trigger] r@[i]@ == lines_of(text@)[i],
{
    let cs = chars_of(text);
    let n = cs.len();
    let mut r: Vec<&'a str> = Vec::new();
    let mut start: usize = 0;
    let ghost mut done: Seq<Seq<char>> = Seq::empty();
    proof {
        assert(text@.skip(0) =~= text@);
        assert(done + lines_of(text@) =~= lines_of(text@));
    }
    while start < n
        invariant
            cs@ == text@,
            n == cs@.len(),
            start <= n,
            lines_of(text@) == done + lines_of(text@.skip(start as int)),
            r@.len() == done.len(),
            forall|i: int| 0 <= i < r@.len() ==> #[trigger] r@[i]@ == done[i],
        decreases n - start,
    {
        let mut end: usize = start;
        while end < n && cs[end] != '\n'
            invariant
                n == cs@.len(),
                start <= end <= n,
                forall|j: int| start <= j < end ==> cs@[j] != '\n',
            decreases n - end,
        {
            end += 1;
        }
        let ghost rest = text@.skip(start as int);
        proof {
            lemma_newline_index_of_rest(text@, start as int, end as int);
        }
        let mut stop: usize = end;
        if end < n && end > start && cs[end - 1] == '\r' {
            stop = end - 1;
        }
        let line = text.substring_char(start, stop);
        proof {
            if end == n {
                assert(rest.take(end - start) =~= rest);
            } else {
                assert(rest.skip(end - start + 1) =~= text@.skip(end + 1));
                assert(rest.take(end - start) =~= text@.subrange(start as int, end as int));
            }
            assert(line@ == lines_of(rest)[0]);
            done = done.push(line@);
        }
        r.push(line);
        if end == n {
            start = n;
        } else {
            start = end + 1;
        }
        proof {
            if end == n {
                assert(text@.skip(n as int) =~= Seq::<char>::empty());
            }
            assert(lines_of(text@) == done + lines_of(text@.skip(start as int)));
        }
    }
    proof {
        assert(text@.skip(n as int) =~= Seq::<char>::empty());
        assert(done =~= lines_of(text@));
    }
    r
}

/// The lowercase mapping of one character, as `char::to_lowercase` yields it.
pub uninterp spec fn lowercase_of(c: char) -> Seq<char>;

/// Lowercases a text one character at a time: the same rule for every
/// character, whatever stands around it.
pub open spec fn lower_seq(s: Seq<char>) -> Seq<char>
    decreases s.len(),
{
    if s.len() == 0 {
        Seq::empty()
    } else {
        lower_seq(s.drop_last()) + lowercase_of(s.last())
    }
}

/// Lowercasing distributes over concatenation.
pub proof fn lemma_lower_seq_concat(a: Seq<char>, b: Seq<char>)
    ensures
        lower_seq(a + b) == lower_seq(a) + lower_seq(b),
    decreases b.len(),
{
    if b.len() == 0 {
        assert(a + b =~= a);
        assert(lower_seq(a) + lower_seq(b) =~= lower_seq(a));
    } else {
        lemma_lower_seq_concat(a, b.drop_last());
        assert((a + b).drop_last() =~= a + b.drop_last());
        assert(lower_seq(a + b) =~= lower_seq(a) + lower_seq(b));
    }
}

/// Relies on `char::to_lowercase`: the characters of the lowercase mapping of
/// `c`, which depend on `c` alone.
#[verifier::external_body]
fn lower_char(c: char) -> (r: Vec<char>)
    ensures
        r@ == lowercase_of(c),
{
    c.to_lowercase().collect()
}

/// The lowercase form of `s`, character by character.
pub fn lowercase(s: &str) -> (r: Vec<char>)
    ensures
        r@ == lower_seq(s@),
{
    let cs = chars_of(s);
    let mut r: Vec<char> = Vec::new();
    let mut i: usize = 0;
    while i < cs.len()
        invariant
            cs@ == s@,
            i <= cs@.len(),
            r@ == lower_seq(s@.take(i as int)),
        decreases cs@.len() - i,
    {
        let mut low = lower_char(cs[i]);
        proof {
            assert(s@.take(i + 1).drop_last() =~= s@.take(i as int));
        }
        r.append(&mut low);
        i += 1;
    }
    proof {
        assert(s@.take(i as int) =~= s@);
    }
    r
}

} // verus!
