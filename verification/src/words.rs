//! Words, pieces and joins: the `split_whitespace`, `split`, `trim_matches` and `join`
//! shapes the title code is built from, on the `Seq<char>` view of a string.

use vstd::prelude::*;
use crate::text::{alphanumeric, is_alphanumeric, is_whitespace, white_space};

verus! {

/// Where the word starting at `i` ends: the next whitespace, or the end.
pub open spec fn word_end(s: Seq<char>, i: int) -> int
    decreases s.len() - i,
{
    if i < 0 || i >= s.len() || white_space(s[i]) {
        i
    } else {
        word_end(s, i + 1)
    }
}

pub proof fn lemma_word_end(s: Seq<char>, i: int)
    requires
        0 <= i <= s.len(),
    ensures
        i <= word_end(s, i) <= s.len(),
        forall|k: int| i <= k < word_end(s, i) ==> !white_space(#[trigger] s[k]),
        word_end(s, i) < s.len() ==> white_space(s[word_end(s, i)]),
    decreases s.len() - i,
{
    if i < s.len() && !white_space(s[i]) {
        lemma_word_end(s, i + 1);
    }
}

/// `str::split_whitespace` from index `i` on: the maximal runs of non-whitespace.
pub open spec fn words_from(s: Seq<char>, i: int) -> Seq<Seq<char>>
    decreases s.len() - i,
{
    if i < 0 || i >= s.len() {
        seq![]
    } else if white_space(s[i]) {
        words_from(s, i + 1)
    } else {
        let e = word_end(s, i + 1);
        if e <= i || e > s.len() {
            seq![]
        } else {
            seq![s.subrange(i, e)] + words_from(s, e)
        }
    }
}

pub open spec fn words(s: Seq<char>) -> Seq<Seq<char>> {
    words_from(s, 0)
}

/// The bounds of the words of `s`, in order.
pub fn word_bounds(s: &Vec<char>) -> (r: Vec<(usize, usize)>)
    ensures
        r@.len() == words(s@).len(),
        forall|k: int|
            0 <= k < r@.len() ==> {
                &&& (#[trigger] r@[k]).0 < r@[k].1 <= s.len()
                &&& s@.subrange(r@[k].0 as int, r@[k].1 as int) == words(s@)[k]
            },
{
    let mut r: Vec<(usize, usize)> = Vec::new();
    let mut i: usize = 0;
    while i < s.len()
        invariant
            i <= s.len(),
            r@.len() + words_from(s@, i as int).len() == words(s@).len(),
            forall|k: int|
                0 <= k < r@.len() ==> {
                    &&& (#[trigger] r@[k]).0 < r@[k].1 <= i
                    &&& s@.subrange(r@[k].0 as int, r@[k].1 as int) == words(s@)[k]
                },
            forall|k: int|
                0 <= k < words_from(s@, i as int).len() ==> #[trigger] words_from(
                    s@,
                    i as int,
                )[k] == words(s@)[r@.len() + k],
        decreases s.len() - i,
    {
        if is_whitespace(s[i]) {
            i += 1;
        } else {
            let start = i;
            i += 1;
            while i < s.len() && !is_whitespace(s[i])
                invariant
                    start < i <= s.len(),
                    word_end(s@, start + 1) == word_end(s@, i as int),
                decreases s.len() - i,
            {
                i += 1;
            }
            proof {
                lemma_word_end(s@, start + 1);
                let ws = words_from(s@, start as int);
                assert(ws == seq![s@.subrange(start as int, i as int)] + words_from(s@, i as int));
                assert(ws[0] == s@.subrange(start as int, i as int));
                assert forall|k: int| 0 <= k < words_from(s@, i as int).len() implies
                    #[trigger] words_from(s@, i as int)[k] == words(s@)[r@.len() + 1 + k] by {
                    assert(ws[k + 1] == words_from(s@, i as int)[k]);
                }
            }
            r.push((start, i));
        }
    }
    r
}

/// `str::split` with a predicate: every character satisfying `sep` ends one piece and
/// starts the next, empty pieces included.
pub open spec fn split_by(s: Seq<char>, sep: spec_fn(char) -> bool) -> Seq<Seq<char>>
    decreases s.len(),
{
    if s.len() == 0 {
        seq![Seq::<char>::empty()]
    } else {
        let prev = split_by(s.drop_last(), sep);
        if sep(s.last()) {
            prev.push(Seq::<char>::empty())
        } else {
            prev.update(prev.len() - 1, prev.last().push(s.last()))
        }
    }
}

pub proof fn lemma_split_by_nonempty(s: Seq<char>, sep: spec_fn(char) -> bool)
    ensures
        split_by(s, sep).len() >= 1,
    decreases s.len(),
{
    if s.len() > 0 {
        lemma_split_by_nonempty(s.drop_last(), sep);
    }
}

pub open spec fn not_alnum() -> spec_fn(char) -> bool {
    |c: char| !alphanumeric(c)
}

/// The pieces of `s` between non-alphanumeric characters, as bounds into `s`.
pub fn alnum_pieces(s: &Vec<char>) -> (r: Vec<(usize, usize)>)
    ensures
        r@.len() == split_by(s@, not_alnum()).len(),
        forall|k: int|
            0 <= k < r@.len() ==> {
                &&& (#[trigger] r@[k]).0 <= r@[k].1 <= s.len()
                &&& s@.subrange(r@[k].0 as int, r@[k].1 as int) == split_by(s@, not_alnum())[k]
            },
{
    let mut r: Vec<(usize, usize)> = Vec::new();
    let mut start: usize = 0;
    let mut i: usize = 0;
    while i < s.len()
        invariant
            start <= i <= s.len(),
            r@.len() + 1 == split_by(s@.take(i as int), not_alnum()).len(),
            forall|k: int|
                0 <= k < r@.len() ==> {
                    &&& (#[trigger] r@[k]).0 <= r@[k].1 <= i
                    &&& s@.subrange(r@[k].0 as int, r@[k].1 as int) == split_by(
                        s@.take(i as int),
                        not_alnum(),
                    )[k]
                },
            s@.subrange(start as int, i as int) == split_by(s@.take(i as int), not_alnum()).last(),
        decreases s.len() - i,
    {
        let ghost before = s@.take(i as int);
        let ghost after = s@.take(i + 1);
        assert(after.drop_last() =~= before);
        proof {
            lemma_split_by_nonempty(before, not_alnum());
        }
        if !is_alphanumeric(s[i]) {
            r.push((start, i));
            start = i + 1;
            assert(s@.subrange(start as int, i + 1) =~= Seq::<char>::empty());
        } else {
            assert(s@.subrange(start as int, i + 1) =~= s@.subrange(start as int, i as int).push(
                s@[i as int],
            ));
        }
        i += 1;
    }
    assert(s@.take(s@.len() as int) =~= s@);
    r.push((start, s.len()));
    r
}

/// `trim_start_matches` with a predicate.
pub open spec fn strip_start_by(s: Seq<char>, p: spec_fn(char) -> bool) -> Seq<char>
    decreases s.len(),
{
    if s.len() > 0 && p(s[0]) {
        strip_start_by(s.drop_first(), p)
    } else {
        s
    }
}

/// `trim_end_matches` with a predicate.
pub open spec fn strip_end_by(s: Seq<char>, p: spec_fn(char) -> bool) -> Seq<char>
    decreases s.len(),
{
    if s.len() > 0 && p(s.last()) {
        strip_end_by(s.drop_last(), p)
    } else {
        s
    }
}

/// `trim_matches` with a predicate.
pub open spec fn strip_by(s: Seq<char>, p: spec_fn(char) -> bool) -> Seq<char> {
    strip_end_by(strip_start_by(s, p), p)
}

/// `s[lo..hi]` with the non-alphanumeric characters at either end removed, as bounds.
pub fn strip_non_alnum(s: &Vec<char>, lo: usize, hi: usize) -> (r: (usize, usize))
    requires
        lo <= hi <= s.len(),
    ensures
        lo <= r.0 <= r.1 <= hi,
        s@.subrange(r.0 as int, r.1 as int) == strip_by(s@.subrange(lo as int, hi as int), not_alnum()),
{
    let mut a: usize = lo;
    while a < hi && !is_alphanumeric(s[a])
        invariant
            lo <= a <= hi <= s.len(),
            strip_start_by(s@.subrange(lo as int, hi as int), not_alnum()) == strip_start_by(
                s@.subrange(a as int, hi as int),
                not_alnum(),
            ),
        decreases hi - a,
    {
        assert(s@.subrange(a as int, hi as int).drop_first() =~= s@.subrange(a + 1, hi as int));
        a += 1;
    }
    let mut b: usize = hi;
    while b > a && !is_alphanumeric(s[b - 1])
        invariant
            lo <= a <= b <= hi <= s.len(),
            strip_start_by(s@.subrange(lo as int, hi as int), not_alnum()) == s@.subrange(
                a as int,
                hi as int,
            ),
            strip_end_by(s@.subrange(a as int, hi as int), not_alnum()) == strip_end_by(
                s@.subrange(a as int, b as int),
                not_alnum(),
            ),
        decreases b - a,
    {
        assert(s@.subrange(a as int, b as int).drop_last() =~= s@.subrange(a as int, b - 1));
        b -= 1;
    }
    (a, b)
}

/// The alphanumeric characters of `s`, in order.
pub open spec fn keep_alnum(s: Seq<char>) -> Seq<char>
    decreases s.len(),
{
    if s.len() == 0 {
        s
    } else if alphanumeric(s.last()) {
        keep_alnum(s.drop_last()).push(s.last())
    } else {
        keep_alnum(s.drop_last())
    }
}

pub fn alnum_only(s: &Vec<char>, lo: usize, hi: usize) -> (r: Vec<char>)
    requires
        lo <= hi <= s.len(),
    ensures
        r@ == keep_alnum(s@.subrange(lo as int, hi as int)),
{
    let mut r: Vec<char> = Vec::new();
    let mut i: usize = lo;
    while i < hi
        invariant
            lo <= i <= hi <= s.len(),
            r@ == keep_alnum(s@.subrange(lo as int, i as int)),
        decreases hi - i,
    {
        assert(s@.subrange(lo as int, i + 1).drop_last() =~= s@.subrange(lo as int, i as int));
        if is_alphanumeric(s[i]) {
            r.push(s[i]);
        }
        i += 1;
    }
    r
}

/// `[..].join(sep)`.
pub open spec fn join(ws: Seq<Seq<char>>, sep: Seq<char>) -> Seq<char>
    decreases ws.len(),
{
    if ws.len() == 0 {
        Seq::empty()
    } else if ws.len() == 1 {
        ws[0]
    } else {
        join(ws.drop_last(), sep) + sep + ws.last()
    }
}

} // verus!
