//! Character-level helpers shared by the parsers: everything here works on the
//! `Seq<char>` view of a string, which is what every contract in the crate speaks of.

use vstd::prelude::*;

verus! {

broadcast use vstd::string::group_string_axioms;

// ---------------------------------------------------------------------------------------
// Unicode character classes, as std's `char` methods define them.
// ---------------------------------------------------------------------------------------

/// What `char::is_whitespace` answers for `c` (the Unicode `White_Space` property).
pub uninterp spec fn unicode_white_space(c: char) -> bool;

/// What `char::is_alphanumeric` answers for `c` (`Alphabetic` or `Numeric`).
pub uninterp spec fn unicode_alphanumeric(c: char) -> bool;

/// What `char::is_alphabetic` answers for `c` (the Unicode `Alphabetic` property).
pub uninterp spec fn unicode_alphabetic(c: char) -> bool;

pub open spec fn is_ascii_digit(c: char) -> bool {
    '0' <= c <= '9'
}

pub open spec fn is_ascii_upper(c: char) -> bool {
    'A' <= c <= 'Z'
}

pub open spec fn is_ascii_lower(c: char) -> bool {
    'a' <= c <= 'z'
}

pub open spec fn is_ascii_alpha(c: char) -> bool {
    is_ascii_upper(c) || is_ascii_lower(c)
}

pub open spec fn is_ascii_alnum(c: char) -> bool {
    is_ascii_alpha(c) || is_ascii_digit(c)
}

/// The six ASCII characters carrying the `White_Space` property.
pub open spec fn is_ascii_ws(c: char) -> bool {
    c == ' ' || ('\t' <= c <= '\r')
}

/// Unicode `White_Space`: among ASCII characters exactly tab through carriage return,
/// and the space.
pub open spec fn white_space(c: char) -> bool {
    if (c as u32) < 128 {
        is_ascii_ws(c)
    } else {
        unicode_white_space(c)
    }
}

/// Unicode `Alphabetic` or `Numeric`: among ASCII characters the letters and digits.
pub open spec fn alphanumeric(c: char) -> bool {
    if (c as u32) < 128 {
        is_ascii_alnum(c)
    } else {
        unicode_alphanumeric(c)
    }
}

/// Unicode `Alphabetic`: among ASCII characters the letters.
pub open spec fn alphabetic(c: char) -> bool {
    if (c as u32) < 128 {
        is_ascii_alpha(c)
    } else {
        unicode_alphabetic(c)
    }
}

/// `char::is_whitespace`.
///
/// Trusted: the contract claims that the answer is the Unicode `White_Space` property,
/// which among ASCII characters exactly tab through carriage return and the space
/// carry.
#[verifier::external_body]
pub fn is_whitespace(c: char) -> (r: bool)
    ensures
        r == white_space(c),
        (c as u32) >= 128 ==> r == unicode_white_space(c),
{
    c.is_whitespace()
}

/// `char::is_alphanumeric`.
///
/// Trusted: the answer is the Unicode `Alphabetic`-or-`Numeric` property; among ASCII
/// characters exactly the letters and digits have it.
#[verifier::external_body]
pub fn is_alphanumeric(c: char) -> (r: bool)
    ensures
        r == alphanumeric(c),
        (c as u32) >= 128 ==> r == unicode_alphanumeric(c),
{
    c.is_alphanumeric()
}

/// `char::is_alphabetic`.
///
/// Trusted: the answer is the Unicode `Alphabetic` property; among ASCII characters
/// exactly the letters have it.
#[verifier::external_body]
pub fn is_alphabetic(c: char) -> (r: bool)
    ensures
        r == alphabetic(c),
        (c as u32) >= 128 ==> r == unicode_alphabetic(c),
{
    c.is_alphabetic()
}

pub fn is_digit(c: char) -> (r: bool)
    ensures
        r == is_ascii_digit(c),
{
    '0' <= c && c <= '9'
}

// ---------------------------------------------------------------------------------------
// ASCII case.
// ---------------------------------------------------------------------------------------

pub open spec fn lower_char(c: char) -> char {
    if is_ascii_upper(c) {
        ((c as u32) + 32) as char
    } else {
        c
    }
}

pub open spec fn upper_char(c: char) -> char {
    if is_ascii_lower(c) {
        ((c as u32) - 32) as char
    } else {
        c
    }
}

/// `str::to_ascii_lowercase`: ASCII letters lowered, everything else untouched.
pub open spec fn ascii_lower(s: Seq<char>) -> Seq<char> {
    s.map_values(|c: char| lower_char(c))
}

/// `str::to_ascii_uppercase`.
pub open spec fn ascii_upper(s: Seq<char>) -> Seq<char> {
    s.map_values(|c: char| upper_char(c))
}

pub fn to_lower(c: char) -> (r: char)
    ensures
        r == lower_char(c),
{
    if 'A' <= c && c <= 'Z' {
        let n: u32 = (c as u32) + 32;
        char_from(n)
    } else {
        c
    }
}

pub fn to_upper(c: char) -> (r: char)
    ensures
        r == upper_char(c),
{
    if 'a' <= c && c <= 'z' {
        let n: u32 = (c as u32) - 32;
        char_from(n)
    } else {
        c
    }
}

/// An ASCII code point back to its `char`.
fn char_from(n: u32) -> (c: char)
    requires
        n < 128,
    ensures
        c == n as char,
        c as u32 == n,
{
    assert((n as u8) as u32 == n) by (bit_vector)
        requires
            n < 128,
    ;
    let b: u8 = n as u8;
    let c = b as char;
    assert(c as u32 == n);
    c
}

pub fn lower_all(s: &Vec<char>) -> (r: Vec<char>)
    ensures
        r@ == ascii_lower(s@),
{
    let mut r: Vec<char> = Vec::new();
    let mut i: usize = 0;
    while i < s.len()
        invariant
            i <= s.len(),
            r@ == ascii_lower(s@.take(i as int)),
        decreases s.len() - i,
    {
        r.push(to_lower(s[i]));
        i += 1;
        assert(s@.take(i as int) == s@.take(i - 1).push(s@[i - 1]));
        assert(r@ =~= ascii_lower(s@.take(i as int)));
    }
    assert(s@.take(s.len() as int) =~= s@);
    r
}

pub fn upper_all(s: &Vec<char>) -> (r: Vec<char>)
    ensures
        r@ == ascii_upper(s@),
{
    let mut r: Vec<char> = Vec::new();
    let mut i: usize = 0;
    while i < s.len()
        invariant
            i <= s.len(),
            r@ == ascii_upper(s@.take(i as int)),
        decreases s.len() - i,
    {
        r.push(to_upper(s[i]));
        i += 1;
        assert(s@.take(i as int) == s@.take(i - 1).push(s@[i - 1]));
        assert(r@ =~= ascii_upper(s@.take(i as int)));
    }
    assert(s@.take(s.len() as int) =~= s@);
    r
}

// ---------------------------------------------------------------------------------------
// Conversions between `&str`, `String` and `Vec<char>`.
// ---------------------------------------------------------------------------------------

/// The characters of `s`, in order.
pub fn chars_of(s: &str) -> (v: Vec<char>)
    ensures
        v@ == s@,
{
    let mut v: Vec<char> = Vec::new();
    for c in it: s.chars()
        invariant
            v@ == it.seq().take(it.index() as int),
            it.seq() == s@,
    {
        v.push(c);
    }
    v
}

/// `String::from_iter` over a slice of characters.
///
/// Trusted: the contract claims only that the string holds exactly these characters.
#[verifier::external_body]
pub fn string_of(v: &[char]) -> (s: String)
    ensures
        s@ == v@,
{
    v.iter().collect()
}

/// The view of an optional string.
pub open spec fn opt_view(o: Option<String>) -> Option<Seq<char>> {
    match o {
        Some(s) => Some(s@),
        None => None,
    }
}

/// A string literal, or any borrowed string, as an owned `String`.
pub fn owned(s: &str) -> (r: String)
    ensures
        r@ == s@,
{
    s.to_owned()
}

// ---------------------------------------------------------------------------------------
// Equality, prefixes, suffixes, containment.
// ---------------------------------------------------------------------------------------

pub open spec fn starts_with(s: Seq<char>, p: Seq<char>) -> bool {
    p.len() <= s.len() && s.take(p.len() as int) == p
}

pub open spec fn ends_with(s: Seq<char>, p: Seq<char>) -> bool {
    p.len() <= s.len() && s.skip(s.len() - p.len()) == p
}

pub open spec fn occurs_at(s: Seq<char>, p: Seq<char>, i: int) -> bool {
    0 <= i && i + p.len() <= s.len() && s.subrange(i, i + p.len()) == p
}

pub open spec fn contains(s: Seq<char>, p: Seq<char>) -> bool {
    exists|i: int| occurs_at(s, p, i)
}

pub open spec fn has_char(s: Seq<char>, c: char) -> bool {
    exists|i: int| 0 <= i < s.len() && s[i] == c
}

/// Where the first `c` in `s` is (the length of `s` when there is none).
pub open spec fn first_index(s: Seq<char>, c: char) -> int
    decreases s.len(),
{
    if s.len() == 0 || s[0] == c {
        0
    } else {
        1 + first_index(s.drop_first(), c)
    }
}

pub proof fn lemma_first_index(s: Seq<char>, c: char, i: int)
    requires
        0 <= i < s.len(),
        s[i] == c,
        forall|j: int| 0 <= j < i ==> s[j] != c,
    ensures
        first_index(s, c) == i,
        has_char(s, c),
    decreases i,
{
    if i > 0 {
        lemma_first_index(s.drop_first(), c, i - 1);
    }
}

/// `s[lo..hi] == p`, character by character.
pub fn eq_at(s: &Vec<char>, lo: usize, p: &Vec<char>) -> (r: bool)
    requires
        lo <= s.len(),
    ensures
        r == occurs_at(s@, p@, lo as int),
{
    if p.len() > s.len() - lo {
        return false;
    }
    let mut j: usize = 0;
    while j < p.len()
        invariant
            lo + p.len() <= s.len(),
            j <= p.len(),
            forall|k: int| 0 <= k < j ==> s@[lo + k] == p@[k],
        decreases p.len() - j,
    {
        if s[lo + j] != p[j] {
            assert(s@.subrange(lo as int, lo + p.len())[j as int] != p@[j as int]);
            return false;
        }
        j += 1;
    }
    assert(s@.subrange(lo as int, lo + p.len()) =~= p@);
    true
}

/// `s[lo..hi]` spells exactly `lit`.
pub fn range_is(s: &Vec<char>, lo: usize, hi: usize, lit: &str) -> (r: bool)
    requires
        lo <= hi <= s.len(),
    ensures
        r == (s@.subrange(lo as int, hi as int) == lit@),
{
    let p = chars_of(lit);
    if p.len() != hi - lo {
        return false;
    }
    eq_at(s, lo, &p)
}

pub fn seq_eq(a: &Vec<char>, b: &Vec<char>) -> (r: bool)
    ensures
        r == (a@ == b@),
{
    if a.len() != b.len() {
        return false;
    }
    let r = eq_at(a, 0, b);
    assert(a@.subrange(0, b@.len() as int) =~= a@);
    r
}

pub fn str_eq(a: &Vec<char>, b: &str) -> (r: bool)
    ensures
        r == (a@ == b@),
{
    let bv = chars_of(b);
    seq_eq(a, &bv)
}

pub fn has_prefix(s: &Vec<char>, p: &str) -> (r: bool)
    ensures
        r == starts_with(s@, p@),
{
    let pv = chars_of(p);
    let r = eq_at(s, 0, &pv);
    assert(r ==> s@.subrange(0, pv@.len() as int) =~= s@.take(pv@.len() as int));
    assert(starts_with(s@, p@) ==> s@.subrange(0, pv@.len() as int) =~= s@.take(pv@.len() as int));
    r
}

pub fn has_suffix(s: &Vec<char>, p: &str) -> (r: bool)
    ensures
        r == ends_with(s@, p@),
{
    let pv = chars_of(p);
    if pv.len() > s.len() {
        return false;
    }
    let lo = s.len() - pv.len();
    let r = eq_at(s, lo, &pv);
    assert(s@.subrange(lo as int, s@.len() as int) =~= s@.skip(lo as int));
    r
}

pub fn find_from(s: &Vec<char>, p: &Vec<char>, from: usize) -> (r: Option<usize>)
    requires
        from <= s.len(),
    ensures
        match r {
            Some(i) => from <= i && occurs_at(s@, p@, i as int) && forall|j: int|
                from <= j < i ==> !occurs_at(s@, p@, j),
            None => forall|j: int| from <= j ==> !occurs_at(s@, p@, j),
        },
{
    if p.len() > s.len() {
        return None;
    }
    let last = s.len() - p.len();
    let mut i: usize = from;
    while i <= last
        invariant
            from <= i,
            last + p.len() == s.len(),
            forall|j: int| from <= j < i ==> !occurs_at(s@, p@, j),
        decreases last + 1 - i,
    {
        if eq_at(s, i, p) {
            return Some(i);
        }
        if i == last {
            return None;
        }
        i += 1;
    }
    None
}

pub fn contains_str(s: &Vec<char>, p: &str) -> (r: bool)
    ensures
        r == contains(s@, p@),
{
    let pv = chars_of(p);
    match find_from(s, &pv, 0) {
        Some(_) => true,
        None => {
            assert forall|j: int| !occurs_at(s@, p@, j) by {
                if j < 0 {
                }
            }
            false
        },
    }
}

pub fn find_char_from(s: &Vec<char>, c: char, from: usize) -> (r: Option<usize>)
    requires
        from <= s.len(),
    ensures
        match r {
            Some(i) => from <= i < s.len() && s@[i as int] == c && forall|j: int|
                from <= j < i ==> s@[j] != c,
            None => forall|j: int| from <= j < s.len() ==> s@[j] != c,
        },
{
    let mut i: usize = from;
    while i < s.len()
        invariant
            from <= i <= s.len(),
            forall|j: int| from <= j < i ==> s@[j] != c,
        decreases s.len() - i,
    {
        if s[i] == c {
            return Some(i);
        }
        i += 1;
    }
    None
}

pub fn slice(s: &Vec<char>, lo: usize, hi: usize) -> (r: Vec<char>)
    requires
        lo <= hi <= s.len(),
    ensures
        r@ == s@.subrange(lo as int, hi as int),
{
    let mut r: Vec<char> = Vec::new();
    let mut i: usize = lo;
    while i < hi
        invariant
            lo <= i <= hi <= s.len(),
            r@ == s@.subrange(lo as int, i as int),
        decreases hi - i,
    {
        r.push(s[i]);
        i += 1;
        assert(r@ =~= s@.subrange(lo as int, i as int));
    }
    r
}

pub fn append(out: &mut Vec<char>, s: &Vec<char>)
    ensures
        final(out)@ == old(out)@ + s@,
{
    let mut i: usize = 0;
    while i < s.len()
        invariant
            i <= s.len(),
            out@ == old(out)@ + s@.take(i as int),
        decreases s.len() - i,
    {
        out.push(s[i]);
        i += 1;
        assert(out@ =~= old(out)@ + s@.take(i as int));
    }
    assert(s@.take(s.len() as int) =~= s@);
}

pub fn append_str(out: &mut Vec<char>, s: &str)
    ensures
        final(out)@ == old(out)@ + s@,
{
    let v = chars_of(s);
    append(out, &v);
}

// ---------------------------------------------------------------------------------------
// Trimming.
// ---------------------------------------------------------------------------------------

/// `str::trim_start`: leading `White_Space` removed.
pub open spec fn trim_start(s: Seq<char>) -> Seq<char>
    decreases s.len(),
{
    if s.len() > 0 && white_space(s[0]) {
        trim_start(s.drop_first())
    } else {
        s
    }
}

/// `str::trim_end`: trailing `White_Space` removed.
pub open spec fn trim_end(s: Seq<char>) -> Seq<char>
    decreases s.len(),
{
    if s.len() > 0 && white_space(s.last()) {
        trim_end(s.drop_last())
    } else {
        s
    }
}

/// `str::trim`.
pub open spec fn trim(s: Seq<char>) -> Seq<char> {
    trim_end(trim_start(s))
}

/// Bounds `(a, b)` with `s[a..b]` equal to `s[lo..hi]` trimmed at both ends.
pub fn trim_bounds(s: &Vec<char>, lo: usize, hi: usize) -> (r: (usize, usize))
    requires
        lo <= hi <= s.len(),
    ensures
        lo <= r.0 <= r.1 <= hi,
        s@.subrange(r.0 as int, r.1 as int) == trim(s@.subrange(lo as int, hi as int)),
{
    let mut a: usize = lo;
    while a < hi && is_whitespace(s[a])
        invariant
            lo <= a <= hi <= s.len(),
            trim_start(s@.subrange(lo as int, hi as int)) == trim_start(
                s@.subrange(a as int, hi as int),
            ),
        decreases hi - a,
    {
        assert(s@.subrange(a as int, hi as int).drop_first() =~= s@.subrange(a + 1, hi as int));
        a += 1;
    }
    let mut b: usize = hi;
    while b > a && is_whitespace(s[b - 1])
        invariant
            lo <= a <= b <= hi <= s.len(),
            trim_start(s@.subrange(lo as int, hi as int)) == s@.subrange(a as int, hi as int),
            trim_end(s@.subrange(a as int, hi as int)) == trim_end(s@.subrange(a as int, b as int)),
        decreases b - a,
    {
        assert(s@.subrange(a as int, b as int).drop_last() =~= s@.subrange(a as int, b - 1));
        b -= 1;
    }
    (a, b)
}

pub fn trimmed(s: &Vec<char>) -> (r: Vec<char>)
    ensures
        r@ == trim(s@),
{
    let (a, b) = trim_bounds(s, 0, s.len());
    assert(s@.subrange(0, s@.len() as int) =~= s@);
    slice(s, a, b)
}

// ---------------------------------------------------------------------------------------
// Splitting.
// ---------------------------------------------------------------------------------------

/// `str::split(sep)`: every separator ends one piece and starts the next, so `n`
/// separators give `n + 1` pieces, empty ones included.
pub open spec fn split_on(s: Seq<char>, sep: char) -> Seq<Seq<char>>
    decreases s.len(),
{
    if s.len() == 0 {
        seq![Seq::<char>::empty()]
    } else {
        let prev = split_on(s.drop_last(), sep);
        if s.last() == sep {
            prev.push(Seq::<char>::empty())
        } else {
            prev.update(prev.len() - 1, prev.last().push(s.last()))
        }
    }
}

pub proof fn lemma_split_on_nonempty(s: Seq<char>, sep: char)
    ensures
        split_on(s, sep).len() >= 1,
    decreases s.len(),
{
    if s.len() > 0 {
        lemma_split_on_nonempty(s.drop_last(), sep);
    }
}

/// Text without a separator extends the last piece.
pub proof fn lemma_split_append_plain(p: Seq<char>, y: Seq<char>, sep: char)
    requires
        !has_char(y, sep),
    ensures
        split_on(p + y, sep) == split_on(p, sep).update(
            split_on(p, sep).len() - 1,
            split_on(p, sep).last() + y,
        ),
    decreases y.len(),
{
    lemma_split_on_nonempty(p, sep);
    if y.len() == 0 {
        assert(p + y =~= p);
        assert(split_on(p, sep).last() + y =~= split_on(p, sep).last());
        assert(split_on(p, sep).update(split_on(p, sep).len() - 1, split_on(p, sep).last())
            =~= split_on(p, sep));
    } else {
        let y0 = y.drop_last();
        assert(!has_char(y0, sep)) by {
            if has_char(y0, sep) {
                let i = choose|i: int| 0 <= i < y0.len() && y0[i] == sep;
                assert(y[i] == sep);
            }
        }
        lemma_split_append_plain(p, y0, sep);
        assert((p + y).drop_last() =~= p + y0);
        assert((p + y).last() == y.last());
        assert(y.last() != sep) by {
            assert(y[y.len() - 1] == y.last());
        }
        assert(split_on(p, sep).last() + y =~= (split_on(p, sep).last() + y0).push(y.last()));
        assert(split_on(p + y, sep) =~= split_on(p, sep).update(
            split_on(p, sep).len() - 1,
            split_on(p, sep).last() + y,
        ));
    }
}

/// Text without a separator is one piece.
pub proof fn lemma_split_plain(y: Seq<char>, sep: char)
    requires
        !has_char(y, sep),
    ensures
        split_on(y, sep) == seq![y],
{
    lemma_split_append_plain(Seq::<char>::empty(), y, sep);
    assert(Seq::<char>::empty() + y =~= y);
    assert(split_on(Seq::<char>::empty(), sep) == seq![Seq::<char>::empty()]);
    assert(Seq::<char>::empty() + y =~= y);
    assert(seq![Seq::<char>::empty()].update(0, Seq::<char>::empty() + y) =~= seq![y]);
}

/// A separator then plain text opens a new piece holding that text.
pub proof fn lemma_split_sep_then_plain(p: Seq<char>, y: Seq<char>, sep: char)
    requires
        !has_char(y, sep),
    ensures
        split_on(p.push(sep) + y, sep) == split_on(p, sep).push(y),
{
    lemma_split_append_plain(p.push(sep), y, sep);
    assert(p.push(sep).drop_last() =~= p);
    let q = split_on(p, sep).push(Seq::<char>::empty());
    assert(split_on(p.push(sep), sep) == q);
    assert(Seq::<char>::empty() + y =~= y);
    assert(q.update(q.len() - 1, q.last() + y) =~= split_on(p, sep).push(y));
}

/// The pieces of `s[lo..hi]` split on `sep`, as `(start, end)` bounds into `s`.
pub fn split_bounds(s: &Vec<char>, lo: usize, hi: usize, sep: char) -> (r: Vec<(usize, usize)>)
    requires
        lo <= hi <= s.len(),
    ensures
        r@.len() == split_on(s@.subrange(lo as int, hi as int), sep).len(),
        forall|k: int|
            0 <= k < r@.len() ==> {
                &&& lo <= (#[trigger] r@[k]).0 <= r@[k].1 <= hi
                &&& s@.subrange(r@[k].0 as int, r@[k].1 as int) == split_on(
                    s@.subrange(lo as int, hi as int),
                    sep,
                )[k]
            },
{
    let mut r: Vec<(usize, usize)> = Vec::new();
    let mut start: usize = lo;
    let mut i: usize = lo;
    while i < hi
        invariant
            lo <= start <= i <= hi <= s.len(),
            r@.len() + 1 == split_on(s@.subrange(lo as int, i as int), sep).len(),
            forall|k: int|
                0 <= k < r@.len() ==> {
                    &&& lo <= (#[trigger] r@[k]).0 <= r@[k].1 <= i
                    &&& s@.subrange(r@[k].0 as int, r@[k].1 as int) == split_on(
                        s@.subrange(lo as int, i as int),
                        sep,
                    )[k]
                },
            s@.subrange(start as int, i as int) == split_on(
                s@.subrange(lo as int, i as int),
                sep,
            ).last(),
        decreases hi - i,
    {
        let ghost before = s@.subrange(lo as int, i as int);
        let ghost after = s@.subrange(lo as int, i + 1);
        assert(after.drop_last() =~= before);
        proof {
            lemma_split_on_nonempty(before, sep);
        }
        if s[i] == sep {
            r.push((start, i));
            start = i + 1;
            assert(s@.subrange(start as int, i + 1) =~= Seq::<char>::empty());
        } else {
            assert(s@.subrange(start as int, i + 1) =~= s@.subrange(start as int, i as int).push(
                s@[i as int],
            ));
        }
        i += 1;
    }
    r.push((start, hi));
    r
}

// ---------------------------------------------------------------------------------------
// Decimal numbers.
// ---------------------------------------------------------------------------------------

pub open spec fn all_digits(s: Seq<char>) -> bool {
    forall|i: int| 0 <= i < s.len() ==> is_ascii_digit(#[trigger] s[i])
}

pub open spec fn digit_value(c: char) -> int {
    (c as int) - ('0' as int)
}

/// The value of a run of decimal digits.
pub open spec fn digits_value(s: Seq<char>) -> int
    decreases s.len(),
{
    if s.len() == 0 {
        0
    } else {
        digits_value(s.drop_last()) * 10 + digit_value(s.last())
    }
}

pub proof fn lemma_digits_value_nonneg(s: Seq<char>)
    requires
        all_digits(s),
    ensures
        digits_value(s) >= 0,
    decreases s.len(),
{
    if s.len() > 0 {
        lemma_digits_value_nonneg(s.drop_last());
    }
}

/// The value of `s[lo..hi]` when it is a nonempty run of digits that fits in a `u64`
/// below `limit`, else `None`: what `str::parse` gives for an unsigned integer type
/// whose maximum is `limit`, on text already known to hold digits only.
pub fn parse_digits(s: &Vec<char>, lo: usize, hi: usize, limit: u64) -> (r: Option<u64>)
    requires
        lo <= hi <= s.len(),
    ensures
        match r {
            Some(v) => {
                &&& lo < hi
                &&& all_digits(s@.subrange(lo as int, hi as int))
                &&& v == digits_value(s@.subrange(lo as int, hi as int))
                &&& v <= limit
            },
            None => lo == hi || !all_digits(s@.subrange(lo as int, hi as int)) || digits_value(
                s@.subrange(lo as int, hi as int),
            ) > limit,
        },
{
    if lo == hi {
        return None;
    }
    let mut v: u64 = 0;
    let mut i: usize = lo;
    while i < hi
        invariant
            lo <= i <= hi <= s.len(),
            all_digits(s@.subrange(lo as int, i as int)),
            v == digits_value(s@.subrange(lo as int, i as int)),
            v <= limit,
        decreases hi - i,
    {
        let c = s[i];
        let ghost pre = s@.subrange(lo as int, i as int);
        let ghost now = s@.subrange(lo as int, i + 1);
        assert(now.drop_last() =~= pre);
        if !is_digit(c) {
            assert(!is_ascii_digit(s@.subrange(lo as int, hi as int)[i - lo]));
            return None;
        }
        let d: u64 = ((c as u32) - ('0' as u32)) as u64;
        if d > limit || v > (limit - d) / 10 {
            // The rest of the digits can only make the value larger.
            proof {
                assert(v * 10 + d > limit) by (nonlinear_arith)
                    requires
                        d > limit || v > (limit - d) / 10,
                        d <= 9,
                ;
                assert(digits_value(now) == v * 10 + d);
                if all_digits(s@.subrange(lo as int, hi as int)) {
                    lemma_digits_grow(s@.subrange(lo as int, hi as int), (i + 1 - lo) as int);
                    assert(s@.subrange(lo as int, hi as int).take((i + 1 - lo) as int) =~= now);
                }
            }
            return None;
        }
        v = v * 10 + d;
        i += 1;
        assert(all_digits(now));
    }
    Some(v)
}

/// A prefix of a run of digits is never worth more than the whole run.
pub proof fn lemma_digits_grow(s: Seq<char>, n: int)
    requires
        0 <= n <= s.len(),
        all_digits(s),
    ensures
        digits_value(s.take(n)) <= digits_value(s),
    decreases s.len(),
{
    if n < s.len() {
        assert(s.drop_last().take(n) =~= s.take(n));
        lemma_digits_grow(s.drop_last(), n);
        lemma_digits_value_nonneg(s.drop_last());
        assert(digits_value(s.drop_last()) <= digits_value(s.drop_last()) * 10);
    } else {
        assert(s.take(n) =~= s);
    }
}

pub open spec fn digit_char(d: int) -> char {
    if d == 0 {
        '0'
    } else if d == 1 {
        '1'
    } else if d == 2 {
        '2'
    } else if d == 3 {
        '3'
    } else if d == 4 {
        '4'
    } else if d == 5 {
        '5'
    } else if d == 6 {
        '6'
    } else if d == 7 {
        '7'
    } else if d == 8 {
        '8'
    } else {
        '9'
    }
}

fn digit(d: u64) -> (c: char)
    requires
        d < 10,
    ensures
        c == digit_char(d as int),
        digit_value(c) == d,
        is_ascii_digit(c),
{
    if d == 0 {
        '0'
    } else if d == 1 {
        '1'
    } else if d == 2 {
        '2'
    } else if d == 3 {
        '3'
    } else if d == 4 {
        '4'
    } else if d == 5 {
        '5'
    } else if d == 6 {
        '6'
    } else if d == 7 {
        '7'
    } else if d == 8 {
        '8'
    } else {
        '9'
    }
}

proof fn lemma_digit_char(d: int)
    requires
        0 <= d < 10,
    ensures
        digit_value(digit_char(d)) == d,
        is_ascii_digit(digit_char(d)),
{
}

/// The decimal spelling of `n`, without leading zeros.
pub open spec fn decimal(n: nat) -> Seq<char>
    decreases n,
{
    if n < 10 {
        seq![digit_char(n as int)]
    } else {
        decimal(n / 10).push(digit_char((n % 10) as int))
    }
}

/// A number's spelling reads back as the number.
pub proof fn lemma_decimal_roundtrip(n: nat)
    ensures
        decimal(n).len() > 0,
        all_digits(decimal(n)),
        digits_value(decimal(n)) == n,
    decreases n,
{
    lemma_digit_char((n % 10) as int);
    let d = decimal(n);
    if n >= 10 {
        lemma_decimal_roundtrip(n / 10);
        assert(d.drop_last() =~= decimal(n / 10));
        assert(d.last() == digit_char((n % 10) as int));
        assert(digits_value(d) == digits_value(decimal(n / 10)) * 10 + (n % 10));
        assert((n / 10) * 10 + n % 10 == n);
    } else {
        lemma_digit_char(n as int);
        assert(d.drop_last() =~= Seq::<char>::empty());
        assert(digits_value(d.drop_last()) == 0);
        assert(d.last() == digit_char(n as int));
    }
}

/// Append the decimal spelling of `n`.
pub fn push_decimal(out: &mut Vec<char>, n: u64)
    ensures
        final(out)@ == old(out)@ + decimal(n as nat),
    decreases n,
{
    if n >= 10 {
        push_decimal(out, n / 10);
    }
    out.push(digit(n % 10));
    assert(out@ =~= old(out)@ + decimal(n as nat));
}

/// `i64`'s `Display`: a minus sign, then the magnitude.
pub open spec fn signed_decimal(n: int) -> Seq<char> {
    if n < 0 {
        seq!['-'] + decimal((-n) as nat)
    } else {
        decimal(n as nat)
    }
}

pub fn push_signed(out: &mut Vec<char>, n: i64)
    ensures
        final(out)@ == old(out)@ + signed_decimal(n as int),
{
    if n < 0 {
        out.push('-');
        let m: u64 = if n == i64::MIN {
            9223372036854775808u64
        } else {
            (-n) as u64
        };
        push_decimal(out, m);
        assert(out@ =~= old(out)@ + signed_decimal(n as int));
    } else {
        push_decimal(out, n as u64);
    }
}

/// Zero-padded to at least `width` digits, as `format!("{:0w$}")` prints a
/// non-negative number.
pub open spec fn padded(n: nat, width: nat) -> Seq<char> {
    let d = decimal(n);
    if d.len() >= width {
        d
    } else {
        Seq::new((width - d.len()) as nat, |i: int| '0') + d
    }
}

pub fn push_padded(out: &mut Vec<char>, n: u64, width: usize)
    ensures
        final(out)@ == old(out)@ + padded(n as nat, width as nat),
{
    let mut digits: Vec<char> = Vec::new();
    push_decimal(&mut digits, n);
    assert(digits@ =~= decimal(n as nat));
    let mut k: usize = digits.len();
    let ghost start = out@;
    while k < width
        invariant
            digits.len() <= k <= width || (k == digits.len() && k >= width),
            digits@ == decimal(n as nat),
            out@ == start + Seq::new((k - digits.len()) as nat, |i: int| '0'),
        decreases width - k,
    {
        out.push('0');
        k += 1;
        assert(out@ =~= start + Seq::new((k - digits.len()) as nat, |i: int| '0'));
    }
    append(out, &digits);
    if digits.len() >= width {
        assert(out@ =~= start + padded(n as nat, width as nat));
    } else {
        assert(out@ =~= start + padded(n as nat, width as nat));
    }
}


// ---------------------------------------------------------------------------------------
// Replacing and stripping.
// ---------------------------------------------------------------------------------------

/// `str::replace(pat, rep)`: every occurrence of `pat`, scanning left to right without
/// overlap, becomes `rep`.
pub open spec fn replace_all(s: Seq<char>, pat: Seq<char>, rep: Seq<char>) -> Seq<char>
    decreases s.len(),
{
    if s.len() == 0 || pat.len() == 0 {
        s
    } else if starts_with(s, pat) {
        rep + replace_all(s.skip(pat.len() as int), pat, rep)
    } else {
        seq![s[0]] + replace_all(s.drop_first(), pat, rep)
    }
}

pub fn replace_str(s: &Vec<char>, pat: &Vec<char>, rep: &Vec<char>) -> (r: Vec<char>)
    ensures
        r@ == replace_all(s@, pat@, rep@),
{
    let mut out: Vec<char> = Vec::new();
    if pat.len() == 0 {
        append(&mut out, s);
        assert(out@ =~= s@);
        return out;
    }
    let mut i: usize = 0;
    assert(s@.skip(0) =~= s@);
    assert(out@ + replace_all(s@, pat@, rep@) =~= replace_all(s@, pat@, rep@));
    while i < s.len()
        invariant
            i <= s.len(),
            pat@.len() > 0,
            out@ + replace_all(s@.skip(i as int), pat@, rep@) == replace_all(s@, pat@, rep@),
        decreases s.len() - i,
    {
        let ghost rest = s@.skip(i as int);
        if eq_at(s, i, pat) {
            assert(rest.take(pat@.len() as int) =~= s@.subrange(i as int, i + pat@.len()));
            assert(rest.skip(pat@.len() as int) =~= s@.skip(i + pat@.len()));
            append(&mut out, rep);
            assert(out@ + replace_all(s@.skip(i + pat@.len()), pat@, rep@) =~= replace_all(
                s@,
                pat@,
                rep@,
            ));
            i = i + pat.len();
        } else {
            assert(!starts_with(rest, pat@)) by {
                if starts_with(rest, pat@) {
                    assert(rest.take(pat@.len() as int) =~= s@.subrange(i as int, i + pat@.len()));
                }
            }
            assert(rest.drop_first() =~= s@.skip(i + 1));
            out.push(s[i]);
            assert(out@ + replace_all(s@.skip(i + 1), pat@, rep@) =~= replace_all(
                s@,
                pat@,
                rep@,
            ));
            i = i + 1;
        }
    }
    assert(s@.skip(i as int) =~= Seq::<char>::empty());
    assert(out@ + Seq::<char>::empty() =~= out@);
    out
}

/// `str::replace(c, d)` for single characters: every `c` becomes `d`.
pub open spec fn replace_char(s: Seq<char>, c: char, d: char) -> Seq<char> {
    s.map_values(|x: char| if x == c { d } else { x })
}

pub fn replace_char_all(s: &Vec<char>, c: char, d: char) -> (r: Vec<char>)
    ensures
        r@ == replace_char(s@, c, d),
{
    let mut r: Vec<char> = Vec::new();
    let mut i: usize = 0;
    while i < s.len()
        invariant
            i <= s.len(),
            r@ == replace_char(s@.take(i as int), c, d),
        decreases s.len() - i,
    {
        r.push(if s[i] == c { d } else { s[i] });
        i += 1;
        assert(r@ =~= replace_char(s@.take(i as int), c, d));
    }
    assert(s@.take(s.len() as int) =~= s@);
    r
}

/// `str::trim_start_matches(p)`: every leading repetition of `p` removed.
pub open spec fn strip_all_prefix(s: Seq<char>, p: Seq<char>) -> Seq<char>
    decreases s.len(),
{
    if p.len() > 0 && starts_with(s, p) {
        strip_all_prefix(s.skip(p.len() as int), p)
    } else {
        s
    }
}

pub fn strip_prefixes(s: &Vec<char>, p: &str) -> (r: Vec<char>)
    ensures
        r@ == strip_all_prefix(s@, p@),
{
    let pv = chars_of(p);
    let mut i: usize = 0;
    assert(s@.skip(0) =~= s@);
    while pv.len() > 0 && eq_at(s, i, &pv)
        invariant
            i <= s.len(),
            pv@ == p@,
            strip_all_prefix(s@, p@) == strip_all_prefix(s@.skip(i as int), p@),
        decreases s.len() - i,
    {
        assert(s@.skip(i as int).take(pv@.len() as int) =~= s@.subrange(i as int, i + pv@.len()));
        assert(s@.skip(i as int).skip(pv@.len() as int) =~= s@.skip(i + pv@.len()));
        i = i + pv.len();
    }
    proof {
        if pv@.len() > 0 && starts_with(s@.skip(i as int), p@) {
            assert(s@.skip(i as int).take(pv@.len() as int) =~= s@.subrange(i as int, i + pv@.len()));
        }
    }
    slice(s, i, s.len())
}

/// The leading run of ASCII digits.
pub open spec fn digit_prefix_len(s: Seq<char>) -> int
    decreases s.len(),
{
    if s.len() > 0 && is_ascii_digit(s[0]) {
        1 + digit_prefix_len(s.drop_first())
    } else {
        0
    }
}

pub proof fn lemma_digit_prefix(s: Seq<char>)
    ensures
        0 <= digit_prefix_len(s) <= s.len(),
        all_digits(s.take(digit_prefix_len(s))),
        digit_prefix_len(s) < s.len() ==> !is_ascii_digit(s[digit_prefix_len(s)]),
    decreases s.len(),
{
    if s.len() > 0 && is_ascii_digit(s[0]) {
        lemma_digit_prefix(s.drop_first());
        let n = digit_prefix_len(s.drop_first());
        assert forall|i: int| 0 <= i < 1 + n implies is_ascii_digit(#[trigger] s.take(1 + n)[i]) by {
            if i > 0 {
                assert(s.take(1 + n)[i] == s.drop_first().take(n)[i - 1]);
            }
        }
    }
}

pub fn digit_prefix(s: &Vec<char>, from: usize) -> (r: usize)
    requires
        from <= s.len(),
    ensures
        from <= r <= s.len(),
        r - from == digit_prefix_len(s@.skip(from as int)),
{
    let mut i: usize = from;
    while i < s.len() && is_digit(s[i])
        invariant
            from <= i <= s.len(),
            digit_prefix_len(s@.skip(from as int)) == (i - from) + digit_prefix_len(s@.skip(i as int)),
        decreases s.len() - i,
    {
        assert(s@.skip(i as int).drop_first() =~= s@.skip(i + 1));
        i += 1;
    }
    i
}

} // verus!
