//! Text patterns through the `regex` crate, the byte offsets it reports mapped back onto
//! characters, and the number syntax `str::parse` accepts.

use vstd::prelude::*;
use regex::Regex;
use crate::text::{all_digits, digits_value, is_ascii_digit, parse_digits};

verus! {

broadcast use vstd::string::group_string_axioms;

/// The groups of the leftmost-first match of `pattern` in `text` that starts at byte
/// `start` or later, as the `regex` crate reports them: one `(took part, start byte,
/// end byte)` per group, group 0 being the whole match. Empty when nothing matches or
/// the pattern does not compile.
pub uninterp spec fn regex_captures_at(pattern: Seq<char>, text: Seq<char>, start: usize) -> Seq<
    (bool, usize, usize),
>;

/// `text` with every non-overlapping match of `pattern` replaced by `replacement`, as
/// `Regex::replace_all` computes it; `text` unchanged when the pattern does not compile.
pub uninterp spec fn regex_replaced(pattern: Seq<char>, text: Seq<char>, replacement: Seq<char>)
    -> Seq<char>;

/// What `str::to_lowercase` gives for `s` (full Unicode case mapping).
pub uninterp spec fn unicode_lowercase(s: Seq<char>) -> Seq<char>;

/// What `str::to_uppercase` gives for `s` (full Unicode case mapping).
pub uninterp spec fn unicode_uppercase(s: Seq<char>) -> Seq<char>;

/// How many bytes UTF-8 spends on `c`.
pub open spec fn utf8_width(c: char) -> nat {
    if (c as u32) < 0x80 {
        1
    } else if (c as u32) < 0x800 {
        2
    } else if (c as u32) < 0x10000 {
        3
    } else {
        4
    }
}

/// The length in bytes of the UTF-8 encoding of `s`: what `str::len` answers.
pub open spec fn byte_len(s: Seq<char>) -> nat
    decreases s.len(),
{
    if s.len() == 0 {
        0
    } else {
        byte_len(s.drop_last()) + utf8_width(s.last())
    }
}

/// `Regex::new(pattern)` then `captures_at(text, start)`, the groups reported as byte
/// ranges.
///
/// Trusted: the contract names the result and claims nothing else of it; the call is
/// only made with `start` inside the text, where `captures_at` does not panic.
#[verifier::external_body]
pub fn captures_at(pattern: &str, text: &str, start: usize) -> (r: Vec<(bool, usize, usize)>)
    requires
        start <= byte_len(text@),
    ensures
        r@ == regex_captures_at(pattern@, text@, start),
{
    let Ok(re) = Regex::new(pattern) else { return Vec::new() };
    match re.captures_at(text, start) {
        Some(c) => c.iter().map(|m| m.map_or((false, 0, 0), |m| (true, m.start(), m.end()))).collect(),
        None => Vec::new(),
    }
}

/// `Regex::new(pattern)` then `replace_all(text, replacement)`.
///
/// Trusted: the contract names the result and claims nothing else of it.
#[verifier::external_body]
pub fn replace_matches(pattern: &str, text: &str, replacement: &str) -> (r: String)
    ensures
        r@ == regex_replaced(pattern@, text@, replacement@),
{
    match Regex::new(pattern) {
        Ok(re) => re.replace_all(text, replacement).into_owned(),
        Err(_) => text.to_string(),
    }
}

/// `str::to_lowercase`.
///
/// Trusted: the contract names the result and claims nothing else of it.
#[verifier::external_body]
pub fn to_lowercase(s: &str) -> (r: String)
    ensures
        r@ == unicode_lowercase(s@),
{
    s.to_lowercase()
}

/// `str::to_uppercase`.
///
/// Trusted: the contract names the result and claims nothing else of it.
#[verifier::external_body]
pub fn to_uppercase(s: &str) -> (r: String)
    ensures
        r@ == unicode_uppercase(s@),
{
    s.to_uppercase()
}

/// The number of bytes `c` takes in UTF-8.
pub fn width_of(c: char) -> (r: usize)
    ensures
        r == utf8_width(c),
{
    let n = c as u32;
    if n < 0x80 {
        1
    } else if n < 0x800 {
        2
    } else if n < 0x10000 {
        3
    } else {
        4
    }
}

pub proof fn lemma_byte_len_take_step(s: Seq<char>, i: int)
    requires
        0 <= i < s.len(),
    ensures
        byte_len(s.take(i + 1)) == byte_len(s.take(i)) + utf8_width(s[i]),
{
    assert(s.take(i + 1).drop_last() =~= s.take(i));
}

pub proof fn lemma_byte_len_grows(s: Seq<char>, i: int, j: int)
    requires
        0 <= i <= j <= s.len(),
    ensures
        byte_len(s.take(i)) + (j - i) <= byte_len(s.take(j)),
    decreases j - i,
{
    if i < j {
        lemma_byte_len_grows(s, i, j - 1);
        lemma_byte_len_take_step(s, j - 1);
    }
}

/// The character index at which byte `b` of the UTF-8 encoding of `s` starts a
/// character (`s.len()` for the end), or `None` when `b` falls inside a character or
/// past the end.
pub open spec fn char_index(s: Seq<char>, b: int) -> Option<int> {
    if exists|i: int| 0 <= i <= s.len() && byte_len(#[trigger] s.take(i)) == b {
        Some(choose|i: int| 0 <= i <= s.len() && byte_len(#[trigger] s.take(i)) == b)
    } else {
        None
    }
}

pub proof fn lemma_char_index_unique(s: Seq<char>, i: int, j: int)
    requires
        0 <= i <= s.len(),
        0 <= j <= s.len(),
        byte_len(s.take(i)) == byte_len(s.take(j)),
    ensures
        i == j,
{
    if i < j {
        lemma_byte_len_grows(s, i, j);
    } else if j < i {
        lemma_byte_len_grows(s, j, i);
    }
}

/// Map a byte offset into `s` onto a character index, as `char_index` describes.
pub fn char_index_of(s: &Vec<char>, b: usize) -> (r: Option<usize>)
    ensures
        match r {
            Some(i) => i <= s.len() && byte_len(s@.take(i as int)) == b && char_index(s@, b as int)
                == Some(i as int),
            None => char_index(s@, b as int) is None,
        },
{
    let mut i: usize = 0;
    let mut at: usize = 0;
    while i < s.len()
        invariant_except_break
            i <= s.len(),
            at == byte_len(s@.take(i as int)),
            at <= b,
            forall|k: int| 0 <= k < i ==> byte_len(#[trigger] s@.take(k)) < b,
        ensures
            i <= s.len(),
            at == byte_len(s@.take(i as int)),
            forall|k: int| 0 <= k < i ==> byte_len(#[trigger] s@.take(k)) < b,
            at <= b,
            at == b || i == s.len(),
        decreases s.len() - i,
    {
        if at == b {
            break;
        }
        proof {
            lemma_byte_len_take_step(s@, i as int);
        }
        let w = width_of(s[i]);
        if w > b - at {
            proof {
                assert forall|k: int| 0 <= k <= s@.len() implies byte_len(#[trigger] s@.take(k))
                    != b by {
                    if k > i {
                        lemma_byte_len_grows(s@, i as int + 1, k);
                    }
                }
            }
            return None;
        }
        at = at + w;
        i = i + 1;
    }
    if at == b {
        proof {
            assert(byte_len(s@.take(i as int)) == b);
            assert forall|k: int| 0 <= k <= s@.len() && byte_len(#[trigger] s@.take(k)) == b
                implies k == i by {
                lemma_char_index_unique(s@, k, i as int);
            }
        }
        Some(i)
    } else {
        proof {
            assert forall|k: int| 0 <= k <= s@.len() implies byte_len(#[trigger] s@.take(k))
                != b by {
                if k == s@.len() {
                    assert(s@.take(k) =~= s@.take(i as int));
                }
            }
        }
        None
    }
}

/// The bytes of `s`, counted.
pub fn byte_length(s: &Vec<char>) -> (r: usize)
    requires
        byte_len(s@) <= usize::MAX,
    ensures
        r == byte_len(s@),
{
    let mut i: usize = 0;
    let mut at: usize = 0;
    while i < s.len()
        invariant
            i <= s.len(),
            at == byte_len(s@.take(i as int)),
            byte_len(s@) <= usize::MAX,
        decreases s.len() - i,
    {
        proof {
            lemma_byte_len_take_step(s@, i as int);
            lemma_byte_len_grows(s@, i as int + 1, s@.len() as int);
            assert(s@.take(s@.len() as int) =~= s@);
        }
        at = at + width_of(s[i]);
        i = i + 1;
    }
    assert(s@.take(s@.len() as int) =~= s@);
    at
}

/// The text of capture group `k`, when it took part in the match and its bounds fall on
/// characters of `text`.
pub open spec fn group_text(text: Seq<char>, caps: Seq<(bool, usize, usize)>, k: int) -> Option<
    Seq<char>,
> {
    if 0 <= k < caps.len() && caps[k].0 {
        match (char_index(text, caps[k].1 as int), char_index(text, caps[k].2 as int)) {
            (Some(a), Some(b)) => if a <= b {
                Some(text.subrange(a, b))
            } else {
                None
            },
            _ => None,
        }
    } else {
        None
    }
}

/// The character bounds of capture group `k`, as `group_text` reads them.
pub fn group_bounds(text: &Vec<char>, caps: &Vec<(bool, usize, usize)>, k: usize) -> (r: Option<
    (usize, usize),
>)
    ensures
        match r {
            Some((a, b)) => a <= b <= text.len() && group_text(text@, caps@, k as int) == Some(
                text@.subrange(a as int, b as int),
            ) && char_index(text@, caps@[k as int].1 as int) == Some(a as int) && char_index(
                text@,
                caps@[k as int].2 as int,
            ) == Some(b as int),
            None => group_text(text@, caps@, k as int) is None,
        },
{
    if k >= caps.len() || !caps[k].0 {
        return None;
    }
    let (_, s, e) = caps[k];
    match (char_index_of(text, s), char_index_of(text, e)) {
        (Some(a), Some(b)) => if a <= b {
            Some((a, b))
        } else {
            None
        },
        _ => None,
    }
}

/// The value `str::parse` gives an unsigned integer type whose largest value is `max`:
/// an optional `+`, then at least one ASCII digit and nothing else.
pub open spec fn parse_unsigned(s: Seq<char>, max: int) -> Option<int> {
    let body = if s.len() > 0 && s[0] == '+' {
        s.drop_first()
    } else {
        s
    };
    if body.len() > 0 && all_digits(body) && digits_value(body) <= max {
        Some(digits_value(body))
    } else {
        None
    }
}

/// The value `str::parse` gives a signed integer type ranging over `min..=max`: an
/// optional sign, then at least one ASCII digit and nothing else.
pub open spec fn parse_signed(s: Seq<char>, min: int, max: int) -> Option<int> {
    if s.len() > 0 && s[0] == '-' {
        let body = s.drop_first();
        if body.len() > 0 && all_digits(body) && -digits_value(body) >= min {
            Some(-digits_value(body))
        } else {
            None
        }
    } else {
        parse_unsigned(s, max)
    }
}

/// `str::parse` into an unsigned integer type whose largest value is `max`, on
/// `s[lo..hi]`.
pub fn parse_unsigned_in(s: &Vec<char>, lo: usize, hi: usize, max: u64) -> (r: Option<u64>)
    requires
        lo <= hi <= s.len(),
    ensures
        match r {
            Some(v) => parse_unsigned(s@.subrange(lo as int, hi as int), max as int) == Some(v as int),
            None => parse_unsigned(s@.subrange(lo as int, hi as int), max as int) is None,
        },
{
    let ghost t = s@.subrange(lo as int, hi as int);
    let mut from = lo;
    if lo < hi && s[lo] == '+' {
        from = lo + 1;
        assert(t.drop_first() =~= s@.subrange(from as int, hi as int));
    } else {
        assert(t =~= s@.subrange(from as int, hi as int));
    }
    parse_digits(s, from, hi, max)
}

/// `str::parse::<i32>` on `s[lo..hi]`.
pub fn parse_i32_in(s: &Vec<char>, lo: usize, hi: usize) -> (r: Option<i32>)
    requires
        lo <= hi <= s.len(),
    ensures
        match r {
            Some(v) => parse_signed(s@.subrange(lo as int, hi as int), i32::MIN as int, i32::MAX as int)
                == Some(v as int),
            None => parse_signed(s@.subrange(lo as int, hi as int), i32::MIN as int, i32::MAX as int) is None,
        },
{
    let ghost t = s@.subrange(lo as int, hi as int);
    if lo < hi && s[lo] == '-' {
        assert(t.drop_first() =~= s@.subrange(lo + 1, hi as int));
        match parse_digits(s, lo + 1, hi, 2147483648) {
            Some(v) => {
                if v == 2147483648 {
                    Some(-2147483648i32)
                } else {
                    Some(-(v as i32))
                }
            },
            None => None,
        }
    } else {
        match parse_unsigned_in(s, lo, hi, 2147483647) {
            Some(v) => Some(v as i32),
            None => None,
        }
    }
}

/// The byte length of `s`, in a type wide enough that it cannot overflow.
pub fn byte_count(s: &Vec<char>) -> (r: u128)
    ensures
        r == byte_len(s@),
        r <= 4 * s@.len(),
{
    let mut i: usize = 0;
    let mut n: u128 = 0;
    while i < s.len()
        invariant
            i <= s.len(),
            n == byte_len(s@.take(i as int)),
            n <= 4 * i,
        decreases s.len() - i,
    {
        proof {
            lemma_byte_len_take_step(s@, i as int);
        }
        n = n + width_of(s[i]) as u128;
        i += 1;
    }
    assert(s@.take(s@.len() as int) =~= s@);
    n
}

} // verus!
