//! M3U / M3U8 playlist parser.
//!
//! Real playlists are broken — BOMs, CRLF/LF mixes, unescaped quotes, duplicate entries,
//! missing commas, non-UTF-8 encodings. This parser goes line by line, never panics, and
//! degrades to a warning rather than losing the rest of the file.

use vstd::prelude::*;
use vstd::utf8::{decode_utf8, encode_utf8, valid_utf8};
use vstd::hash_set::StringHashSet;
use crate::model::{Catchup, HttpOptions, MediaKind, ParseWarning, PlaylistEntry, PlaylistParseResult};
use crate::classify::{classify, spec_classify};
use crate::pattern::{parse_unsigned, parse_unsigned_in};
use crate::text::{opt_view, owned, seq_eq, split_on, split_bounds, append, append_str,
    has_prefix, digits_value, ascii_lower, chars_of, is_ascii_alnum, is_ascii_alpha, is_whitespace, lower_all, slice,
    starts_with, str_eq, string_of, trim, trim_bounds, trim_end, trim_start, white_space,
};

verus! {

broadcast use vstd::string::group_string_axioms;

// ---------------------------------------------------------------------------------------
// Bytes: lines, percent-escapes, and the lossy UTF-8 reading of both.
// ---------------------------------------------------------------------------------------

/// What `String::from_utf8_lossy` gives for `bytes`: each maximal invalid sequence
/// replaced by U+FFFD.
pub uninterp spec fn utf8_lossy(bytes: Seq<u8>) -> Seq<char>;

/// `String::from_utf8_lossy(bytes).into_owned()`.
///
/// Trusted: the contract names the result, and claims what std documents for valid
/// input: valid UTF-8 is decoded unchanged.
#[verifier::external_body]
pub fn lossy(bytes: &[u8]) -> (r: String)
    ensures
        r@ == utf8_lossy(bytes@),
        valid_utf8(bytes@) ==> r@ == decode_utf8(bytes@),
{
    String::from_utf8_lossy(bytes).into_owned()
}

/// `slice::split` on one byte: every `sep` ends one piece and starts the next.
pub open spec fn split_bytes(s: Seq<u8>, sep: u8) -> Seq<Seq<u8>>
    decreases s.len(),
{
    if s.len() == 0 {
        seq![Seq::<u8>::empty()]
    } else {
        let prev = split_bytes(s.drop_last(), sep);
        if s.last() == sep {
            prev.push(Seq::<u8>::empty())
        } else {
            prev.update(prev.len() - 1, prev.last().push(s.last()))
        }
    }
}

pub proof fn lemma_split_bytes_nonempty(s: Seq<u8>, sep: u8)
    ensures
        split_bytes(s, sep).len() >= 1,
    decreases s.len(),
{
    if s.len() > 0 {
        lemma_split_bytes_nonempty(s.drop_last(), sep);
    }
}

/// The lines of `b`, split on `\n`, as bounds into `b`.
pub fn line_bounds(b: &[u8]) -> (r: Vec<(usize, usize)>)
    ensures
        r@.len() == split_bytes(b@, 10u8).len(),
        forall|k: int|
            0 <= k < r@.len() ==> {
                &&& (#[trigger] r@[k]).0 <= r@[k].1 <= b.len()
                &&& b@.subrange(r@[k].0 as int, r@[k].1 as int) == split_bytes(b@, 10u8)[k]
            },
{
    let mut r: Vec<(usize, usize)> = Vec::new();
    let mut start: usize = 0;
    let mut i: usize = 0;
    while i < b.len()
        invariant
            start <= i <= b.len(),
            r@.len() + 1 == split_bytes(b@.take(i as int), 10u8).len(),
            forall|k: int|
                0 <= k < r@.len() ==> {
                    &&& (#[trigger] r@[k]).0 <= r@[k].1 <= i
                    &&& b@.subrange(r@[k].0 as int, r@[k].1 as int) == split_bytes(
                        b@.take(i as int),
                        10u8,
                    )[k]
                },
            b@.subrange(start as int, i as int) == split_bytes(b@.take(i as int), 10u8).last(),
        decreases b.len() - i,
    {
        let ghost before = b@.take(i as int);
        assert(b@.take(i + 1).drop_last() =~= before);
        proof {
            lemma_split_bytes_nonempty(before, 10u8);
        }
        if b[i] == 10u8 {
            r.push((start, i));
            start = i + 1;
            assert(b@.subrange(start as int, i + 1) =~= Seq::<u8>::empty());
        } else {
            assert(b@.subrange(start as int, i + 1) =~= b@.subrange(start as int, i as int).push(
                b@[i as int],
            ));
        }
        i += 1;
    }
    assert(b@.take(b@.len() as int) =~= b@);
    r.push((start, b.len()));
    r
}

pub open spec fn hex_val(b: u8) -> Option<u8> {
    if 48 <= b <= 57 {
        Some((b - 48) as u8)
    } else if 97 <= b <= 102 {
        Some((b - 97 + 10) as u8)
    } else if 65 <= b <= 70 {
        Some((b - 65 + 10) as u8)
    } else {
        None
    }
}

fn hex_digit(b: u8) -> (r: Option<u8>)
    ensures
        r == hex_val(b),
{
    if 48 <= b && b <= 57 {
        Some(b - 48)
    } else if 97 <= b && b <= 102 {
        Some(b - 97 + 10)
    } else if 65 <= b && b <= 70 {
        Some(b - 65 + 10)
    } else {
        None
    }
}

/// Percent-decoding over bytes: `%` and two hex digits is the byte they spell, `+` is a
/// space, and anything else — a truncated or invalid escape included — is itself.
pub open spec fn pct_decode(b: Seq<u8>) -> Seq<u8>
    decreases b.len(),
{
    if b.len() == 0 {
        Seq::empty()
    } else if b[0] == 37u8 && 2 < b.len() && hex_val(b[1]) is Some && hex_val(b[2]) is Some {
        seq![(hex_val(b[1])->0 * 16 + hex_val(b[2])->0) as u8] + pct_decode(b.skip(3))
    } else {
        seq![if b[0] == 43u8 { 32u8 } else { b[0] }] + pct_decode(b.skip(1))
    }
}

/// Percent-decode, over bytes, then read the result as UTF-8 once at the end: there is no
/// `&str` index to land inside a character, and the bytes a provider escaped are
/// reassembled before anything decides what characters they are.
pub fn urldecode(s: &str) -> (r: String)
    ensures
        r@ == utf8_lossy(pct_decode(encode_utf8(s@))),
{
    let b = s.as_bytes();
    let mut out: Vec<u8> = Vec::new();
    let mut i: usize = 0;
    assert(b@.skip(0) =~= b@);
    while i < b.len()
        invariant
            i <= b.len(),
            b@ == encode_utf8(s@),
            pct_decode(b@) == out@ + pct_decode(b@.skip(i as int)),
        decreases b.len() - i,
    {
        let ghost rest = b@.skip(i as int);
        assert(rest[0] == b@[i as int]);
        if b[i] == 37u8 && 2 < b.len() - i {
            assert(rest[1] == b@[i + 1] && rest[2] == b@[i + 2]);
            match (hex_digit(b[i + 1]), hex_digit(b[i + 2])) {
                (Some(hi), Some(lo)) => {
                    assert(rest.skip(3) =~= b@.skip(i + 3));
                    out.push(hi * 16 + lo);
                    i += 3;
                    assert(out@ + pct_decode(b@.skip(i as int)) =~= out@.drop_last() + (seq![
                        out@.last(),
                    ] + pct_decode(b@.skip(i as int))));
                    continue;
                },
                _ => {},
            }
        }
        assert(rest.skip(1) =~= b@.skip(i + 1));
        out.push(if b[i] == 43u8 { 32u8 } else { b[i] });
        i += 1;
        assert(out@ + pct_decode(b@.skip(i as int)) =~= out@.drop_last() + (seq![out@.last()]
            + pct_decode(b@.skip(i as int))));
    }
    assert(b@.skip(b@.len() as int) =~= Seq::<u8>::empty());
    assert(out@ + Seq::<u8>::empty() =~= out@);
    lossy(out.as_slice())
}

// ---------------------------------------------------------------------------------------
// Attribute lists, the `#EXTINF` payload, and small syntax checks.
// ---------------------------------------------------------------------------------------

/// The first position at or after `i` where `p` fails (the end when it never does).
pub open spec fn skip_while(s: Seq<char>, i: int, p: spec_fn(char) -> bool) -> int
    decreases s.len() - i,
{
    if 0 <= i < s.len() && p(s[i]) {
        skip_while(s, i + 1, p)
    } else {
        i
    }
}

pub proof fn lemma_skip_while(s: Seq<char>, i: int, p: spec_fn(char) -> bool)
    requires
        0 <= i <= s.len(),
    ensures
        i <= skip_while(s, i, p) <= s.len(),
        forall|k: int| i <= k < skip_while(s, i, p) ==> p(#[trigger] s[k]),
        skip_while(s, i, p) < s.len() ==> !p(s[skip_while(s, i, p)]),
    decreases s.len() - i,
{
    if i < s.len() && p(s[i]) {
        lemma_skip_while(s, i + 1, p);
    }
}

pub open spec fn is_key_char(c: char) -> bool {
    is_ascii_alnum(c) || c == '-' || c == '_' || c == '.'
}

pub open spec fn key_char() -> spec_fn(char) -> bool {
    |c: char| is_key_char(c)
}

pub open spec fn not_key_char() -> spec_fn(char) -> bool {
    |c: char| !is_key_char(c)
}

pub open spec fn ws_char() -> spec_fn(char) -> bool {
    |c: char| white_space(c)
}

pub open spec fn not_ws_char() -> spec_fn(char) -> bool {
    |c: char| !white_space(c)
}

pub open spec fn not_quote() -> spec_fn(char) -> bool {
    |c: char| c != '"'
}

/// The `key=value` pairs from position `i` on: junk before a key is skipped, a key
/// without `=` is dropped (the leading duration token is one), a value is either quoted
/// (up to the next quote, or the end) or runs to the next whitespace; keys are ASCII
/// lower-cased.
pub open spec fn attrs_from(s: Seq<char>, i: int) -> Seq<(Seq<char>, Seq<char>)>
    decreases s.len() - i,
{
    if i < 0 || i >= s.len() {
        seq![]
    } else {
        let ks = skip_while(s, i, not_key_char());
        let ke = skip_while(s, ks, key_char());
        if !(i <= ks < ke <= s.len()) {
            seq![]
        } else {
            let w = skip_while(s, ke, ws_char());
            if w >= s.len() || s[w] != '=' {
                attrs_from(s, ke)
            } else {
                let v = skip_while(s, w + 1, ws_char());
                let key = ascii_lower(s.subrange(ks, ke));
                if !(ke <= w < v <= s.len()) {
                    seq![]
                } else if v < s.len() && s[v] == '"' {
                    let q = skip_while(s, v + 1, not_quote());
                    let next = if q < s.len() {
                        q + 1
                    } else {
                        q
                    };
                    if !(v < q <= s.len()) {
                        seq![]
                    } else {
                        seq![(key, s.subrange(v + 1, q))] + attrs_from(s, next)
                    }
                } else {
                    let e = skip_while(s, v, not_ws_char());
                    if !(v <= e <= s.len()) {
                        seq![]
                    } else {
                        seq![(key, s.subrange(v, e))] + attrs_from(s, e)
                    }
                }
            }
        }
    }
}

pub open spec fn pairs_view(v: Seq<(String, String)>) -> Seq<(Seq<char>, Seq<char>)> {
    v.map_values(|p: (String, String)| (p.0@, p.1@))
}

fn key_char_at(c: char) -> (r: bool)
    ensures
        r == is_key_char(c),
{
    ('a' <= c && c <= 'z') || ('A' <= c && c <= 'Z') || ('0' <= c && c <= '9') || c == '-' || c
        == '_' || c == '.'
}

/// Parse `key="value"` / `key=value` pairs, tolerating unescaped junk between them.
fn parse_attributes(input: &Vec<char>) -> (r: Vec<(String, String)>)
    ensures
        pairs_view(r@) == attrs_from(input@, 0),
{
    let s = input;
    let n = s.len();
    let mut out: Vec<(String, String)> = Vec::new();
    let mut i: usize = 0;
    assert(pairs_view(out@) =~= Seq::<(Seq<char>, Seq<char>)>::empty());
    while i < n
        invariant_except_break
            n == s.len(),
            i <= n,
            attrs_from(s@, 0) == pairs_view(out@) + attrs_from(s@, i as int),
        ensures
            i >= n,
            attrs_from(s@, 0) == pairs_view(out@) + attrs_from(s@, i as int),
        decreases n - i,
    {
        let i0 = i;
        while i < n && !key_char_at(s[i])
            invariant
                i0 <= i <= n == s.len(),
                skip_while(s@, i0 as int, not_key_char()) == skip_while(s@, i as int, not_key_char()),
            decreases n - i,
        {
            i += 1;
        }
        let ks = i;
        while i < n && key_char_at(s[i])
            invariant
                ks <= i <= n == s.len(),
                skip_while(s@, ks as int, key_char()) == skip_while(s@, i as int, key_char()),
            decreases n - i,
        {
            i += 1;
        }
        let ke = i;
        proof {
            lemma_skip_while(s@, i0 as int, not_key_char());
            lemma_skip_while(s@, ks as int, key_char());
        }
        if ks == ke {
            assert(attrs_from(s@, ks as int) =~= Seq::<(Seq<char>, Seq<char>)>::empty()) by {
                if ks < n {
                    lemma_skip_while(s@, ks as int, not_key_char());
                }
            }
            assert(attrs_from(s@, i0 as int) =~= Seq::<(Seq<char>, Seq<char>)>::empty());
            assert(pairs_view(out@) + attrs_from(s@, i0 as int) =~= pairs_view(out@));
            i = n;
            assert(attrs_from(s@, i as int) =~= Seq::<(Seq<char>, Seq<char>)>::empty());
            break;
        }
        while i < n && is_whitespace(s[i])
            invariant
                ke <= i <= n == s.len(),
                skip_while(s@, ke as int, ws_char()) == skip_while(s@, i as int, ws_char()),
            decreases n - i,
        {
            i += 1;
        }
        let w = i;
        proof {
            lemma_skip_while(s@, ke as int, ws_char());
        }
        if w >= n || s[w] != '=' {
            i = ke;
            continue;
        }
        i = w + 1;
        while i < n && is_whitespace(s[i])
            invariant
                w + 1 <= i <= n == s.len(),
                skip_while(s@, w + 1, ws_char()) == skip_while(s@, i as int, ws_char()),
            decreases n - i,
        {
            i += 1;
        }
        let v = i;
        proof {
            lemma_skip_while(s@, w + 1, ws_char());
        }
        let kv = slice(s, ks, ke);
        let key = lower_all(&kv);
        let key_s = string_of(key.as_slice());
        if v < n && s[v] == '"' {
            i = v + 1;
            while i < n && s[i] != '"'
                invariant
                    v + 1 <= i <= n == s.len(),
                    skip_while(s@, v + 1, not_quote()) == skip_while(s@, i as int, not_quote()),
                decreases n - i,
            {
                i += 1;
            }
            let q = i;
            proof {
                lemma_skip_while(s@, v + 1, not_quote());
            }
            let val = slice(s, v + 1, q);
            if i < n {
                i += 1;
            }
            let ghost before = pairs_view(out@);
            out.push((key_s, string_of(val.as_slice())));
            assert(pairs_view(out@) =~= before.push((ascii_lower(s@.subrange(ks as int, ke as int)), s@.subrange(v + 1, q as int))));
        } else {
            let e0 = v;
            while i < n && !is_whitespace(s[i])
                invariant
                    e0 <= i <= n == s.len(),
                    skip_while(s@, e0 as int, not_ws_char()) == skip_while(s@, i as int, not_ws_char()),
                decreases n - i,
            {
                i += 1;
            }
            proof {
                lemma_skip_while(s@, e0 as int, not_ws_char());
            }
            let val = slice(s, v, i);
            let ghost before = pairs_view(out@);
            out.push((key_s, string_of(val.as_slice())));
            assert(pairs_view(out@) =~= before.push((ascii_lower(s@.subrange(ks as int, ke as int)), s@.subrange(v as int, i as int))));
        }
    }
    assert(attrs_from(s@, i as int) =~= Seq::<(Seq<char>, Seq<char>)>::empty());
    assert(pairs_view(out@) + Seq::<(Seq<char>, Seq<char>)>::empty() =~= pairs_view(out@));
    out
}

/// Where the first comma outside a quoted attribute value is, from `i` on, given whether
/// `i` is inside quotes; `-1` when there is none.
pub open spec fn extinf_comma(s: Seq<char>, i: int, in_quotes: bool) -> int
    decreases s.len() - i,
{
    if i < 0 || i >= s.len() {
        -1
    } else if s[i] == '"' {
        extinf_comma(s, i + 1, !in_quotes)
    } else if s[i] == ',' && !in_quotes {
        i
    } else {
        extinf_comma(s, i + 1, in_quotes)
    }
}

/// The `#EXTINF:` payload split into its attribute section and the display name, at the
/// first comma that is *outside* a quoted value — `group-title="Movies, Action"` holds
/// one. With no such comma the whole payload is attributes and the name is empty.
pub open spec fn spec_split_extinf(rest: Seq<char>) -> (Seq<char>, Seq<char>) {
    let c = extinf_comma(rest, 0, false);
    if 0 <= c < rest.len() {
        (rest.take(c), rest.skip(c + 1))
    } else {
        (rest, Seq::empty())
    }
}

fn split_extinf(rest: &Vec<char>) -> (r: (Vec<char>, Vec<char>))
    ensures
        (r.0@, r.1@) == spec_split_extinf(rest@),
{
    let mut in_quotes = false;
    let mut i: usize = 0;
    while i < rest.len()
        invariant
            i <= rest.len(),
            extinf_comma(rest@, 0, false) == extinf_comma(rest@, i as int, in_quotes),
        decreases rest.len() - i,
    {
        if rest[i] == '"' {
            in_quotes = !in_quotes;
        } else if rest[i] == ',' && !in_quotes {
            let a = slice(rest, 0, i);
            let b = slice(rest, i + 1, rest.len());
            assert(rest@.subrange(0, i as int) =~= rest@.take(i as int));
            assert(rest@.subrange(i + 1, rest@.len() as int) =~= rest@.skip(i + 1));
            return (a, b);
        }
        i += 1;
    }
    let a = slice(rest, 0, rest.len());
    assert(rest@.subrange(0, rest@.len() as int) =~= rest@);
    (a, Vec::new())
}

/// `s` split at the first `sep`, both halves trimmed; the whole of `s`, trimmed, and an
/// empty second half when there is no `sep`.
pub open spec fn spec_split_once_trim(s: Seq<char>, sep: char) -> (Seq<char>, Seq<char>) {
    let i = crate::text::first_index(s, sep);
    if i < s.len() {
        (trim(s.take(i)), trim(s.skip(i + 1)))
    } else {
        (trim(s), Seq::empty())
    }
}

fn split_once_trim(s: &Vec<char>, sep: char) -> (r: (Vec<char>, Vec<char>))
    ensures
        (r.0@, r.1@) == spec_split_once_trim(s@, sep),
{
    let mut i: usize = 0;
    while i < s.len() && s[i] != sep
        invariant
            i <= s.len(),
            forall|k: int| 0 <= k < i ==> s@[k] != sep,
        decreases s.len() - i,
    {
        i += 1;
    }
    if i < s.len() {
        proof {
            crate::text::lemma_first_index(s@, sep, i as int);
        }
        let (a, b) = trim_bounds(s, 0, i);
        let (c, d) = trim_bounds(s, i + 1, s.len());
        assert(s@.subrange(0, i as int) =~= s@.take(i as int));
        assert(s@.subrange(i + 1, s@.len() as int) =~= s@.skip(i + 1));
        (slice(s, a, b), slice(s, c, d))
    } else {
        proof {
            lemma_first_index_absent(s@, sep);
        }
        let (a, b) = trim_bounds(s, 0, s.len());
        assert(s@.subrange(0, s@.len() as int) =~= s@);
        (slice(s, a, b), Vec::new())
    }
}

proof fn lemma_first_index_absent(s: Seq<char>, c: char)
    requires
        forall|k: int| 0 <= k < s.len() ==> s[k] != c,
    ensures
        crate::text::first_index(s, c) == s.len(),
    decreases s.len(),
{
    if s.len() > 0 {
        lemma_first_index_absent(s.drop_first(), c);
    }
}

pub open spec fn spec_is_truthy(v: Seq<char>) -> bool {
    let k = ascii_lower(trim(v));
    k == "1"@ || k == "true"@ || k == "yes"@ || k == "on"@
}

fn is_truthy(v: &Vec<char>) -> (r: bool)
    ensures
        r == spec_is_truthy(v@),
{
    let (a, b) = trim_bounds(v, 0, v.len());
    assert(v@.subrange(0, v@.len() as int) =~= v@);
    let t = slice(v, a, b);
    let k = lower_all(&t);
    str_eq(&k, "1") || str_eq(&k, "true") || str_eq(&k, "yes") || str_eq(&k, "on")
}

/// `C:\Videos\clip.mkv` — a drive letter, a colon, and a separator.
pub open spec fn is_drive_path(line: Seq<char>) -> bool {
    line.len() > 2 && is_ascii_alpha(line[0]) && line[1] == ':' && (line[2] == '\\' || line[2]
        == '/')
}

/// A URL in a scheme players understand, a UNC path, or a Windows drive path.
pub open spec fn spec_looks_like_url(line: Seq<char>) -> bool {
    let lower = ascii_lower(line);
    starts_with(lower, "http://"@) || starts_with(lower, "https://"@) || starts_with(
        lower,
        "rtsp://"@,
    ) || starts_with(lower, "rtmp://"@) || starts_with(lower, "rtmps://"@) || starts_with(
        lower,
        "udp://"@,
    ) || starts_with(lower, "rtp://"@) || starts_with(lower, "file://"@) || starts_with(
        line,
        "\\\\"@,
    ) || is_drive_path(line)
}

fn looks_like_url(line: &Vec<char>) -> (r: bool)
    ensures
        r == spec_looks_like_url(line@),
{
    let lower = lower_all(line);
    has_prefix(&lower, "http://") || has_prefix(&lower, "https://") || has_prefix(&lower, "rtsp://")
        || has_prefix(&lower, "rtmp://") || has_prefix(&lower, "rtmps://") || has_prefix(
        &lower,
        "udp://",
    ) || has_prefix(&lower, "rtp://") || has_prefix(&lower, "file://") || has_prefix(
        line,
        "\\\\",
    ) || (line.len() > 2 && (('a' <= line[0] && line[0] <= 'z') || ('A' <= line[0] && line[0]
        <= 'Z')) && line[1] == ':' && (line[2] == '\\' || line[2] == '/'))
}

/// At most `n` characters of `s`, an ellipsis marking a cut.
pub open spec fn truncated(s: Seq<char>, n: nat) -> Seq<char> {
    if s.len() <= n {
        s
    } else {
        s.take(n as int) + "\u{2026}"@
    }
}

fn truncate(s: &Vec<char>, n: usize) -> (r: Vec<char>)
    ensures
        r@ == truncated(s@, n as nat),
{
    if s.len() <= n {
        let r = slice(s, 0, s.len());
        assert(s@.subrange(0, s@.len() as int) =~= s@);
        r
    } else {
        let mut r = slice(s, 0, n);
        assert(s@.subrange(0, n as int) =~= s@.take(n as int));
        crate::text::append_str(&mut r, "\u{2026}");
        r
    }
}

pub open spec fn pow10(k: nat) -> nat
    decreases k,
{
    if k == 0 {
        1
    } else {
        10 * pow10((k - 1) as nat)
    }
}

/// A decimal number: an optional sign, digits, and optionally a point and more digits,
/// with at least one digit in all; its sign, whole digits and fraction digits.
pub open spec fn decimal_parts(t: Seq<char>) -> Option<(bool, Seq<char>, Seq<char>)> {
    let signed = t.len() > 0 && (t[0] == '-' || t[0] == '+');
    let body = if signed {
        t.drop_first()
    } else {
        t
    };
    let d = crate::text::first_index(body, '.');
    let ip = body.take(d);
    let fp = if d < body.len() {
        body.skip(d + 1)
    } else {
        Seq::<char>::empty()
    };
    if crate::text::all_digits(ip) && crate::text::all_digits(fp) && ip.len() + fp.len() > 0 {
        Some((signed && t[0] == '-', ip, fp))
    } else {
        None
    }
}

pub open spec fn clamp_i32(x: int) -> i32 {
    if x < i32::MIN {
        i32::MIN
    } else if x > i32::MAX {
        i32::MAX
    } else {
        x as i32
    }
}

/// `tvg-shift` is in hours and may be fractional or negative (`-1.5`): the minutes it
/// stands for, rounded half away from zero and held to the `i32` range, read from the
/// exact decimal value with at most eighteen fraction digits; 0 for anything that is
/// not a plain decimal number.
pub open spec fn shift_minutes(v: Option<Seq<char>>) -> i32 {
    match v {
        None => 0,
        Some(t) => match decimal_parts(trim(t)) {
            None => 0,
            Some((neg, ip, fp)) => shift_of_parts(neg, ip, fp),
        },
    }
}

/// The minutes a decimal number of hours stands for, from its sign, whole digits and
/// fraction digits (only the first eighteen of which count).
pub open spec fn shift_of_parts(neg: bool, ip: Seq<char>, fp: Seq<char>) -> i32 {
    let f = if fp.len() > 18 {
        fp.take(18)
    } else {
        fp
    };
    let den = pow10(f.len()) as int;
    let num = 60 * (digits_value(ip) * den + digits_value(f));
    let mag = (2 * num + den) / (2 * den);
    clamp_i32(
        if neg {
            -mag
        } else {
            mag
        },
    )
}

proof fn lemma_pow10_pos(k: nat)
    ensures
        pow10(k) >= 1,
    decreases k,
{
    if k > 0 {
        lemma_pow10_pos((k - 1) as nat);
    }
}

proof fn lemma_pow10_monotone(a: nat, b: nat)
    requires
        a <= b,
    ensures
        pow10(a) <= pow10(b),
    decreases b,
{
    if a < b {
        lemma_pow10_monotone(a, (b - 1) as nat);
        lemma_pow10_pos((b - 1) as nat);
    }
}

proof fn lemma_pow10_at_most_18(k: nat)
    requires
        k <= 18,
    ensures
        1 <= pow10(k) <= 1_000_000_000_000_000_000,
{
    lemma_pow10_pos(k);
    lemma_pow10_monotone(k, 18);
    assert(pow10(18) == 1_000_000_000_000_000_000) by {
        reveal_with_fuel(pow10, 19);
    }
}

proof fn lemma_digits_below_pow10(s: Seq<char>)
    requires
        crate::text::all_digits(s),
    ensures
        0 <= digits_value(s) < pow10(s.len()),
    decreases s.len(),
{
    if s.len() > 0 {
        assert(crate::text::all_digits(s.drop_last())) by {
            assert forall|i: int| 0 <= i < s.drop_last().len() implies crate::text::is_ascii_digit(
                #[trigger] s.drop_last()[i],
            ) by {
                assert(s.drop_last()[i] == s[i]);
            }
        }
        lemma_digits_below_pow10(s.drop_last());
        assert(crate::text::is_ascii_digit(s[s.len() - 1]));
    }
}

/// Whether `t[lo..hi]` is all ASCII digits, checked.
fn digits_only(t: &Vec<char>, lo: usize, hi: usize) -> (r: bool)
    requires
        lo <= hi <= t.len(),
    ensures
        r == crate::text::all_digits(t@.subrange(lo as int, hi as int)),
{
    let mut i = lo;
    while i < hi
        invariant
            lo <= i <= hi <= t.len(),
            crate::text::all_digits(t@.subrange(lo as int, i as int)),
        decreases hi - i,
    {
        if !crate::text::is_digit(t[i]) {
            assert(!crate::text::is_ascii_digit(t@.subrange(lo as int, hi as int)[i - lo]));
            return false;
        }
        i += 1;
        assert(forall|k: int| 0 <= k < i - lo ==> t@.subrange(lo as int, i as int)[k] == t@[lo + k]);
    }
    true
}

/// The value of a run of digits, or `None` once it reaches `cap`.
fn digits_capped(t: &Vec<char>, lo: usize, hi: usize, cap: u64) -> (r: Option<u64>)
    requires
        lo <= hi <= t.len(),
        crate::text::all_digits(t@.subrange(lo as int, hi as int)),
        1 <= cap <= 1_000_000_000_000_000_000,
    ensures
        match r {
            Some(v) => v == digits_value(t@.subrange(lo as int, hi as int)) && v < cap,
            None => digits_value(t@.subrange(lo as int, hi as int)) >= cap,
        },
{
    let mut i = lo;
    let mut v: u64 = 0;
    while i < hi
        invariant
            lo <= i <= hi <= t.len(),
            crate::text::all_digits(t@.subrange(lo as int, hi as int)),
            v == digits_value(t@.subrange(lo as int, i as int)),
            v < cap,
            cap <= 1_000_000_000_000_000_000,
        decreases hi - i,
    {
        assert(t@.subrange(lo as int, i + 1).drop_last() =~= t@.subrange(lo as int, i as int));
        assert(t@.subrange(lo as int, hi as int)[i - lo] == t@[i as int]);
        let dg = (t[i] as u32 - '0' as u32) as u64;
        v = v * 10 + dg;
        i += 1;
        if v >= cap {
            proof {
                if i < hi {
                    crate::text::lemma_digits_grow(t@.subrange(lo as int, hi as int), i - lo);
                    assert(t@.subrange(lo as int, hi as int).take(i - lo) =~= t@.subrange(lo as int, i as int));
                }
            }
            return None;
        }
    }
    Some(v)
}

#[verifier::rlimit(50)]
fn shift_minutes_in(t: &Vec<char>) -> (r: i32)
    ensures
        r == shift_minutes(Some(t@)),
{
    let (a, b) = trim_bounds(t, 0, t.len());
    assert(t@.subrange(0, t@.len() as int) =~= t@);
    let ghost tt = t@.subrange(a as int, b as int);
    let signed = a < b && (t[a] == '-' || t[a] == '+');
    let neg = signed && t[a] == '-';
    let p = if signed {
        a + 1
    } else {
        a
    };
    let ghost body = t@.subrange(p as int, b as int);
    assert(body =~= if signed { tt.drop_first() } else { tt });
    let mut d = p;
    while d < b && t[d] != '.'
        invariant
            p <= d <= b <= t.len(),
            forall|k: int| p <= k < d ==> t@[k] != '.',
        decreases b - d,
    {
        d += 1;
    }
    proof {
        if d < b {
            crate::text::lemma_first_index(body, '.', d - p);
        } else {
            lemma_first_index_absent(body, '.');
        }
    }
    let ghost ip = body.take(d - p);
    let ghost fp = if d < b { body.skip(d - p + 1) } else { Seq::<char>::empty() };
    assert(ip =~= t@.subrange(p as int, d as int));
    let fs = if d < b {
        d + 1
    } else {
        b
    };
    assert(fp =~= t@.subrange(fs as int, b as int));
    if !digits_only(t, p, d) || !digits_only(t, fs, b) || (d == p && b == fs) {
        return 0;
    }
    assert(decimal_parts(tt) == Some((neg, ip, fp)));
    minutes_of_parts(t, neg, p, d, fs, b)
}

fn minutes_of_parts(t: &Vec<char>, neg: bool, p: usize, d: usize, fs: usize, b: usize) -> (r: i32)
    requires
        p <= d <= fs <= b <= t.len(),
        crate::text::all_digits(t@.subrange(p as int, d as int)),
        crate::text::all_digits(t@.subrange(fs as int, b as int)),
    ensures
        r == shift_of_parts(neg, t@.subrange(p as int, d as int), t@.subrange(fs as int, b as int)),
{
    let ghost ip = t@.subrange(p as int, d as int);
    let ghost fp = t@.subrange(fs as int, b as int);
    let fe = if b - fs > 18 {
        fs + 18
    } else {
        b
    };
    let ghost f = if fp.len() > 18 { fp.take(18) } else { fp };
    assert(f =~= t@.subrange(fs as int, fe as int));
    assert(crate::text::all_digits(f));
    proof {
        lemma_digits_below_pow10(f);
        lemma_pow10_at_most_18(f.len());
    }
    let frac = match digits_capped(t, fs, fe, 1_000_000_000_000_000_000) {
        Some(v) => v,
        None => return 0,
    };
    let mut den: u64 = 1;
    let mut k = fs;
    while k < fe
        invariant
            fs <= k <= fe,
            fe - fs <= 18,
            den == pow10((k - fs) as nat),
        decreases fe - k,
    {
        proof {
            lemma_pow10_at_most_18((k - fs) as nat);
            lemma_pow10_monotone((k - fs) as nat, 17);
            assert(pow10(17) == 100_000_000_000_000_000) by {
                reveal_with_fuel(pow10, 18);
            }
        }
        den = den * 10;
        k += 1;
    }
    let ghost dv = digits_value(ip);
    let ghost dn = pow10(f.len()) as int;
    let ghost num_s = 60 * (dv * dn + digits_value(f));
    let ghost mag_s = (2 * num_s + dn) / (2 * dn);
    match digits_capped(t, p, d, 100_000_000) {
        None => {
            assert(mag_s >= 60 * dv) by (nonlinear_arith)
                requires
                    num_s == 60 * (dv * dn + digits_value(f)),
                    mag_s == (2 * num_s + dn) / (2 * dn),
                    dn >= 1,
                    digits_value(f) >= 0,
                    dv >= 0,
            ;
            if neg {
                i32::MIN
            } else {
                i32::MAX
            }
        },
        Some(whole) => {
            let den128 = den as u128;
            assert(whole * den128 + frac < 200_000_000_000_000_000_000_000_000) by (nonlinear_arith)
                requires
                    whole < 100_000_000,
                    den128 <= 1_000_000_000_000_000_000,
                    frac < den128,
            ;
            let num: u128 = 60 * ((whole as u128) * den128 + frac as u128);
            let mag: u128 = (2 * num + den128) / (2 * den128);
            assert(mag <= 61 * 100_000_000) by (nonlinear_arith)
                requires
                    mag == (2 * num + den128) / (2 * den128),
                    num == 60 * (whole * den128 + frac),
                    whole < 100_000_000,
                    frac < den128,
                    den128 >= 1,
            ;
            let m: i64 = if neg {
                -(mag as i64)
            } else {
                mag as i64
            };
            if m < -2147483648 {
                i32::MIN
            } else if m > 2147483647 {
                i32::MAX
            } else {
                m as i32
            }
        },
    }
}

// ---------------------------------------------------------------------------------------
// One entry, from its pending `#EXTINF` metadata and its URL.
// ---------------------------------------------------------------------------------------

pub struct HttpV {
    pub user_agent: Option<Seq<char>>,
    pub referrer: Option<Seq<char>>,
    pub origin: Option<Seq<char>>,
}

pub open spec fn http_view(h: HttpOptions) -> HttpV {
    HttpV {
        user_agent: opt_view(h.user_agent),
        referrer: opt_view(h.referrer),
        origin: opt_view(h.origin),
    }
}

pub open spec fn http_is_empty(h: HttpV) -> bool {
    h.user_agent is None && h.referrer is None && h.origin is None
}

pub struct CatchupV {
    pub mode: Seq<char>,
    pub source: Option<Seq<char>>,
    pub days: u16,
}

/// A playlist entry, every text field by its characters.
pub struct EntryV {
    pub name: Seq<char>,
    pub url: Seq<char>,
    pub kind: MediaKind,
    pub tvg_id: Option<Seq<char>>,
    pub tvg_name: Option<Seq<char>>,
    pub logo: Option<Seq<char>>,
    pub group: Option<Seq<char>>,
    pub number: Option<u32>,
    pub shift_minutes: i32,
    pub language: Option<Seq<char>>,
    pub country: Option<Seq<char>>,
    pub is_radio: bool,
    pub catchup: Option<CatchupV>,
    pub http: HttpV,
    pub source_line: usize,
}

pub open spec fn entry_view(e: PlaylistEntry) -> EntryV {
    EntryV {
        name: e.name@,
        url: e.url@,
        kind: e.kind,
        tvg_id: opt_view(e.tvg_id),
        tvg_name: opt_view(e.tvg_name),
        logo: opt_view(e.logo),
        group: opt_view(e.group),
        number: e.number,
        shift_minutes: e.shift_minutes,
        language: opt_view(e.language),
        country: opt_view(e.country),
        is_radio: e.is_radio,
        catchup: match e.catchup {
            Some(c) => Some(CatchupV { mode: c.mode@, source: opt_view(c.source), days: c.days }),
            None => None,
        },
        http: http_view(e.http),
        source_line: e.source_line,
    }
}

/// What an `#EXTINF` line and the directives after it said, waiting for its URL.
pub struct PendingV {
    pub name: Option<Seq<char>>,
    pub attrs: Seq<(Seq<char>, Seq<char>)>,
    pub group_override: Option<Seq<char>>,
    pub http: HttpV,
    pub line: usize,
}

pub open spec fn pending_is_empty(p: PendingV) -> bool {
    p.name is None && p.attrs.len() == 0 && http_is_empty(p.http)
}

pub open spec fn no_pending() -> PendingV {
    PendingV {
        name: None,
        attrs: seq![],
        group_override: None,
        http: HttpV { user_agent: None, referrer: None, origin: None },
        line: 0,
    }
}

/// The value of the first attribute named `key` (in any ASCII case).
pub open spec fn find_attr(attrs: Seq<(Seq<char>, Seq<char>)>, key: Seq<char>) -> Option<Seq<char>>
    decreases attrs.len(),
{
    if attrs.len() == 0 {
        None
    } else if ascii_lower(attrs[0].0) == ascii_lower(key) {
        Some(attrs[0].1)
    } else {
        find_attr(attrs.drop_first(), key)
    }
}

/// The first attribute named `key`, unless its value is blank.
pub open spec fn attr(attrs: Seq<(Seq<char>, Seq<char>)>, key: Seq<char>) -> Option<Seq<char>> {
    match find_attr(attrs, key) {
        Some(v) => if trim(v).len() > 0 {
            Some(v)
        } else {
            None
        },
        None => None,
    }
}

pub open spec fn or_opt(a: Option<Seq<char>>, b: Option<Seq<char>>) -> Option<Seq<char>> {
    if a is Some {
        a
    } else {
        b
    }
}

/// The entry a URL completes: the display name (else `tvg-name`, else `Unnamed`), the
/// group (an `#EXTGRP` wins over `group-title`), catch-up (7 days unless a number says
/// otherwise), the channel number, the EPG shift, radio, and the HTTP overrides (a
/// `user-agent` attribute when no directive set one), classified by `classify`.
pub open spec fn spec_build_entry(p: PendingV, url: Seq<char>, line_no: usize) -> EntryV {
    let a = p.attrs;
    let name = match p.name {
        Some(n) => if n.len() > 0 {
            n
        } else {
            match attr(a, "tvg-name"@) {
                Some(v) => v,
                None => "Unnamed"@,
            }
        },
        None => match attr(a, "tvg-name"@) {
            Some(v) => v,
            None => "Unnamed"@,
        },
    };
    let group = or_opt(p.group_override, attr(a, "group-title"@));
    EntryV {
        name,
        url,
        kind: spec_classify(name, url, group),
        tvg_id: attr(a, "tvg-id"@),
        tvg_name: attr(a, "tvg-name"@),
        logo: or_opt(attr(a, "tvg-logo"@), attr(a, "logo"@)),
        group,
        number: match or_opt(
            or_opt(attr(a, "tvg-chno"@), attr(a, "tvg-channel-number"@)),
            attr(a, "channel-number"@),
        ) {
            Some(n) => match parse_unsigned(trim(n), u32::MAX as int) {
                Some(v) => Some(v as u32),
                None => None,
            },
            None => None,
        },
        shift_minutes: shift_minutes(or_opt(attr(a, "tvg-shift"@), attr(a, "timeshift"@))),
        language: attr(a, "tvg-language"@),
        country: attr(a, "tvg-country"@),
        is_radio: match attr(a, "radio"@) {
            Some(v) => spec_is_truthy(v),
            None => false,
        },
        catchup: match or_opt(attr(a, "catchup"@), attr(a, "catchup-type"@)) {
            Some(mode) => Some(
                CatchupV {
                    mode,
                    source: attr(a, "catchup-source"@),
                    days: match attr(a, "catchup-days"@) {
                        Some(d) => match parse_unsigned(d, 65535) {
                            Some(n) => n as u16,
                            None => 7,
                        },
                        None => 7,
                    },
                },
            ),
            None => None,
        },
        http: if p.http.user_agent is None {
            HttpV { user_agent: attr(a, "user-agent"@), ..p.http }
        } else {
            p.http
        },
        source_line: line_no,
    }
}

struct Pending {
    name: Option<String>,
    attrs: Vec<(String, String)>,
    group_override: Option<String>,
    http: HttpOptions,
    line: usize,
}

spec fn pending_view(p: Pending) -> PendingV {
    PendingV {
        name: opt_view(p.name),
        attrs: pairs_view(p.attrs@),
        group_override: opt_view(p.group_override),
        http: http_view(p.http),
        line: p.line,
    }
}

fn empty_pending() -> (r: Pending)
    ensures
        pending_view(r) == no_pending(),
{
    let r = Pending {
        name: None,
        attrs: Vec::new(),
        group_override: None,
        http: HttpOptions::new(),
        line: 0,
    };
    assert(pairs_view(r.attrs@) =~= Seq::<(Seq<char>, Seq<char>)>::empty());
    r
}

fn get_attr(attrs: &Vec<(String, String)>, key: &str) -> (r: Option<String>)
    ensures
        opt_view(r) == attr(pairs_view(attrs@), key@),
{
    let kv = chars_of(key);
    let kl = lower_all(&kv);
    let ghost all = pairs_view(attrs@);
    let mut i: usize = 0;
    assert(all.skip(0) =~= all);
    while i < attrs.len()
        invariant
            i <= attrs.len(),
            all == pairs_view(attrs@),
            kl@ == ascii_lower(key@),
            find_attr(all, key@) == find_attr(all.skip(i as int), key@),
        decreases attrs.len() - i,
    {
        let ghost rest = all.skip(i as int);
        assert(rest[0] == all[i as int]);
        assert(rest.drop_first() =~= all.skip(i + 1));
        let k = chars_of(attrs[i].0.as_str());
        let k_lower = lower_all(&k);
        if seq_eq(&k_lower, &kl) {
            let v = chars_of(attrs[i].1.as_str());
            let (a, b) = trim_bounds(&v, 0, v.len());
            assert(v@.subrange(0, v@.len() as int) =~= v@);
            if a < b {
                return Some(owned(attrs[i].1.as_str()));
            } else {
                return None;
            }
        }
        i += 1;
    }
    None
}

fn or_string(a: Option<String>, b: Option<String>) -> (r: Option<String>)
    ensures
        opt_view(r) == or_opt(opt_view(a), opt_view(b)),
{
    if a.is_some() {
        a
    } else {
        b
    }
}

fn number_of(n: Option<String>) -> (r: Option<u32>)
    ensures
        r == match opt_view(n) {
            Some(t) => match parse_unsigned(trim(t), u32::MAX as int) {
                Some(v) => Some(v as u32),
                None => None,
            },
            None => None,
        },
{
    match n {
        None => None,
        Some(t) => {
            let v = chars_of(t.as_str());
            let (a, b) = trim_bounds(&v, 0, v.len());
            assert(v@.subrange(0, v@.len() as int) =~= v@);
            match parse_unsigned_in(&v, a, b, 4294967295) {
                Some(x) => Some(x as u32),
                None => None,
            }
        },
    }
}

fn days_of(d: Option<String>) -> (r: u16)
    ensures
        r == match opt_view(d) {
            Some(t) => match parse_unsigned(t, 65535) {
                Some(n) => n as u16,
                None => 7,
            },
            None => 7,
        },
{
    match d {
        None => 7,
        Some(t) => {
            let v = chars_of(t.as_str());
            assert(v@.subrange(0, v@.len() as int) =~= v@);
            match parse_unsigned_in(&v, 0, v.len(), 65535) {
                Some(x) => x as u16,
                None => 7,
            }
        },
    }
}

fn shift_of(v: Option<String>) -> (r: i32)
    ensures
        r == shift_minutes(opt_view(v)),
{
    match v {
        None => 0,
        Some(t) => {
            let c = chars_of(t.as_str());
            shift_minutes_in(&c)
        },
    }
}

fn radio_of(v: Option<String>) -> (r: bool)
    ensures
        r == match opt_view(v) {
            Some(t) => spec_is_truthy(t),
            None => false,
        },
{
    match v {
        None => false,
        Some(t) => {
            let c = chars_of(t.as_str());
            is_truthy(&c)
        },
    }
}

fn build_entry(pending: Pending, url: &str, line_no: usize) -> (r: PlaylistEntry)
    ensures
        entry_view(r) == spec_build_entry(pending_view(pending), url@, line_no),
{
    let ghost pv = pending_view(pending);
    let a = &pending.attrs;
    let name = match pending.name {
        Some(n) => {
            if chars_of(n.as_str()).len() > 0 {
                n
            } else {
                match get_attr(a, "tvg-name") {
                    Some(v) => v,
                    None => owned("Unnamed"),
                }
            }
        },
        None => match get_attr(a, "tvg-name") {
            Some(v) => v,
            None => owned("Unnamed"),
        },
    };
    let group = or_string(pending.group_override, get_attr(a, "group-title"));
    let catchup = match or_string(get_attr(a, "catchup"), get_attr(a, "catchup-type")) {
        Some(mode) => Some(
            Catchup {
                mode,
                source: get_attr(a, "catchup-source"),
                days: days_of(get_attr(a, "catchup-days")),
            },
        ),
        None => None,
    };
    let mut http = pending.http;
    if http.user_agent.is_none() {
        http.user_agent = get_attr(a, "user-agent");
    }
    let kind = classify(
        name.as_str(),
        url,
        match &group {
            Some(g) => Some(g.as_str()),
            None => None,
        },
    );
    PlaylistEntry {
        name,
        url: owned(url),
        kind,
        tvg_id: get_attr(a, "tvg-id"),
        tvg_name: get_attr(a, "tvg-name"),
        logo: or_string(get_attr(a, "tvg-logo"), get_attr(a, "logo")),
        group,
        number: number_of(
            or_string(
                or_string(get_attr(a, "tvg-chno"), get_attr(a, "tvg-channel-number")),
                get_attr(a, "channel-number"),
            ),
        ),
        shift_minutes: shift_of(or_string(get_attr(a, "tvg-shift"), get_attr(a, "timeshift"))),
        language: get_attr(a, "tvg-language"),
        country: get_attr(a, "tvg-country"),
        is_radio: radio_of(get_attr(a, "radio")),
        catchup,
        http,
        source_line: line_no,
    }
}

// ---------------------------------------------------------------------------------------
// The playlist header's attributes and the `#KODIPROP` header list.
// ---------------------------------------------------------------------------------------

/// Playlist-level metadata carried on the `#EXTM3U` header line.
#[derive(Debug, Clone, PartialEq, Eq)]
pub struct PlaylistHeader {
    /// `url-tvg` / `x-tvg-url` — the provider's own EPG endpoint.
    pub epg_urls: Vec<String>,
    pub name: Option<String>,
}

pub open spec fn strings_view(v: Seq<String>) -> Seq<Seq<char>> {
    v.map_values(|s: String| s@)
}

/// The non-blank pieces, trimmed.
pub open spec fn url_pieces(ps: Seq<Seq<char>>) -> Seq<Seq<char>>
    decreases ps.len(),
{
    if ps.len() == 0 {
        seq![]
    } else {
        let t = trim(ps.last());
        url_pieces(ps.drop_last()) + if t.len() > 0 {
            seq![t]
        } else {
            seq![]
        }
    }
}

pub open spec fn is_epg_key(k: Seq<char>) -> bool {
    k == "url-tvg"@ || k == "x-tvg-url"@ || k == "tvg-url"@
}

/// The EPG URLs and playlist name after the header's attributes, in order: an EPG key
/// adds each URL of its comma-separated list, `name` names the playlist.
pub open spec fn apply_header_attrs(
    urls: Seq<Seq<char>>,
    name: Option<Seq<char>>,
    attrs: Seq<(Seq<char>, Seq<char>)>,
) -> (Seq<Seq<char>>, Option<Seq<char>>)
    decreases attrs.len(),
{
    if attrs.len() == 0 {
        (urls, name)
    } else {
        let (u, n) = apply_header_attrs(urls, name, attrs.drop_last());
        let (k, v) = attrs.last();
        if is_epg_key(k) {
            (u + url_pieces(split_on(v, ',')), n)
        } else if k == "name"@ {
            (u, Some(v))
        } else {
            (u, n)
        }
    }
}

fn push_url_pieces(urls: &mut Vec<String>, v: &Vec<char>)
    ensures
        strings_view(final(urls)@) == strings_view(old(urls)@) + url_pieces(split_on(v@, ',')),
{
    let bounds = split_bounds(v, 0, v.len(), ',');
    assert(v@.subrange(0, v@.len() as int) =~= v@);
    let ghost ps = split_on(v@, ',');
    let ghost start = strings_view(urls@);
    let mut k: usize = 0;
    while k < bounds.len()
        invariant
            k <= bounds.len(),
            ps == split_on(v@, ','),
            bounds@.len() == ps.len(),
            forall|j: int|
                0 <= j < bounds@.len() ==> {
                    &&& 0 <= (#[trigger] bounds@[j]).0 <= bounds@[j].1 <= v.len()
                    &&& v@.subrange(bounds@[j].0 as int, bounds@[j].1 as int) == ps[j]
                },
            strings_view(urls@) == start + url_pieces(ps.take(k as int)),
        decreases bounds.len() - k,
    {
        let (lo, hi) = bounds[k];
        let (a, b) = trim_bounds(v, lo, hi);
        assert(ps.take(k + 1).drop_last() =~= ps.take(k as int));
        assert(ps.take(k + 1).last() == ps[k as int]);
        let ghost before = strings_view(urls@);
        if a < b {
            let piece = slice(v, a, b);
            urls.push(string_of(piece.as_slice()));
            assert(strings_view(urls@) =~= before.push(trim(ps[k as int])));
        } else {
            assert(before + Seq::<Seq<char>>::empty() =~= before);
        }
        proof {
            assert(start + url_pieces(ps.take(k + 1)) =~= (start + url_pieces(ps.take(k as int)))
                + (if trim(ps[k as int]).len() > 0 { seq![trim(ps[k as int])] } else { seq![] }));
        }
        k += 1;
    }
    assert(ps.take(ps.len() as int) =~= ps);
}

fn apply_header(header: &mut PlaylistHeader, attrs: &Vec<(String, String)>)
    ensures
        (strings_view(final(header).epg_urls@), opt_view(final(header).name)) == apply_header_attrs(
            strings_view(old(header).epg_urls@),
            opt_view(old(header).name),
            pairs_view(attrs@),
        ),
{
    let ghost all = pairs_view(attrs@);
    let ghost u0 = strings_view(header.epg_urls@);
    let ghost n0 = opt_view(header.name);
    let mut i: usize = 0;
    while i < attrs.len()
        invariant
            i <= attrs.len(),
            all == pairs_view(attrs@),
            (strings_view(header.epg_urls@), opt_view(header.name)) == apply_header_attrs(
                u0,
                n0,
                all.take(i as int),
            ),
        decreases attrs.len() - i,
    {
        assert(all.take(i + 1).drop_last() =~= all.take(i as int));
        assert(all.take(i + 1).last() == all[i as int]);
        let k = chars_of(attrs[i].0.as_str());
        let v = chars_of(attrs[i].1.as_str());
        if str_eq(&k, "url-tvg") || str_eq(&k, "x-tvg-url") || str_eq(&k, "tvg-url") {
            push_url_pieces(&mut header.epg_urls, &v);
        } else if str_eq(&k, "name") {
            header.name = Some(owned(attrs[i].1.as_str()));
        }
        i += 1;
    }
    assert(all.take(all.len() as int) =~= all);
}

/// The decoded text of a percent-escaped header value.
pub open spec fn decoded(v: Seq<char>) -> Seq<char> {
    utf8_lossy(pct_decode(encode_utf8(v)))
}

/// The HTTP overrides after the `&`-separated `key=value` headers of a Kodi property.
pub open spec fn apply_kodi(h: HttpV, parts: Seq<Seq<char>>) -> HttpV
    decreases parts.len(),
{
    if parts.len() == 0 {
        h
    } else {
        let h2 = apply_kodi(h, parts.drop_last());
        let (hk, hv) = spec_split_once_trim(parts.last(), '=');
        let k = ascii_lower(hk);
        if k == "user-agent"@ {
            HttpV { user_agent: Some(decoded(hv)), ..h2 }
        } else if k == "referer"@ || k == "referrer"@ {
            HttpV { referrer: Some(decoded(hv)), ..h2 }
        } else {
            h2
        }
    }
}

fn apply_kodi_headers(http: &mut HttpOptions, v: &Vec<char>)
    ensures
        http_view(*final(http)) == apply_kodi(http_view(*old(http)), split_on(v@, '&')),
{
    let bounds = split_bounds(v, 0, v.len(), '&');
    assert(v@.subrange(0, v@.len() as int) =~= v@);
    let ghost ps = split_on(v@, '&');
    let ghost h0 = http_view(*http);
    let mut k: usize = 0;
    while k < bounds.len()
        invariant
            k <= bounds.len(),
            ps == split_on(v@, '&'),
            bounds@.len() == ps.len(),
            forall|j: int|
                0 <= j < bounds@.len() ==> {
                    &&& 0 <= (#[trigger] bounds@[j]).0 <= bounds@[j].1 <= v.len()
                    &&& v@.subrange(bounds@[j].0 as int, bounds@[j].1 as int) == ps[j]
                },
            http_view(*http) == apply_kodi(h0, ps.take(k as int)),
        decreases bounds.len() - k,
    {
        let (lo, hi) = bounds[k];
        assert(ps.take(k + 1).drop_last() =~= ps.take(k as int));
        assert(ps.take(k + 1).last() == ps[k as int]);
        let part = slice(v, lo, hi);
        let (hk, hv) = split_once_trim(&part, '=');
        let kl = lower_all(&hk);
        let hvs = string_of(hv.as_slice());
        if str_eq(&kl, "user-agent") {
            http.user_agent = Some(urldecode(hvs.as_str()));
        } else if str_eq(&kl, "referer") || str_eq(&kl, "referrer") {
            http.referrer = Some(urldecode(hvs.as_str()));
        }
        k += 1;
    }
    assert(ps.take(ps.len() as int) =~= ps);
}

// ---------------------------------------------------------------------------------------
// Lines, one at a time.
// ---------------------------------------------------------------------------------------

/// The parse so far: header, entries, warnings, the skip count, what is pending, and
/// whether a header was seen.
pub struct StateV {
    pub epg_urls: Seq<Seq<char>>,
    pub header_name: Option<Seq<char>>,
    pub entries: Seq<EntryV>,
    pub warnings: Seq<(usize, Seq<char>)>,
    pub skipped: int,
    pub pending: PendingV,
    pub saw_header: bool,
}

pub open spec fn has_url(entries: Seq<EntryV>, url: Seq<char>) -> bool {
    exists|i: int| 0 <= i < entries.len() && (#[trigger] entries[i]).url == url
}

pub open spec fn is_bom() -> spec_fn(char) -> bool {
    |c: char| c == '\u{feff}'
}

pub open spec fn is_cr() -> spec_fn(char) -> bool {
    |c: char| c == '\r'
}

/// A line as it is read: a byte-order mark at the very start dropped, then any carriage
/// returns at its end, then surrounding whitespace.
pub open spec fn clean_line(raw: Seq<char>, line_no: int) -> Seq<char> {
    let s = if line_no == 1 {
        crate::words::strip_start_by(raw, is_bom())
    } else {
        raw
    };
    trim(crate::words::strip_end_by(s, is_cr()))
}

/// An `#EXTVLCOPT:key=value` directive applied to the pending HTTP overrides.
pub open spec fn apply_vlcopt(h: HttpV, opt: Seq<char>) -> HttpV {
    let (k, v) = spec_split_once_trim(opt, '=');
    let kl = ascii_lower(k);
    if kl == "http-user-agent"@ {
        HttpV { user_agent: Some(v), ..h }
    } else if kl == "http-referrer"@ || kl == "http-referer"@ {
        HttpV { referrer: Some(v), ..h }
    } else if kl == "http-origin"@ {
        HttpV { origin: Some(v), ..h }
    } else {
        h
    }
}

/// A `#KODIPROP:key=value` directive applied to the pending HTTP overrides.
pub open spec fn apply_kodiprop(h: HttpV, prop: Seq<char>) -> HttpV {
    let (k, v) = spec_split_once_trim(prop, '=');
    let kl = ascii_lower(k);
    if kl == "inputstream.adaptive.stream_headers"@ || kl
        == "inputstream.adaptive.manifest_headers"@ {
        apply_kodi(h, split_on(v, '&'))
    } else {
        h
    }
}

/// An `#EXTINF:` line: a pending entry that never got its URL is reported and counted,
/// and this line's metadata becomes the pending entry.
pub open spec fn extinf_step(st: StateV, line_no: usize, rest: Seq<char>) -> StateV {
    let (meta, name) = spec_split_extinf(rest);
    let fresh = PendingV {
        name: Some(trim(name)),
        attrs: attrs_from(meta, 0),
        group_override: None,
        http: HttpV { user_agent: None, referrer: None, origin: None },
        line: line_no,
    };
    if pending_is_empty(st.pending) {
        StateV { pending: fresh, ..st }
    } else {
        StateV {
            warnings: st.warnings.push((st.pending.line, "entry had no URL and was dropped"@)),
            skipped: st.skipped + 1,
            pending: fresh,
            ..st
        }
    }
}

/// A bare line, which is a URL: an unusable one is reported and counted, a repeated one is
/// counted, and a new one completes the pending entry; either way nothing stays pending.
pub open spec fn url_step(st: StateV, line_no: usize, line: Seq<char>) -> StateV {
    if !spec_looks_like_url(line) {
        StateV {
            warnings: st.warnings.push((line_no, "skipped unusable URL: "@ + truncated(line, 80))),
            skipped: st.skipped + 1,
            pending: no_pending(),
            ..st
        }
    } else if has_url(st.entries, line) {
        StateV { skipped: st.skipped + 1, pending: no_pending(), ..st }
    } else {
        StateV {
            entries: st.entries.push(spec_build_entry(st.pending, line, line_no)),
            pending: no_pending(),
            ..st
        }
    }
}

/// One cleaned, non-empty line applied to the parse.
#[verifier::opaque]
pub open spec fn step_line(st: StateV, line_no: usize, line: Seq<char>) -> StateV {
    if line.len() == 0 {
        st
    } else if starts_with(line, "#EXTM3U"@) {
        let (u, n) = apply_header_attrs(st.epg_urls, st.header_name, attrs_from(line.skip(7), 0));
        StateV { epg_urls: u, header_name: n, saw_header: true, ..st }
    } else if starts_with(line, "#EXTINF:"@) {
        extinf_step(st, line_no, line.skip(8))
    } else if starts_with(line, "#EXTGRP:"@) {
        StateV { pending: PendingV { group_override: Some(trim(line.skip(8))), ..st.pending }, ..st }
    } else if starts_with(line, "#EXTVLCOPT:"@) {
        StateV {
            pending: PendingV { http: apply_vlcopt(st.pending.http, line.skip(11)), ..st.pending },
            ..st
        }
    } else if starts_with(line, "#KODIPROP:"@) {
        StateV {
            pending: PendingV { http: apply_kodiprop(st.pending.http, line.skip(10)), ..st.pending },
            ..st
        }
    } else if starts_with(line, "#PLAYLIST:"@) {
        StateV { header_name: Some(trim(line.skip(10))), ..st }
    } else if line[0] == '#' {
        st
    } else {
        url_step(st, line_no, line)
    }
}

pub open spec fn entries_view(v: Seq<PlaylistEntry>) -> Seq<EntryV> {
    v.map_values(|e: PlaylistEntry| entry_view(e))
}

pub open spec fn warnings_view(v: Seq<ParseWarning>) -> Seq<(usize, Seq<char>)> {
    v.map_values(|w: ParseWarning| (w.line, w.message@))
}

struct State {
    header: PlaylistHeader,
    result: PlaylistParseResult,
    pending: Pending,
    saw_header: bool,
    seen: StringHashSet,
}

spec fn state_view(st: State) -> StateV {
    StateV {
        epg_urls: strings_view(st.header.epg_urls@),
        header_name: opt_view(st.header.name),
        entries: entries_view(st.result.entries@),
        warnings: warnings_view(st.result.warnings@),
        skipped: st.result.skipped as int,
        pending: pending_view(st.pending),
        saw_header: st.saw_header,
    }
}

/// The seen URLs are exactly the entries' URLs, and the skip count (plus one for an
/// entry still pending) is at most the number of lines read.
spec fn state_ok(st: State, lines_read: int) -> bool {
    &&& forall|u: Seq<char>| st.seen@.contains(u) <==> has_url(entries_view(st.result.entries@), u)
    &&& st.result.skipped + (if pending_is_empty(pending_view(st.pending)) { 0int } else { 1int })
        <= lines_read
}

fn pending_empty(p: &Pending) -> (r: bool)
    ensures
        r == pending_is_empty(pending_view(*p)),
{
    p.name.is_none() && p.attrs.len() == 0 && p.http.is_empty()
}

fn warn(st: &mut State, line: usize, message: Vec<char>)
    ensures
        state_view(*final(st)) == (StateV {
            warnings: state_view(*old(st)).warnings.push((line, message@)),
            ..state_view(*old(st))
        }),
        final(st).seen@ == old(st).seen@,
        final(st).result.entries@ == old(st).result.entries@,
        final(st).result.skipped == old(st).result.skipped,
        final(st).pending == old(st).pending,
{
    let ghost before = warnings_view(st.result.warnings@);
    st.result.warnings.push(ParseWarning { line, message: string_of(message.as_slice()) });
    assert(warnings_view(st.result.warnings@) =~= before.push((line, message@)));
}

fn literal(s: &str) -> (r: Vec<char>)
    ensures
        r@ == s@,
{
    chars_of(s)
}

fn step_extinf(st: &mut State, line_no: usize, rest: &Vec<char>)
    requires
        state_ok(*old(st), line_no - 1),
        line_no >= 1,
    ensures
        state_ok(*final(st), line_no as int),
        state_view(*final(st)) == extinf_step(state_view(*old(st)), line_no, rest@),
{
    if !pending_empty(&st.pending) {
        let l = st.pending.line;
        warn(st, l, literal("entry had no URL and was dropped"));
        st.result.skipped = st.result.skipped + 1;
    }
    let (meta, name) = split_extinf(rest);
    let (a, b) = trim_bounds(&name, 0, name.len());
    assert(name@.subrange(0, name@.len() as int) =~= name@);
    let tn = slice(&name, a, b);
    let attrs = parse_attributes(&meta);
    st.pending = Pending {
        name: Some(string_of(tn.as_slice())),
        attrs,
        group_override: None,
        http: HttpOptions::new(),
        line: line_no,
    };
}

fn step_url(st: &mut State, line_no: usize, line: &Vec<char>)
    requires
        state_ok(*old(st), line_no - 1),
        line_no >= 1,
        line@.len() > 0,
        line@[0] != '#',
    ensures
        state_ok(*final(st), line_no as int),
        state_view(*final(st)) == url_step(state_view(*old(st)), line_no, line@),
{
    if !looks_like_url(line) {
        let mut msg = literal("skipped unusable URL: ");
        let t = truncate(line, 80);
        append(&mut msg, &t);
        warn(st, line_no, msg);
        st.result.skipped = st.result.skipped + 1;
        st.pending = empty_pending();
        return;
    }
    let url = string_of(line.as_slice());
    if st.seen.contains(url.as_str()) {
        st.result.skipped = st.result.skipped + 1;
        st.pending = empty_pending();
        return;
    }
    st.seen.insert(owned(url.as_str()));
    let mut p = empty_pending();
    std::mem::swap(&mut p, &mut st.pending);
    let entry = build_entry(p, url.as_str(), line_no);
    let ghost before = entries_view(st.result.entries@);
    st.result.entries.push(entry);
    assert(entries_view(st.result.entries@) =~= before.push(entry_view(entry)));
    assert forall|u: Seq<char>| st.seen@.contains(u) <==> has_url(entries_view(st.result.entries@), u) by {
        if u == line@ {
            assert(entries_view(st.result.entries@)[before.len() as int].url == u);
        }
        if has_url(entries_view(st.result.entries@), u) {
            let i = choose|i: int| 0 <= i < entries_view(st.result.entries@).len() && (#[trigger] entries_view(st.result.entries@)[i]).url == u;
            if i < before.len() {
                assert(before[i].url == u);
            }
        }
        if has_url(before, u) {
            let i = choose|i: int| 0 <= i < before.len() && (#[trigger] before[i]).url == u;
            assert(entries_view(st.result.entries@)[i] == before[i]);
        }
    }
}

fn rest_after(line: &Vec<char>, n: usize) -> (r: Vec<char>)
    requires
        n <= line.len(),
    ensures
        r@ == line@.skip(n as int),
{
    let r = slice(line, n, line.len());
    assert(line@.subrange(n as int, line@.len() as int) =~= line@.skip(n as int));
    r
}

fn trimmed_string(v: &Vec<char>) -> (r: String)
    ensures
        r@ == trim(v@),
{
    let (a, b) = trim_bounds(v, 0, v.len());
    assert(v@.subrange(0, v@.len() as int) =~= v@);
    let t = slice(v, a, b);
    string_of(t.as_slice())
}

fn step(st: &mut State, line_no: usize, line: &Vec<char>)
    requires
        state_ok(*old(st), line_no - 1),
        line_no >= 1,
    ensures
        state_ok(*final(st), line_no as int),
        state_view(*final(st)) == step_line(state_view(*old(st)), line_no, line@),
{
    reveal(step_line);
    if line.len() == 0 {
        return;
    }
    if has_prefix(line, "#EXTM3U") {
        proof {
            reveal_strlit("#EXTM3U");
        }
        let rest = rest_after(line, 7);
        let attrs = parse_attributes(&rest);
        apply_header(&mut st.header, &attrs);
        st.saw_header = true;
        return;
    }
    if has_prefix(line, "#EXTINF:") {
        proof {
            reveal_strlit("#EXTINF:");
        }
        let rest = rest_after(line, 8);
        step_extinf(st, line_no, &rest);
        return;
    }
    if has_prefix(line, "#EXTGRP:") {
        proof {
            reveal_strlit("#EXTGRP:");
        }
        let rest = rest_after(line, 8);
        st.pending.group_override = Some(trimmed_string(&rest));
        return;
    }
    if has_prefix(line, "#EXTVLCOPT:") {
        proof {
            reveal_strlit("#EXTVLCOPT:");
        }
        let rest = rest_after(line, 11);
        let (k, v) = split_once_trim(&rest, '=');
        let kl = lower_all(&k);
        if str_eq(&kl, "http-user-agent") {
            st.pending.http.user_agent = Some(string_of(v.as_slice()));
        } else if str_eq(&kl, "http-referrer") || str_eq(&kl, "http-referer") {
            st.pending.http.referrer = Some(string_of(v.as_slice()));
        } else if str_eq(&kl, "http-origin") {
            st.pending.http.origin = Some(string_of(v.as_slice()));
        }
        return;
    }
    if has_prefix(line, "#KODIPROP:") {
        proof {
            reveal_strlit("#KODIPROP:");
        }
        let rest = rest_after(line, 10);
        let (k, v) = split_once_trim(&rest, '=');
        let kl = lower_all(&k);
        if str_eq(&kl, "inputstream.adaptive.stream_headers") || str_eq(
            &kl,
            "inputstream.adaptive.manifest_headers",
        ) {
            apply_kodi_headers(&mut st.pending.http, &v);
        }
        return;
    }
    if has_prefix(line, "#PLAYLIST:") {
        proof {
            reveal_strlit("#PLAYLIST:");
        }
        let rest = rest_after(line, 10);
        st.header.name = Some(trimmed_string(&rest));
        return;
    }
    if line[0] == '#' {
        return;
    }
    step_url(st, line_no, line);
}

/// The lines before line `n` applied in order, each read lossily as UTF-8 and cleaned.
pub open spec fn parse_lines(lines: Seq<Seq<u8>>, n: int) -> StateV
    decreases n,
{
    if n <= 0 {
        StateV {
            epg_urls: seq![],
            header_name: None,
            entries: seq![],
            warnings: seq![],
            skipped: 0,
            pending: no_pending(),
            saw_header: false,
        }
    } else {
        step_line(
            parse_lines(lines, n - 1),
            n as usize,
            clean_line(utf8_lossy(lines[n - 1]), n),
        )
    }
}

/// What a parse reports: the header's EPG URLs and name, the entries, the warnings and
/// the number of entries skipped.
pub struct ParsedV {
    pub epg_urls: Seq<Seq<char>>,
    pub name: Option<Seq<char>>,
    pub entries: Seq<EntryV>,
    pub warnings: Seq<(usize, Seq<char>)>,
    pub skipped: int,
}

/// The whole playlist: every line applied, then an entry still pending at the end
/// reported and counted, then a warning if the file had neither a header nor entries.
pub open spec fn spec_parse(bytes: Seq<u8>) -> ParsedV {
    let lines = split_bytes(bytes, 10u8);
    spec_finish(parse_lines(lines, lines.len() as int))
}

/// The end of a parse: an entry still pending reported and counted, then a warning if
/// the file had neither a header nor entries.
pub open spec fn spec_finish(st: StateV) -> ParsedV {
    let (warnings, skipped) = if !pending_is_empty(st.pending) {
        (
            st.warnings.push((st.pending.line, "trailing entry had no URL and was dropped"@)),
            st.skipped + 1,
        )
    } else {
        (st.warnings, st.skipped)
    };
    let warnings = if !st.saw_header && st.entries.len() == 0 {
        warnings.push((1usize, "no #EXTM3U header and no entries \u{2014} is this a playlist?"@))
    } else {
        warnings
    };
    ParsedV {
        epg_urls: st.epg_urls,
        name: st.header_name,
        entries: st.entries,
        warnings,
        skipped,
    }
}

#[derive(Debug)]
pub struct Parsed {
    pub header: PlaylistHeader,
    pub result: PlaylistParseResult,
}

pub open spec fn parsed_view(p: Parsed) -> ParsedV {
    ParsedV {
        epg_urls: strings_view(p.header.epg_urls@),
        name: opt_view(p.header.name),
        entries: entries_view(p.result.entries@),
        warnings: warnings_view(p.result.warnings@),
        skipped: p.result.skipped as int,
    }
}

fn read_line(bytes: &[u8], lo: usize, hi: usize, line_no: usize) -> (r: Vec<char>)
    requires
        lo <= hi <= bytes.len(),
    ensures
        r@ == clean_line(utf8_lossy(bytes@.subrange(lo as int, hi as int)), line_no as int),
{
    let mut raw: Vec<u8> = Vec::new();
    let mut i = lo;
    while i < hi
        invariant
            lo <= i <= hi <= bytes.len(),
            raw@ == bytes@.subrange(lo as int, i as int),
        decreases hi - i,
    {
        raw.push(bytes[i]);
        i += 1;
        assert(raw@ =~= bytes@.subrange(lo as int, i as int));
    }
    let text = lossy(raw.as_slice());
    let v = chars_of(text.as_str());
    let mut a: usize = 0;
    assert(v@.skip(0) =~= v@);
    if line_no == 1 {
        while a < v.len() && v[a] == '\u{feff}'
            invariant
                a <= v.len(),
                crate::words::strip_start_by(v@, is_bom()) == crate::words::strip_start_by(
                    v@.skip(a as int),
                    is_bom(),
                ),
            decreases v.len() - a,
        {
            assert(v@.skip(a as int).drop_first() =~= v@.skip(a + 1));
            a += 1;
        }
    }
    let ghost s = v@.skip(a as int);
    let mut b: usize = v.len();
    while b > a && v[b - 1] == '\r'
        invariant
            a <= b <= v.len(),
            crate::words::strip_end_by(s, is_cr()) == crate::words::strip_end_by(
                v@.subrange(a as int, b as int),
                is_cr(),
            ),
            s == v@.skip(a as int),
        decreases b - a,
    {
        assert(v@.subrange(a as int, b as int).drop_last() =~= v@.subrange(a as int, b - 1));
        b -= 1;
    }
    assert(v@.subrange(a as int, v@.len() as int) =~= s);
    let (c, d) = trim_bounds(&v, a, b);
    slice(&v, c, d)
}

/// Parse a playlist from its bytes. Invalid UTF-8 is replaced rather than rejected, so a
/// Latin-1 playlist yields slightly mangled names instead of zero channels.
pub fn parse(bytes: &[u8]) -> (r: Parsed)
    ensures
        parsed_view(r) == spec_parse(bytes@),
{
    let bounds = line_bounds(bytes);
    let ghost lines = split_bytes(bytes@, 10u8);
    let mut st = State {
        header: PlaylistHeader { epg_urls: Vec::new(), name: None },
        result: PlaylistParseResult { entries: Vec::new(), warnings: Vec::new(), skipped: 0 },
        pending: empty_pending(),
        saw_header: false,
        seen: StringHashSet::new(),
    };
    assert(strings_view(st.header.epg_urls@) =~= Seq::<Seq<char>>::empty());
    assert(entries_view(st.result.entries@) =~= Seq::<EntryV>::empty());
    assert(warnings_view(st.result.warnings@) =~= Seq::<(usize, Seq<char>)>::empty());
    assert(state_view(st) == parse_lines(lines, 0));
    assert forall|u: Seq<char>| st.seen@.contains(u) <==> has_url(entries_view(st.result.entries@), u) by {}
    let mut k: usize = 0;
    while k < bounds.len()
        invariant
            k <= bounds.len(),
            lines == split_bytes(bytes@, 10u8),
            bounds@.len() == lines.len(),
            forall|j: int|
                0 <= j < bounds@.len() ==> {
                    &&& (#[trigger] bounds@[j]).0 <= bounds@[j].1 <= bytes.len()
                    &&& bytes@.subrange(bounds@[j].0 as int, bounds@[j].1 as int) == lines[j]
                },
            state_ok(st, k as int),
            state_view(st) == parse_lines(lines, k as int),
        decreases bounds.len() - k,
    {
        let (lo, hi) = bounds[k];
        let line = read_line(bytes, lo, hi, k + 1);
        step(&mut st, k + 1, &line);
        k += 1;
    }
    finish_state(st, bounds.len())
}

fn finish_state(st: State, lines_read: usize) -> (r: Parsed)
    requires
        state_ok(st, lines_read as int),
    ensures
        parsed_view(r) == spec_finish(state_view(st)),
{
    let mut st = st;
    if !pending_empty(&st.pending) {
        let l = st.pending.line;
        warn(&mut st, l, literal("trailing entry had no URL and was dropped"));
        st.result.skipped = st.result.skipped + 1;
    }
    if !st.saw_header && st.result.entries.len() == 0 {
        warn(&mut st, 1, literal("no #EXTM3U header and no entries \u{2014} is this a playlist?"));
    }
    Parsed { header: st.header, result: st.result }
}

/// Entries whose URLs are all usable and pairwise different.
pub open spec fn entries_sound(entries: Seq<EntryV>) -> bool {
    &&& forall|i: int| 0 <= i < entries.len() ==> spec_looks_like_url(#[trigger] entries[i].url)
    &&& forall|i: int, j: int|
        0 <= i < j < entries.len() ==> #[trigger] entries[i].url != #[trigger] entries[j].url
}

proof fn lemma_step_keeps_entries_sound(st: StateV, line_no: usize, line: Seq<char>)
    requires
        entries_sound(st.entries),
    ensures
        entries_sound(step_line(st, line_no, line).entries),
{
    reveal(step_line);
    let next = step_line(st, line_no, line);
    if next.entries != st.entries {
        let e = spec_build_entry(st.pending, line, line_no);
        assert(next.entries == st.entries.push(e));
        assert(!has_url(st.entries, line));
        assert forall|i: int, j: int| 0 <= i < j < next.entries.len() implies #[trigger] next.entries[i].url
            != #[trigger] next.entries[j].url by {
            if j == st.entries.len() {
                assert(next.entries[i] == st.entries[i]);
                if st.entries[i].url == line {
                    assert(has_url(st.entries, line));
                }
            } else {
                assert(next.entries[i] == st.entries[i] && next.entries[j] == st.entries[j]);
            }
        }
        assert forall|i: int| 0 <= i < next.entries.len() implies spec_looks_like_url(
            #[trigger] next.entries[i].url,
        ) by {
            if i < st.entries.len() {
                assert(next.entries[i] == st.entries[i]);
            }
        }
    }
}

proof fn lemma_lines_keep_entries_sound(lines: Seq<Seq<u8>>, n: int)
    ensures
        entries_sound(parse_lines(lines, n).entries),
    decreases n,
{
    if n > 0 {
        lemma_lines_keep_entries_sound(lines, n - 1);
        lemma_step_keeps_entries_sound(
            parse_lines(lines, n - 1),
            n as usize,
            clean_line(utf8_lossy(lines[n - 1]), n),
        );
    }
}

/// Every entry a parse yields has a usable URL, and no URL is listed twice: duplicates
/// and unusable lines are skipped and counted instead.
pub proof fn lemma_parsed_entries_are_sound(bytes: Seq<u8>)
    ensures
        entries_sound(spec_parse(bytes).entries),
{
    let lines = split_bytes(bytes, 10u8);
    lemma_lines_keep_entries_sound(lines, lines.len() as int);
}


/// The cleaned text of line `k` (counted from one) of a playlist split into lines.
pub open spec fn line_text(lines: Seq<Seq<u8>>, k: int) -> Seq<char> {
    clean_line(utf8_lossy(lines[k - 1]), k)
}

/// Each entry's URL is the cleaned text of the line it came from, the lines entries came
/// from are among those read and strictly increase, and every entry has a name.
pub open spec fn entries_traced(lines: Seq<Seq<u8>>, n: int, entries: Seq<EntryV>) -> bool {
    &&& forall|i: int|
        0 <= i < entries.len() ==> {
            &&& 1 <= (#[trigger] entries[i]).source_line <= n
            &&& entries[i].url == line_text(lines, entries[i].source_line as int)
            &&& entries[i].name.len() > 0
        }
    &&& forall|i: int, j: int|
        0 <= i < j < entries.len() ==> (#[trigger] entries[i]).source_line < (
        #[trigger] entries[j]).source_line
}

proof fn lemma_built_entry_is_named(p: PendingV, url: Seq<char>, line_no: usize)
    ensures
        spec_build_entry(p, url, line_no).name.len() > 0,
        spec_build_entry(p, url, line_no).url == url,
        spec_build_entry(p, url, line_no).source_line == line_no,
{
    reveal_strlit("Unnamed");
    let a = p.attrs;
    if let Some(v) = attr(a, "tvg-name"@) {
        if v.len() == 0 {
            assert(trim_start(v) == v);
            assert(trim_end(v) == v);
        }
    }
}

proof fn lemma_lines_trace_entries(lines: Seq<Seq<u8>>, n: int)
    requires
        0 <= n <= lines.len(),
        n <= usize::MAX,
    ensures
        entries_traced(lines, n, parse_lines(lines, n).entries),
    decreases n,
{
    if n > 0 {
        lemma_lines_trace_entries(lines, n - 1);
        let st = parse_lines(lines, n - 1);
        let line = line_text(lines, n);
        reveal(step_line);
        let next = parse_lines(lines, n);
        assert(next == step_line(st, n as usize, line));
        if next.entries != st.entries {
            let e = spec_build_entry(st.pending, line, n as usize);
            lemma_built_entry_is_named(st.pending, line, n as usize);
            assert(next.entries == st.entries.push(e));
            assert forall|i: int| 0 <= i < next.entries.len() implies {
                &&& 1 <= (#[trigger] next.entries[i]).source_line <= n
                &&& next.entries[i].url == line_text(lines, next.entries[i].source_line as int)
                &&& next.entries[i].name.len() > 0
            } by {
                if i < st.entries.len() {
                    assert(next.entries[i] == st.entries[i]);
                }
            }
            assert forall|i: int, j: int| 0 <= i < j < next.entries.len() implies (
            #[trigger] next.entries[i]).source_line < (#[trigger] next.entries[j]).source_line by {
                assert(next.entries[i] == st.entries[i]);
                if j < st.entries.len() {
                    assert(next.entries[j] == st.entries[j]);
                }
            }
        }
    }
}

/// Every entry a parse yields comes from one line of the file: its URL is that line's
/// text, cleaned (a leading byte-order mark, trailing carriage returns and surrounding
/// whitespace removed); entries come in the order of their lines; and each has a name.
pub proof fn lemma_entries_trace_their_lines(bytes: Seq<u8>)
    requires
        split_bytes(bytes, 10u8).len() <= usize::MAX,
    ensures
        entries_traced(
            split_bytes(bytes, 10u8),
            split_bytes(bytes, 10u8).len() as int,
            spec_parse(bytes).entries,
        ),
{
    let lines = split_bytes(bytes, 10u8);
    lemma_lines_trace_entries(lines, lines.len() as int);
}


proof fn lemma_parse_lines_prefix(a: Seq<Seq<u8>>, b: Seq<Seq<u8>>, n: int)
    requires
        0 <= n <= a.len(),
        n <= b.len(),
        forall|j: int| 0 <= j < n ==> a[j] == b[j],
    ensures
        parse_lines(a, n) == parse_lines(b, n),
    decreases n,
{
    if n > 0 {
        lemma_parse_lines_prefix(a, b, n - 1);
    }
}

/// A playlist read a line at a time, as it arrives, so a large file never has to be held
/// whole. Fed the lines of a file (split at each `\n`) and finished, it gives what
/// `parse` gives for the file.
pub struct PlaylistReader {
    st: State,
    lines: usize,
    fed: Ghost<Seq<Seq<u8>>>,
}

impl PlaylistReader {
    /// The lines fed so far, in order.
    pub closed spec fn fed(&self) -> Seq<Seq<u8>> {
        self.fed@
    }

    /// The reader's state is the parse of the lines fed so far.
    pub closed spec fn wf(&self) -> bool {
        &&& self.lines == self.fed@.len()
        &&& state_ok(self.st, self.lines as int)
        &&& state_view(self.st) == parse_lines(self.fed@, self.lines as int)
    }

    pub fn new() -> (r: Self)
        ensures
            r.wf(),
            r.fed() == Seq::<Seq<u8>>::empty(),
    {
        let st = State {
            header: PlaylistHeader { epg_urls: Vec::new(), name: None },
            result: PlaylistParseResult { entries: Vec::new(), warnings: Vec::new(), skipped: 0 },
            pending: empty_pending(),
            saw_header: false,
            seen: StringHashSet::new(),
        };
        assert(strings_view(st.header.epg_urls@) =~= Seq::<Seq<char>>::empty());
        assert(entries_view(st.result.entries@) =~= Seq::<EntryV>::empty());
        assert(warnings_view(st.result.warnings@) =~= Seq::<(usize, Seq<char>)>::empty());
        assert forall|u: Seq<char>| st.seen@.contains(u) <==> has_url(entries_view(st.result.entries@), u) by {}
        let r = PlaylistReader { st, lines: 0, fed: Ghost(Seq::empty()) };
        assert(state_view(r.st) == parse_lines(r.fed@, 0));
        r
    }

    /// How many lines have been fed.
    pub fn lines_read(&self) -> (r: usize)
        requires
            self.wf(),
        ensures
            r == self.fed().len(),
    {
        self.lines
    }

    /// How many warnings the lines fed so far have raised.
    pub fn warning_count(&self) -> (r: usize)
        requires
            self.wf(),
        ensures
            r == parse_lines(self.fed(), self.fed().len() as int).warnings.len(),
    {
        self.st.result.warnings.len()
    }

    /// Feed the next line of the file, without its `\n`.
    pub fn feed(&mut self, line: &[u8])
        requires
            old(self).wf(),
            old(self).fed().len() < usize::MAX,
        ensures
            final(self).wf(),
            final(self).fed() == old(self).fed().push(line@),
    {
        let ghost before = self.fed@;
        let n = self.lines + 1;
        let text = read_line(line, 0, line.len(), n);
        assert(line@.subrange(0, line@.len() as int) =~= line@);
        step(&mut self.st, n, &text);
        self.lines = n;
        proof {
            let after = before.push(line@);
            self.fed = Ghost(after);
            lemma_parse_lines_prefix(before, after, n - 1);
            assert(after[n - 1] == line@);
        }
    }

    /// The parse of every line fed: a pending entry reported, and a warning for a file
    /// with neither a header nor entries, exactly as `parse` ends.
    pub fn finish(self) -> (r: Parsed)
        requires
            self.wf(),
        ensures
            parsed_view(r) == spec_finish(parse_lines(self.fed(), self.fed().len() as int)),
            forall|bytes: Seq<u8>| self.fed() == split_bytes(bytes, 10u8) ==> parsed_view(r)
                == #[trigger] spec_parse(bytes),
    {
        finish_state(self.st, self.lines)
    }
}


/// A line that becomes an entry when its URL is new: not empty, not a directive or
/// comment, and usable as a URL.
pub open spec fn is_url_line(line: Seq<char>) -> bool {
    line.len() > 0 && line[0] != '#' && spec_looks_like_url(line)
}

/// Every URL line read so far has its URL among the entries, and each entry's URL
/// appears on no line before its own.
pub open spec fn first_lines_kept(lines: Seq<Seq<u8>>, n: int, entries: Seq<EntryV>) -> bool {
    &&& forall|k: int| 1 <= k <= n && is_url_line(#[trigger] line_text(lines, k)) ==> has_url(entries, line_text(lines, k))
    &&& forall|i: int, k: int|
        0 <= i < entries.len() && 1 <= k < (#[trigger] entries[i]).source_line ==> #[trigger] line_text(lines, k)
            != entries[i].url
}

proof fn lemma_directive_starts_with_hash(line: Seq<char>, p: Seq<char>)
    requires
        p.len() > 0,
        p[0] == '#',
        starts_with(line, p),
    ensures
        line[0] == '#',
{
    assert(line.take(p.len() as int)[0] == line[0]);
}

proof fn lemma_lines_keep_first(lines: Seq<Seq<u8>>, n: int)
    requires
        0 <= n <= lines.len(),
        n <= usize::MAX,
    ensures
        first_lines_kept(lines, n, parse_lines(lines, n).entries),
    decreases n,
{
    if n > 0 {
        lemma_lines_keep_first(lines, n - 1);
        lemma_lines_trace_entries(lines, n - 1);
        let st = parse_lines(lines, n - 1);
        let line = line_text(lines, n);
        reveal(step_line);
        let next = parse_lines(lines, n);
        assert(next == step_line(st, n as usize, line));
        // The entries only grow.
        assert(next.entries == st.entries || next.entries == st.entries.push(
            spec_build_entry(st.pending, line, n as usize),
        ));
        assert forall|u: Seq<char>| has_url(st.entries, u) implies has_url(next.entries, u) by {
            let i = choose|i: int| 0 <= i < st.entries.len() && (#[trigger] st.entries[i]).url == u;
            assert(next.entries[i] == st.entries[i]);
        }
        if is_url_line(line) {
            reveal_strlit("#EXTM3U");
            reveal_strlit("#EXTINF:");
            reveal_strlit("#EXTGRP:");
            reveal_strlit("#EXTVLCOPT:");
            reveal_strlit("#KODIPROP:");
            reveal_strlit("#PLAYLIST:");
            if starts_with(line, "#EXTM3U"@) {
                lemma_directive_starts_with_hash(line, "#EXTM3U"@);
            }
            if starts_with(line, "#EXTINF:"@) {
                lemma_directive_starts_with_hash(line, "#EXTINF:"@);
            }
            if starts_with(line, "#EXTGRP:"@) {
                lemma_directive_starts_with_hash(line, "#EXTGRP:"@);
            }
            if starts_with(line, "#EXTVLCOPT:"@) {
                lemma_directive_starts_with_hash(line, "#EXTVLCOPT:"@);
            }
            if starts_with(line, "#KODIPROP:"@) {
                lemma_directive_starts_with_hash(line, "#KODIPROP:"@);
            }
            if starts_with(line, "#PLAYLIST:"@) {
                lemma_directive_starts_with_hash(line, "#PLAYLIST:"@);
            }
            assert(next == url_step(st, n as usize, line));
            if !has_url(st.entries, line) {
                let e = spec_build_entry(st.pending, line, n as usize);
                lemma_built_entry_is_named(st.pending, line, n as usize);
                assert(next.entries == st.entries.push(e));
                assert(next.entries[st.entries.len() as int].url == line);
            }
        }
        assert forall|k: int| 1 <= k <= n && is_url_line(#[trigger] line_text(lines, k)) implies has_url(
            next.entries,
            line_text(lines, k),
        ) by {
            if k < n {
                assert(has_url(st.entries, line_text(lines, k)));
            }
        }
        assert forall|i: int, k: int|
            0 <= i < next.entries.len() && 1 <= k < (#[trigger] next.entries[i]).source_line implies #[trigger] line_text(
            lines,
            k,
        ) != next.entries[i].url by {
            if i < st.entries.len() {
                assert(next.entries[i] == st.entries[i]);
            } else {
                let e = spec_build_entry(st.pending, line, n as usize);
                lemma_built_entry_is_named(st.pending, line, n as usize);
                assert(next.entries == st.entries.push(e));
                assert(next.entries[i] == e);
                if line_text(lines, k) == line {
                    assert(has_url(st.entries, line_text(lines, k)));
                }
            }
        }
    }
}

/// When a URL repeats, the entry kept is the first: no line before an entry's own
/// carries its URL.
pub proof fn lemma_repeated_url_keeps_first(bytes: Seq<u8>)
    requires
        split_bytes(bytes, 10u8).len() <= usize::MAX,
    ensures
        forall|i: int, k: int|
            0 <= i < spec_parse(bytes).entries.len() && 1 <= k < (
            #[trigger] spec_parse(bytes).entries[i]).source_line ==> #[trigger] line_text(
                split_bytes(bytes, 10u8),
                k,
            ) != spec_parse(bytes).entries[i].url,
{
    let lines = split_bytes(bytes, 10u8);
    lemma_lines_keep_first(lines, lines.len() as int);
}


/// `i` is the first attribute whose name is `key`, ignoring ASCII case.
pub open spec fn first_named(attrs: Seq<(Seq<char>, Seq<char>)>, key: Seq<char>, i: int) -> bool {
    &&& 0 <= i < attrs.len()
    &&& ascii_lower(attrs[i].0) == ascii_lower(key)
    &&& forall|j: int| 0 <= j < i ==> ascii_lower(#[trigger] attrs[j].0) != ascii_lower(key)
}

/// No attribute is named `key`, ignoring ASCII case.
pub open spec fn none_named(attrs: Seq<(Seq<char>, Seq<char>)>, key: Seq<char>) -> bool {
    forall|j: int| 0 <= j < attrs.len() ==> ascii_lower(#[trigger] attrs[j].0) != ascii_lower(key)
}

proof fn lemma_find_first_named(attrs: Seq<(Seq<char>, Seq<char>)>, key: Seq<char>, i: int)
    requires
        first_named(attrs, key, i),
    ensures
        find_attr(attrs, key) == Some(attrs[i].1),
    decreases i,
{
    if i > 0 {
        assert(ascii_lower(attrs[0].0) != ascii_lower(key));
        let d = attrs.drop_first();
        assert forall|j: int| 0 <= j < i - 1 implies ascii_lower(#[trigger] d[j].0) != ascii_lower(key) by {
            assert(d[j] == attrs[j + 1]);
        }
        lemma_find_first_named(d, key, i - 1);
    }
}

proof fn lemma_find_none_named(attrs: Seq<(Seq<char>, Seq<char>)>, key: Seq<char>)
    requires
        none_named(attrs, key),
    ensures
        find_attr(attrs, key) is None,
    decreases attrs.len(),
{
    if attrs.len() > 0 {
        assert(ascii_lower(attrs[0].0) != ascii_lower(key));
        let d = attrs.drop_first();
        assert forall|j: int| 0 <= j < d.len() implies ascii_lower(#[trigger] d[j].0) != ascii_lower(key) by {
            assert(d[j] == attrs[j + 1]);
        }
        lemma_find_none_named(d, key);
    }
}

/// An entry's logo is its `tvg-logo` attribute when that is set and not blank (the first
/// such attribute, in any case), otherwise its `logo` attribute when that is set and not
/// blank, and none when the entry names neither.
pub proof fn lemma_logo_prefers_tvg_logo(p: PendingV, url: Seq<char>, line_no: usize)
    ensures
        forall|i: int|
            first_named(p.attrs, "tvg-logo"@, i) && trim(p.attrs[i].1).len() > 0 ==> #[trigger] spec_build_entry(
                p,
                url,
                line_no,
            ).logo == Some(p.attrs[i].1),
        forall|i: int|
            none_named(p.attrs, "tvg-logo"@) && first_named(p.attrs, "logo"@, i) && trim(p.attrs[i].1).len() > 0
                ==> #[trigger] spec_build_entry(p, url, line_no).logo == Some(p.attrs[i].1),
        none_named(p.attrs, "tvg-logo"@) && none_named(p.attrs, "logo"@) ==> spec_build_entry(
            p,
            url,
            line_no,
        ).logo is None,
{
    assert forall|i: int|
        first_named(p.attrs, "tvg-logo"@, i) && trim(p.attrs[i].1).len() > 0 implies #[trigger] spec_build_entry(
            p,
            url,
            line_no,
        ).logo == Some(p.attrs[i].1) by {
        lemma_find_first_named(p.attrs, "tvg-logo"@, i);
    }
    assert forall|i: int|
        none_named(p.attrs, "tvg-logo"@) && first_named(p.attrs, "logo"@, i) && trim(p.attrs[i].1).len() > 0
            implies #[trigger] spec_build_entry(p, url, line_no).logo == Some(p.attrs[i].1) by {
        lemma_find_none_named(p.attrs, "tvg-logo"@);
        lemma_find_first_named(p.attrs, "logo"@, i);
    }
    if none_named(p.attrs, "tvg-logo"@) && none_named(p.attrs, "logo"@) {
        lemma_find_none_named(p.attrs, "tvg-logo"@);
        lemma_find_none_named(p.attrs, "logo"@);
    }
}


/// The guide id, language and country of an entry are its `tvg-id`, `tvg-language` and
/// `tvg-country` attributes (the first of each name, in any case, when not blank); its
/// group is an `#EXTGRP` line's when there is one, otherwise its `group-title`.
pub proof fn lemma_attributes_fill_their_fields(p: PendingV, url: Seq<char>, line_no: usize)
    ensures
        forall|i: int|
            first_named(p.attrs, "tvg-id"@, i) && trim(p.attrs[i].1).len() > 0 ==> #[trigger] spec_build_entry(
                p,
                url,
                line_no,
            ).tvg_id == Some(p.attrs[i].1),
        none_named(p.attrs, "tvg-id"@) ==> spec_build_entry(p, url, line_no).tvg_id is None,
        forall|i: int|
            first_named(p.attrs, "tvg-language"@, i) && trim(p.attrs[i].1).len() > 0 ==> #[trigger] spec_build_entry(
                p,
                url,
                line_no,
            ).language == Some(p.attrs[i].1),
        forall|i: int|
            first_named(p.attrs, "tvg-country"@, i) && trim(p.attrs[i].1).len() > 0 ==> #[trigger] spec_build_entry(
                p,
                url,
                line_no,
            ).country == Some(p.attrs[i].1),
        p.group_override is Some ==> spec_build_entry(p, url, line_no).group == p.group_override,
        forall|i: int|
            p.group_override is None && first_named(p.attrs, "group-title"@, i) && trim(p.attrs[i].1).len()
                > 0 ==> #[trigger] spec_build_entry(p, url, line_no).group == Some(p.attrs[i].1),
{
    assert forall|i: int|
        first_named(p.attrs, "tvg-id"@, i) && trim(p.attrs[i].1).len() > 0 implies #[trigger] spec_build_entry(
            p,
            url,
            line_no,
        ).tvg_id == Some(p.attrs[i].1) by {
        lemma_find_first_named(p.attrs, "tvg-id"@, i);
    }
    if none_named(p.attrs, "tvg-id"@) {
        lemma_find_none_named(p.attrs, "tvg-id"@);
    }
    assert forall|i: int|
        first_named(p.attrs, "tvg-language"@, i) && trim(p.attrs[i].1).len() > 0 implies #[trigger] spec_build_entry(
            p,
            url,
            line_no,
        ).language == Some(p.attrs[i].1) by {
        lemma_find_first_named(p.attrs, "tvg-language"@, i);
    }
    assert forall|i: int|
        first_named(p.attrs, "tvg-country"@, i) && trim(p.attrs[i].1).len() > 0 implies #[trigger] spec_build_entry(
            p,
            url,
            line_no,
        ).country == Some(p.attrs[i].1) by {
        lemma_find_first_named(p.attrs, "tvg-country"@, i);
    }
    assert forall|i: int|
        p.group_override is None && first_named(p.attrs, "group-title"@, i) && trim(p.attrs[i].1).len()
            > 0 implies #[trigger] spec_build_entry(p, url, line_no).group == Some(p.attrs[i].1) by {
        lemma_find_first_named(p.attrs, "group-title"@, i);
    }
}

} // verus!
