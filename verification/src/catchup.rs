//! Turning "watch this from the start" into a URL.
//!
//! Catch-up is the least standardised thing a provider does. Four conventions are in
//! common use, they disagree about everything, and the `catchup-source` attribute is a
//! template language nobody wrote down.
//!
//! The channel's catch-up mode, source and days come from the playlist or from an Xtream
//! listing; this decides what to do with them.

use vstd::prelude::*;
use crate::civil::{civil_from_unix, Civil};
use crate::text::{
    append, append_str, ascii_lower, chars_of, contains, decimal, ends_with, first_index, has_char,
    has_prefix, lower_all, padded, push_decimal, push_padded, push_signed, replace_all,
    replace_str, signed_decimal, slice, split_on, split_bounds, starts_with, str_eq, string_of,
    trim, trim_bounds, trim_end, trim_start, white_space,
};
use crate::words::{strip_end_by, strip_start_by};
use crate::text::{find_from, find_char_from, occurs_at, lemma_first_index};
use crate::xtream::slash;

verus! {

broadcast use vstd::string::group_string_axioms;

/// How a provider expects a past programme to be requested.
#[derive(Debug, Clone, Copy, PartialEq, Eq)]
pub enum Mode {
    /// Xtream Codes panels: `/streaming/timeshift.php?...&start=…&duration=…`.
    Xtream,
    /// Append the `catchup-source` template to the stream URL.
    Append,
    /// Append `?utc=<start>&lutc=<now>`, the Kodi-era convention.
    Shift,
    /// Flussonic: the last path segment becomes `timeshift_abs-<unix>.m3u8`.
    Flussonic,
}

pub open spec fn spec_mode(raw: Seq<char>) -> Option<Mode> {
    let k = ascii_lower(trim(raw));
    if k == "xc"@ || k == "xtream"@ || k == "xtream-codes"@ || k == "stalker"@ {
        Some(Mode::Xtream)
    } else if k == "append"@ {
        Some(Mode::Append)
    } else if k == "default"@ || k == "shift"@ || k == "timeshift"@ || k == "1"@ {
        Some(Mode::Shift)
    } else if k == "flussonic"@ || k == "flussonic-hls"@ || k == "flussonic-ts"@ || k == "fs"@ {
        Some(Mode::Flussonic)
    } else {
        None
    }
}

impl Mode {
    /// Recognise the spellings playlists actually carry.
    ///
    /// `default` is deliberately `Shift`: it is what the oldest and most widespread
    /// players do with it, so a provider writing `catchup="default"` expects `?utc=`.
    pub fn parse(raw: &str) -> (r: Option<Self>)
        ensures
            r == spec_mode(raw@),
    {
        let v = chars_of(raw);
        let (a, b) = trim_bounds(&v, 0, v.len());
        assert(v@.subrange(0, v@.len() as int) =~= v@);
        let t = slice(&v, a, b);
        let k = lower_all(&t);
        let k = &k;
        if str_eq(k, "xc") || str_eq(k, "xtream") || str_eq(k, "xtream-codes") || str_eq(k, "stalker") {
            Some(Mode::Xtream)
        } else if str_eq(k, "append") {
            Some(Mode::Append)
        } else if str_eq(k, "default") || str_eq(k, "shift") || str_eq(k, "timeshift") || str_eq(k, "1") {
            Some(Mode::Shift)
        } else if str_eq(k, "flussonic") || str_eq(k, "flussonic-hls") || str_eq(k, "flussonic-ts")
            || str_eq(k, "fs") {
            Some(Mode::Flussonic)
        } else {
            None
        }
    }
}

/// Everything needed to build one catch-up URL.
#[derive(Debug, Clone)]
pub struct Request<'a> {
    /// The channel's live stream URL.
    pub stream_url: &'a str,
    pub mode: Mode,
    /// The provider's `catchup-source` template, if it gave one.
    pub source: Option<&'a str>,
    /// Programme airtime, unix seconds.
    pub start: i64,
    pub stop: i64,
    pub now: i64,
}

/// The arithmetic a request needs stays inside `i64`.
pub open spec fn request_in_range(req: Request) -> bool {
    &&& i64::MIN <= req.stop - req.start <= i64::MAX - 59
    &&& i64::MIN <= req.now - req.start <= i64::MAX
}

/// Whether a programme is still inside the provider's catch-up window.
///
/// `days` of 0 means the provider never said, which is not the same as "no catch-up" —
/// the channel would not be flagged at all in that case — so it is treated as
/// unrestricted rather than as a reason to refuse.
pub fn is_available(start: i64, now: i64, days: u16) -> (r: bool)
    requires
        start <= now ==> now - start <= i64::MAX,
    ensures
        r == (start <= now && (days == 0 || now - start <= days * 86400)),
{
    if start > now {
        return false;
    }
    if days == 0 {
        return true;
    }
    now - start <= (days as i64) * 86400
}

// ---------------------------------------------------------------------------------------
// Placeholders.
// ---------------------------------------------------------------------------------------

/// `format!("{:04}", n)` for a signed number: the sign counts towards the width.
pub open spec fn padded_signed(n: int, width: nat) -> Seq<char> {
    if n < 0 {
        seq!['-'] + padded((-n) as nat, (if width >= 1 { width - 1 } else { 0 }) as nat)
    } else {
        padded(n as nat, width)
    }
}

/// The programme's start as a civil date and time; the epoch when it is out of range.
pub open spec fn start_civil(req: Request, c: Option<Civil>) -> (int, int, int, int, int, int) {
    match c {
        Some(t) => (
            t.year as int,
            t.month as int,
            t.day as int,
            t.hour as int,
            t.minute as int,
            t.second as int,
        ),
        None => (1970, 1, 1, 0, 0, 0),
    }
}

pub open spec fn max0(x: int) -> int {
    if x > 0 {
        x
    } else {
        0
    }
}

/// The placeholders and what they stand for, every token that is a prefix of another
/// coming after it.
pub open spec fn placeholders(req: Request, c: Option<Civil>) -> Seq<(Seq<char>, Seq<char>)> {
    let (year, month, day, hour, minute, second) = start_civil(req, c);
    let y = padded_signed(year, 4);
    let mo = padded(month as nat, 2);
    let d = padded(day as nat, 2);
    let h = padded(hour as nat, 2);
    let mi = padded(minute as nat, 2);
    let s = padded(second as nat, 2);
    seq![
        ("start-year"@, y),
        ("start-month"@, mo),
        ("start-day"@, d),
        ("start-hour"@, h),
        ("start-minute"@, mi),
        ("start-second"@, s),
        ("duration"@, signed_decimal(max0(req.stop - req.start))),
        ("timestamp"@, signed_decimal(req.start as int)),
        ("offset"@, signed_decimal(max0(req.now - req.start))),
        ("start"@, signed_decimal(req.start as int)),
        ("lutc"@, signed_decimal(req.now as int)),
        ("utc"@, signed_decimal(req.start as int)),
        ("end"@, signed_decimal(req.stop as int)),
        ("now"@, signed_decimal(req.now as int)),
        ("Y"@, y),
        ("m"@, mo),
        ("d"@, d),
        ("H"@, h),
        ("M"@, mi),
        ("S"@, s),
    ]
}

/// Each placeholder substituted in order, in both bracket styles, `${token}` first.
pub open spec fn substitute(template: Seq<char>, pairs: Seq<(Seq<char>, Seq<char>)>) -> Seq<char>
    decreases pairs.len(),
{
    if pairs.len() == 0 {
        template
    } else {
        let out = substitute(template, pairs.drop_last());
        let (token, value) = pairs.last();
        replace_all(
            replace_all(out, "${"@ + token + "}"@, value),
            "{"@ + token + "}"@,
            value,
        )
    }
}

pub open spec fn spec_expand(template: Seq<char>, req: Request, c: Option<Civil>) -> Seq<char> {
    substitute(template, placeholders(req, c))
}

/// The start's civil date as the `time` crate gives it.
pub open spec fn civil_of_start(req: Request, c: Option<Civil>) -> bool {
    match c {
        Some(t) => crate::civil::valid_civil(
            t.year as int,
            t.month as int,
            t.day as int,
            t.hour as int,
            t.minute as int,
            t.second as int,
        ) && crate::civil::epoch_seconds(
            t.year as int,
            t.month as int,
            t.day as int,
            t.hour as int,
            t.minute as int,
            t.second as int,
        ) == req.start,
        None => req.start < crate::civil::min_timestamp() || req.start > crate::civil::max_timestamp(),
    }
}

fn padded_signed_of(out: &mut Vec<char>, n: i32, width: usize)
    requires
        1 <= width,
    ensures
        final(out)@ == old(out)@ + padded_signed(n as int, width as nat),
{
    if n < 0 {
        out.push('-');
        let m: u64 = (-(n as i64)) as u64;
        push_padded(out, m, width - 1);
        assert(final(out)@ =~= old(out)@ + padded_signed(n as int, width as nat));
    } else {
        push_padded(out, n as u64, width);
    }
}

fn value_of(f: Vec<char>) -> (r: Vec<char>)
    ensures
        r@ == f@,
{
    f
}

fn padded2(n: u8) -> (r: Vec<char>)
    ensures
        r@ == padded(n as nat, 2),
{
    let mut v: Vec<char> = Vec::new();
    push_padded(&mut v, n as u64, 2);
    assert(v@ =~= padded(n as nat, 2));
    v
}

fn signed_of(n: i64) -> (r: Vec<char>)
    ensures
        r@ == signed_decimal(n as int),
{
    let mut v: Vec<char> = Vec::new();
    push_signed(&mut v, n);
    assert(v@ =~= signed_decimal(n as int));
    v
}

fn bracketed(open: &str, token: &str) -> (r: Vec<char>)
    ensures
        r@ == open@ + token@ + "}"@,
{
    let mut v: Vec<char> = Vec::new();
    append_str(&mut v, open);
    append_str(&mut v, token);
    append_str(&mut v, "}");
    assert(v@ =~= open@ + token@ + "}"@);
    v
}

/// Substitute the placeholders `catchup-source` templates use.
///
/// Longest token first, because `${duration}` and `${d}` share a prefix and `${start}`
/// is a prefix of `${start-year}` — replacing the short one first corrupts the long one.
pub fn expand(template: &str, req: &Request) -> (r: String)
    requires
        request_in_range(*req),
    ensures
        exists|c: Option<Civil>| civil_of_start(*req, c) && r@ == spec_expand(template@, *req, c),
{
    let c = civil_from_unix(req.start);
    let tv = chars_of(template);
    let out = expand_with(&tv, req, c);
    let r = string_of(out.as_slice());
    assert(civil_of_start(*req, c));
    r
}

fn expand_with(template: &Vec<char>, req: &Request, c: Option<Civil>) -> (r: Vec<char>)
    requires
        request_in_range(*req),
    ensures
        r@ == spec_expand(template@, *req, c),
{
    let (year, month, day, hour, minute, second): (i32, u8, u8, u8, u8, u8) = match c {
        Some(t) => (t.year, t.month, t.day, t.hour, t.minute, t.second),
        None => (1970, 1, 1, 0, 0, 0),
    };
    let mut y: Vec<char> = Vec::new();
    padded_signed_of(&mut y, year, 4);
    assert(y@ =~= padded_signed(year as int, 4));
    let d = req.stop - req.start;
    let duration = if d > 0 {
        d
    } else {
        0
    };
    let o = req.now - req.start;
    let offset = if o > 0 {
        o
    } else {
        0
    };
    let tokens: [&str; 20] = [
        "start-year", "start-month", "start-day", "start-hour", "start-minute", "start-second",
        "duration", "timestamp", "offset", "start", "lutc", "utc", "end", "now", "Y", "m", "d",
        "H", "M", "S",
    ];
    let values: Vec<Vec<char>> = vec![
        value_of(y.clone()),
        padded2(month),
        padded2(day),
        padded2(hour),
        padded2(minute),
        padded2(second),
        signed_of(duration),
        signed_of(req.start),
        signed_of(offset),
        signed_of(req.start),
        signed_of(req.now),
        signed_of(req.start),
        signed_of(req.stop),
        signed_of(req.now),
        value_of(y.clone()),
        padded2(month),
        padded2(day),
        padded2(hour),
        padded2(minute),
        padded2(second),
    ];
    let ghost pairs = placeholders(*req, c);
    proof {
        assert(pairs.len() == 20);
    }
    let mut out = crate::text::slice(template, 0, template.len());
    assert(template@.subrange(0, template@.len() as int) =~= template@);
    let mut i: usize = 0;
    while i < 20
        invariant
            i <= 20,
            pairs == placeholders(*req, c),
            pairs.len() == 20,
            values@.len() == 20,
            forall|k: int| 0 <= k < 20 ==> (#[trigger] tokens@[k])@ == pairs[k].0,
            forall|k: int| 0 <= k < 20 ==> (#[trigger] values@[k])@ == pairs[k].1,
            out@ == substitute(template@, pairs.take(i as int)),
        decreases 20 - i,
    {
        assert(pairs.take(i + 1).drop_last() =~= pairs.take(i as int));
        assert(pairs.take(i + 1).last() == pairs[i as int]);
        let a = bracketed("${", tokens[i]);
        let b = bracketed("{", tokens[i]);
        let once = replace_str(&out, &a, &values[i]);
        out = replace_str(&once, &b, &values[i]);
        i += 1;
    }
    assert(pairs.take(20) =~= pairs);
    out
}

// ---------------------------------------------------------------------------------------
// URL shapes.
// ---------------------------------------------------------------------------------------

/// A query joined onto a URL, with `&` when it already has one and `?` when not.
pub open spec fn spec_append_query(url: Seq<char>, query: Seq<char>) -> Seq<char> {
    url + (if has_char(url, '?') {
        seq!['&']
    } else {
        seq!['?']
    }) + query
}

fn append_query(url: &Vec<char>, query: &Vec<char>) -> (r: Vec<char>)
    ensures
        r@ == spec_append_query(url@, query@),
{
    let mut out = slice(url, 0, url.len());
    assert(url@.subrange(0, url@.len() as int) =~= url@);
    match find_char_from(url, '?', 0) {
        Some(_) => out.push('&'),
        None => out.push('?'),
    }
    append(&mut out, query);
    assert(out@ =~= spec_append_query(url@, query@));
    out
}

/// Where the last `c` in `s` is; `-1` when there is none.
pub open spec fn last_index(s: Seq<char>, c: char) -> int
    decreases s.len(),
{
    if s.len() == 0 {
        -1
    } else if s.last() == c {
        s.len() - 1
    } else {
        last_index(s.drop_last(), c)
    }
}

fn last_index_of(s: &Vec<char>, c: char) -> (r: Option<usize>)
    ensures
        match r {
            Some(i) => i < s.len() && last_index(s@, c) == i,
            None => last_index(s@, c) == -1,
        },
{
    let mut k = s.len();
    assert(s@.take(s@.len() as int) =~= s@);
    while k > 0
        invariant
            k <= s.len(),
            last_index(s@, c) == last_index(s@.take(k as int), c),
        decreases k,
    {
        if s[k - 1] == c {
            return Some(k - 1);
        }
        assert(s@.take(k as int).drop_last() =~= s@.take(k - 1));
        k -= 1;
    }
    None
}

/// Flussonic wants the playlist segment replaced, not a query parameter: a trailing
/// `….m3u8` segment becomes `timeshift_abs-<start>.m3u8`, one is added when the URL
/// stops at the stream name, and a query is kept.
pub open spec fn spec_flussonic_url(url: Seq<char>, start: i64) -> Seq<char> {
    let q = first_index(url, '?');
    let before = url.take(q);
    let trimmed = strip_end_by(before, slash());
    let li = last_index(trimmed, '/');
    let tail = "/timeshift_abs-"@ + signed_decimal(start as int) + ".m3u8"@;
    let rebuilt = if li >= 0 && ends_with(ascii_lower(trimmed.skip(li + 1)), ".m3u8"@) {
        trimmed.take(li) + tail
    } else {
        trimmed + tail
    };
    if q < url.len() {
        rebuilt + "?"@ + url.skip(q + 1)
    } else {
        rebuilt
    }
}

fn first_index_of(s: &Vec<char>, c: char) -> (r: usize)
    ensures
        r == first_index(s@, c),
        r <= s.len(),
{
    match find_char_from(s, c, 0) {
        Some(i) => {
            proof {
                lemma_first_index(s@, c, i as int);
            }
            i
        },
        None => {
            proof {
                lemma_first_index_none(s@, c);
            }
            s.len()
        },
    }
}

proof fn lemma_first_index_none(s: Seq<char>, c: char)
    requires
        forall|j: int| 0 <= j < s.len() ==> s[j] != c,
    ensures
        first_index(s, c) == s.len(),
    decreases s.len(),
{
    if s.len() > 0 {
        lemma_first_index_none(s.drop_first(), c);
    }
}

fn flussonic_url(url: &Vec<char>, start: i64) -> (r: Vec<char>)
    ensures
        r@ == spec_flussonic_url(url@, start),
{
    let q = first_index_of(url, '?');
    let before = slice(url, 0, q);
    assert(url@.subrange(0, q as int) =~= url@.take(q as int));
    let mut b = before.len();
    assert(before@.take(before@.len() as int) =~= before@);
    while b > 0 && before[b - 1] == '/'
        invariant
            b <= before.len(),
            strip_end_by(before@, slash()) == strip_end_by(before@.take(b as int), slash()),
        decreases b,
    {
        assert(before@.take(b as int).drop_last() =~= before@.take(b - 1));
        b -= 1;
    }
    let trimmed = slice(&before, 0, b);
    assert(before@.subrange(0, b as int) =~= before@.take(b as int));
    let mut tail: Vec<char> = Vec::new();
    append_str(&mut tail, "/timeshift_abs-");
    push_signed(&mut tail, start);
    append_str(&mut tail, ".m3u8");
    let mut out = match last_index_of(&trimmed, '/') {
        Some(li) => {
            let last = slice(&trimmed, li + 1, trimmed.len());
            assert(trimmed@.subrange(li + 1, trimmed@.len() as int) =~= trimmed@.skip(li + 1));
            let lower = lower_all(&last);
            if crate::text::has_suffix(&lower, ".m3u8") {
                let mut o = slice(&trimmed, 0, li);
                assert(trimmed@.subrange(0, li as int) =~= trimmed@.take(li as int));
                append(&mut o, &tail);
                o
            } else {
                let mut o = slice(&trimmed, 0, trimmed.len());
                assert(trimmed@.subrange(0, trimmed@.len() as int) =~= trimmed@);
                append(&mut o, &tail);
                o
            }
        },
        None => {
            let mut o = slice(&trimmed, 0, trimmed.len());
            assert(trimmed@.subrange(0, trimmed@.len() as int) =~= trimmed@);
            append(&mut o, &tail);
            o
        },
    };
    if q < url.len() {
        out.push('?');
        let rest = slice(url, q + 1, url.len());
        assert(url@.subrange(q + 1, url@.len() as int) =~= url@.skip(q + 1));
        append(&mut out, &rest);
    }
    proof {
        reveal_strlit("?");
    }
    out
}

/// Where the first occurrence of `p` in `s` starts.
pub open spec fn first_occurrence(s: Seq<char>, p: Seq<char>) -> Option<int> {
    if exists|i: int| occurs_at(s, p, i) {
        Some(choose|i: int| occurs_at(s, p, i) && forall|j: int| 0 <= j < i ==> !occurs_at(s, p, j))
    } else {
        None
    }
}

fn find_first(s: &Vec<char>, p: &str) -> (r: Option<usize>)
    ensures
        match r {
            Some(i) => first_occurrence(s@, p@) == Some(i as int) && i + p@.len() <= s@.len(),
            None => first_occurrence(s@, p@) is None,
        },
{
    let pv = chars_of(p);
    match find_from(s, &pv, 0) {
        Some(i) => {
            proof {
                let w = choose|k: int| occurs_at(s@, p@, k) && forall|j: int| 0 <= j < k ==> !occurs_at(s@, p@, j);
                assert(occurs_at(s@, p@, w) && forall|j: int| 0 <= j < w ==> !occurs_at(s@, p@, j));
                if w < i {
                } else if w > i {
                }
            }
            Some(i)
        },
        None => {
            proof {
                assert forall|k: int| !occurs_at(s@, p@, k) by {
                    if k < 0 {
                    }
                }
            }
            None
        },
    }
}

pub open spec fn is_kind_segment(p: Seq<char>) -> bool {
    let l = ascii_lower(p);
    l == "live"@ || l == "movie"@ || l == "series"@
}

/// The base, user name, password and stream id after the scheme of an Xtream stream URL:
/// the host, an optional `live`/`movie`/`series` segment, then user, password and the
/// stream id (its file name up to the first dot), none of them empty.
#[verifier::opaque]
pub open spec fn split_after_scheme(scheme: Seq<char>, rest: Seq<char>) -> Option<(Seq<char>, Seq<char>, Seq<char>, Seq<char>)> {
    let parts = split_on(rest, '/');
    if parts.len() < 4 {
        None
    } else {
        let p1 = parts.drop_first();
        let p2 = if is_kind_segment(p1[0]) {
            p1.drop_first()
        } else {
            p1
        };
        if p2.len() < 3 {
            None
        } else {
            let id = p2[2].take(first_index(p2[2], '.'));
            if p2[0].len() == 0 || p2[1].len() == 0 || id.len() == 0 {
                None
            } else {
                Some((scheme + parts[0], p2[0], p2[1], id))
            }
        }
    }
}

/// `http://host:port/live/user/pass/1234.ts` → its base, user name, password and stream
/// id; the form without the `/live` segment is read too.
pub open spec fn spec_split_xtream(url: Seq<char>) -> Option<(Seq<char>, Seq<char>, Seq<char>, Seq<char>)> {
    let wq = url.take(first_index(url, '?'));
    match first_occurrence(wq, "://"@) {
        None => None,
        Some(i) => split_after_scheme(wq.take(i + 3), wq.skip(i + 3)),
    }
}

#[verifier::rlimit(40)]
fn split_after(wq: &Vec<char>, from: usize) -> (r: Option<(Vec<char>, Vec<char>, Vec<char>, Vec<char>)>)
    requires
        from <= wq.len(),
    ensures
        match r {
            Some((b, u, p, i)) => split_after_scheme(wq@.take(from as int), wq@.skip(from as int))
                == Some((b@, u@, p@, i@)),
            None => split_after_scheme(wq@.take(from as int), wq@.skip(from as int)) is None,
        },
{
    reveal(split_after_scheme);
    let parts = split_bounds(wq, from, wq.len(), '/');
    assert(wq@.subrange(from as int, wq@.len() as int) =~= wq@.skip(from as int));
    let ghost ps = split_on(wq@.skip(from as int), '/');
    if parts.len() < 4 {
        return None;
    }
    let (h0, h1) = parts[0];
    let first = slice(wq, parts[1].0, parts[1].1);
    let lf = lower_all(&first);
    let k: usize = if str_eq(&lf, "live") || str_eq(&lf, "movie") || str_eq(&lf, "series") {
        2
    } else {
        1
    };
    let ghost p1 = ps.drop_first();
    let ghost p2 = if is_kind_segment(p1[0]) { p1.drop_first() } else { p1 };
    assert(p1[0] == ps[1]);
    assert(p2.len() == parts@.len() - k);
    if parts.len() - k < 3 {
        return None;
    }
    assert(p2[0] == ps[k as int] && p2[1] == ps[k + 1] && p2[2] == ps[k + 2]);
    let user = slice(wq, parts[k].0, parts[k].1);
    let pass = slice(wq, parts[k + 1].0, parts[k + 1].1);
    let idpart = slice(wq, parts[k + 2].0, parts[k + 2].1);
    let dot = first_index_of(&idpart, '.');
    let id = slice(&idpart, 0, dot);
    assert(idpart@.subrange(0, dot as int) =~= idpart@.take(dot as int));
    if user.len() == 0 || pass.len() == 0 || id.len() == 0 {
        return None;
    }
    let mut base = slice(wq, 0, from);
    assert(wq@.subrange(0, from as int) =~= wq@.take(from as int));
    let host = slice(wq, h0, h1);
    append(&mut base, &host);
    Some((base, user, pass, id))
}

fn split_xtream_stream_url(url: &Vec<char>) -> (r: Option<(Vec<char>, Vec<char>, Vec<char>, Vec<char>)>)
    ensures
        match r {
            Some((b, u, p, i)) => spec_split_xtream(url@) == Some((b@, u@, p@, i@)),
            None => spec_split_xtream(url@) is None,
        },
{
    let q = first_index_of(url, '?');
    let wq = slice(url, 0, q);
    assert(url@.subrange(0, q as int) =~= url@.take(q as int));
    let i = match find_first(&wq, "://") {
        Some(i) => i,
        None => return None,
    };
    assert("://"@.len() == 3) by {
        reveal_strlit("://");
    }
    split_after(&wq, i + 3)
}

/// Xtream's own date format: `YYYY-MM-DD:HH-MM`.
pub open spec fn xtream_stamp(t: Civil) -> Seq<char> {
    padded_signed(t.year as int, 4) + "-"@ + padded(t.month as nat, 2) + "-"@ + padded(
        t.day as nat,
        2,
    ) + ":"@ + padded(t.hour as nat, 2) + "-"@ + padded(t.minute as nat, 2)
}

/// The programme's length in whole minutes, rounded up, at least one.
pub open spec fn duration_minutes(req: Request) -> int {
    let d = req.stop - req.start;
    ((if d > 60 {
        d
    } else {
        60
    }) + 59) / 60
}

/// Xtream panels want `timeshift.php`, with the credentials and stream id read back out
/// of the live URL.
pub open spec fn spec_xtream_url(url: Seq<char>, req: Request, c: Option<Civil>) -> Option<Seq<char>> {
    match (spec_split_xtream(url), c) {
        (Some((base, user, pass, id)), Some(t)) => Some(
            base + "/streaming/timeshift.php?username="@ + user + "&password="@ + pass
                + "&stream="@ + id + "&start="@ + xtream_stamp(t) + "&duration="@ + signed_decimal(
                duration_minutes(req),
            ),
        ),
        _ => None,
    }
}

fn stamp_of(t: Civil) -> (r: Vec<char>)
    ensures
        r@ == xtream_stamp(t),
{
    let mut out: Vec<char> = Vec::new();
    padded_signed_of(&mut out, t.year, 4);
    let ghost a = out@;
    append_str(&mut out, "-");
    push_padded(&mut out, t.month as u64, 2);
    let ghost b = out@;
    append_str(&mut out, "-");
    push_padded(&mut out, t.day as u64, 2);
    let ghost c = out@;
    append_str(&mut out, ":");
    push_padded(&mut out, t.hour as u64, 2);
    let ghost d = out@;
    append_str(&mut out, "-");
    push_padded(&mut out, t.minute as u64, 2);
    assert(out@ =~= xtream_stamp(t));
    out
}

#[verifier::rlimit(40)]
fn xtream_url(url: &Vec<char>, req: &Request, c: Option<Civil>) -> (r: Option<Vec<char>>)
    requires
        request_in_range(*req),
    ensures
        match r {
            Some(v) => spec_xtream_url(url@, *req, c) == Some(v@),
            None => spec_xtream_url(url@, *req, c) is None,
        },
{
    let (base, user, pass, id) = match split_xtream_stream_url(url) {
        Some(t) => t,
        None => return None,
    };
    let t = match c {
        Some(t) => t,
        None => return None,
    };
    let stamp = stamp_of(t);
    let d = req.stop - req.start;
    let m = if d > 60 {
        d
    } else {
        60
    };
    let minutes = (m + 59) / 60;
    let mins = signed_of(minutes);
    let mut out = base;
    append_str(&mut out, "/streaming/timeshift.php?username=");
    append(&mut out, &user);
    append_str(&mut out, "&password=");
    append(&mut out, &pass);
    append_str(&mut out, "&stream=");
    append(&mut out, &id);
    append_str(&mut out, "&start=");
    append(&mut out, &stamp);
    append_str(&mut out, "&duration=");
    append(&mut out, &mins);
    assert(out@ =~= base@ + "/streaming/timeshift.php?username="@ + user@ + "&password="@ + pass@
        + "&stream="@ + id@ + "&start="@ + stamp@ + "&duration="@ + mins@);
    Some(out)
}

pub open spec fn ampersand() -> spec_fn(char) -> bool {
    |c: char| c == '&'
}

/// A `catchup-source` is either a whole URL or a fragment to bolt onto the stream URL: a
/// query (after `?` or `&`) joins the stream URL's, anything else is a path.
pub open spec fn spec_apply_source(stream_url: Seq<char>, template: Seq<char>, req: Request, c: Option<Civil>) -> Seq<char> {
    let e = spec_expand(template, req, c);
    let lower = ascii_lower(e);
    if starts_with(lower, "http://"@) || starts_with(lower, "https://"@) {
        e
    } else if e.len() > 0 && e[0] == '?' {
        spec_append_query(stream_url, e.skip(1))
    } else if e.len() > 0 && e[0] == '&' {
        spec_append_query(stream_url, strip_start_by(e, ampersand()))
    } else {
        strip_end_by(stream_url, slash()) + e
    }
}

/// The URL to play a past programme from: nothing without a stream URL; the provider's
/// template when it sent one, whatever the mode; else the mode's own convention.
pub open spec fn spec_url_for(req: Request, c: Option<Civil>) -> Option<Seq<char>> {
    let url = req.stream_url@;
    if trim(url).len() == 0 {
        None
    } else if req.source is Some && trim(req.source->0@).len() > 0 {
        Some(spec_apply_source(url, trim(req.source->0@), req, c))
    } else {
        match req.mode {
            Mode::Shift | Mode::Append => Some(
                spec_append_query(
                    url,
                    "utc="@ + signed_decimal(req.start as int) + "&lutc="@ + signed_decimal(
                        req.now as int,
                    ),
                ),
            ),
            Mode::Flussonic => Some(spec_flussonic_url(url, req.start)),
            Mode::Xtream => spec_xtream_url(url, req, c),
        }
    }
}

fn apply_source(stream_url: &Vec<char>, template: &Vec<char>, req: &Request, c: Option<Civil>) -> (r: Vec<char>)
    requires
        request_in_range(*req),
    ensures
        r@ == spec_apply_source(stream_url@, template@, *req, c),
{
    let e = expand_with(template, req, c);
    let lower = lower_all(&e);
    if has_prefix(&lower, "http://") || has_prefix(&lower, "https://") {
        return e;
    }
    if e.len() > 0 && e[0] == '?' {
        let q = slice(&e, 1, e.len());
        assert(e@.subrange(1, e@.len() as int) =~= e@.skip(1));
        return append_query(stream_url, &q);
    }
    if e.len() > 0 && e[0] == '&' {
        let mut a: usize = 0;
        assert(e@.skip(0) =~= e@);
        while a < e.len() && e[a] == '&'
            invariant
                a <= e.len(),
                strip_start_by(e@, ampersand()) == strip_start_by(e@.skip(a as int), ampersand()),
            decreases e.len() - a,
        {
            assert(e@.skip(a as int).drop_first() =~= e@.skip(a + 1));
            a += 1;
        }
        let q = slice(&e, a, e.len());
        assert(e@.subrange(a as int, e@.len() as int) =~= e@.skip(a as int));
        return append_query(stream_url, &q);
    }
    let mut b = stream_url.len();
    assert(stream_url@.take(stream_url@.len() as int) =~= stream_url@);
    while b > 0 && stream_url[b - 1] == '/'
        invariant
            b <= stream_url.len(),
            strip_end_by(stream_url@, slash()) == strip_end_by(stream_url@.take(b as int), slash()),
        decreases b,
    {
        assert(stream_url@.take(b as int).drop_last() =~= stream_url@.take(b - 1));
        b -= 1;
    }
    let mut out = slice(stream_url, 0, b);
    assert(stream_url@.subrange(0, b as int) =~= stream_url@.take(b as int));
    append(&mut out, &e);
    out
}

/// Build the URL to play a past programme from, or `None` if this provider's
/// configuration does not say how.
pub fn url_for(req: &Request) -> (r: Option<String>)
    requires
        request_in_range(*req),
    ensures
        exists|c: Option<Civil>| civil_of_start(*req, c) && crate::text::opt_view(r) == spec_url_for(*req, c),
{
    let c = civil_from_unix(req.start);
    assert(civil_of_start(*req, c));
    let url = chars_of(req.stream_url);
    let (ua, ub) = trim_bounds(&url, 0, url.len());
    assert(url@.subrange(0, url@.len() as int) =~= url@);
    if ua == ub {
        return None;
    }
    if let Some(src) = req.source {
        let sv = chars_of(src);
        let (sa, sb) = trim_bounds(&sv, 0, sv.len());
        assert(sv@.subrange(0, sv@.len() as int) =~= sv@);
        if sa < sb {
            let template = slice(&sv, sa, sb);
            let out = apply_source(&url, &template, req, c);
            return Some(string_of(out.as_slice()));
        }
    }
    match req.mode {
        Mode::Shift | Mode::Append => {
            let mut q: Vec<char> = Vec::new();
            append_str(&mut q, "utc=");
            push_signed(&mut q, req.start);
            append_str(&mut q, "&lutc=");
            push_signed(&mut q, req.now);
            assert(q@ =~= "utc="@ + signed_decimal(req.start as int) + "&lutc="@ + signed_decimal(req.now as int));
            let out = append_query(&url, &q);
            Some(string_of(out.as_slice()))
        },
        Mode::Flussonic => {
            let out = flussonic_url(&url, req.start);
            Some(string_of(out.as_slice()))
        },
        Mode::Xtream => match xtream_url(&url, req, c) {
            Some(out) => Some(string_of(out.as_slice())),
            None => None,
        },
    }
}

/// An empty stream URL is never a catch-up URL, whatever the mode or source.
pub proof fn lemma_no_stream_no_catch_up(req: Request, c: Option<Civil>)
    requires
        trim(req.stream_url@).len() == 0,
    ensures
        spec_url_for(req, c) is None,
{
}

/// A provider's own template beats any convention: with a non-blank source, the mode
/// makes no difference to the URL.
pub proof fn lemma_source_overrides_mode(req: Request, mode: Mode, c: Option<Civil>)
    requires
        req.source is Some,
        trim(req.source->0@).len() > 0,
    ensures
        spec_url_for(req, c) == spec_url_for(Request { mode, ..req }, c),
{
    let other = Request { mode, ..req };
    assert(placeholders(req, c) == placeholders(other, c));
    assert(spec_apply_source(req.stream_url@, trim(req.source->0@), req, c) == spec_apply_source(
        other.stream_url@,
        trim(other.source->0@),
        other,
        c,
    ));
}


proof fn lemma_before_first_index(s: Seq<char>, c: char)
    ensures
        0 <= first_index(s, c) <= s.len(),
        forall|k: int| 0 <= k < first_index(s, c) ==> s[k] != c,
        first_index(s, c) < s.len() ==> s[first_index(s, c)] == c,
    decreases s.len(),
{
    if s.len() > 0 && s[0] != c {
        lemma_before_first_index(s.drop_first(), c);
        assert forall|k: int| 0 <= k < first_index(s, c) implies s[k] != c by {
            if k > 0 {
                assert(s[k] == s.drop_first()[k - 1]);
            }
        }
    }
}

/// The stream id an Xtream catch-up URL carries is never empty and never holds a dot: it
/// is the stream's file name up to its first `.`, so `1234.ts` is stream `1234`.
pub proof fn lemma_xtream_stream_id_has_no_dot(url: Seq<char>)
    ensures
        spec_split_xtream(url) matches Some((base, user, pass, id)) ==> id.len() > 0 && user.len() > 0
            && pass.len() > 0 && forall|k: int| 0 <= k < id.len() ==> id[k] != '.',
{
    reveal(split_after_scheme);
    let wq = url.take(first_index(url, '?'));
    if let Some(i) = first_occurrence(wq, "://"@) {
        let rest = wq.skip(i + 3);
        let parts = split_on(rest, '/');
        if parts.len() >= 4 {
            let p1 = parts.drop_first();
            let p2 = if is_kind_segment(p1[0]) {
                p1.drop_first()
            } else {
                p1
            };
            if p2.len() >= 3 {
                lemma_before_first_index(p2[2], '.');
            }
        }
    }
}

proof fn lemma_first_index_absent_here(s: Seq<char>, c: char)
    requires
        !has_char(s, c),
    ensures
        first_index(s, c) == s.len(),
    decreases s.len(),
{
    if s.len() > 0 {
        assert(s[0] != c);
        assert(!has_char(s.drop_first(), c)) by {
            if has_char(s.drop_first(), c) {
                let k = choose|k: int| 0 <= k < s.drop_first().len() && s.drop_first()[k] == c;
                assert(s[k + 1] == c);
            }
        }
        lemma_first_index_absent_here(s.drop_first(), c);
    }
}

proof fn lemma_least_occurrence(s: Seq<char>, p: Seq<char>, k: int)
    requires
        occurs_at(s, p, k),
    ensures
        exists|i: int| occurs_at(s, p, i) && forall|j: int| 0 <= j < i ==> !occurs_at(s, p, j),
    decreases k,
{
    if exists|j: int| 0 <= j < k && occurs_at(s, p, j) {
        let j = choose|j: int| 0 <= j < k && occurs_at(s, p, j);
        lemma_least_occurrence(s, p, j);
    } else {
        assert(occurs_at(s, p, k) && forall|j: int| 0 <= j < k ==> !occurs_at(s, p, j));
    }
}

/// Two texts with the same occurrences of a pattern have the same first occurrence.
proof fn lemma_same_first_occurrence(a: Seq<char>, b: Seq<char>, p: Seq<char>)
    requires
        forall|k: int| occurs_at(a, p, k) <==> occurs_at(b, p, k),
    ensures
        first_occurrence(a, p) == first_occurrence(b, p),
{
    if exists|k: int| occurs_at(a, p, k) {
        let k = choose|k: int| occurs_at(a, p, k);
        lemma_least_occurrence(a, p, k);
        lemma_least_occurrence(b, p, k);
        let ia = choose|i: int| occurs_at(a, p, i) && forall|j: int| 0 <= j < i ==> !occurs_at(a, p, j);
        let ib = choose|i: int| occurs_at(b, p, i) && forall|j: int| 0 <= j < i ==> !occurs_at(b, p, j);
        if ia < ib {
            assert(occurs_at(b, p, ia));
        } else if ib < ia {
            assert(occurs_at(a, p, ib));
        }
    }
}

/// The last piece of a split is the text after the last separator.
proof fn lemma_split_last(s: Seq<char>, sep: char)
    ensures
        split_on(s, sep).len() >= 1,
        !has_char(split_on(s, sep).last(), sep),
        exists|k: int| 0 <= k <= s.len() && split_on(s, sep).last() == s.skip(k),
    decreases s.len(),
{
    crate::text::lemma_split_on_nonempty(s, sep);
    if s.len() == 0 {
        assert(s.skip(0) =~= s);
        assert(split_on(s, sep).last() =~= Seq::<char>::empty());
    } else {
        lemma_split_last(s.drop_last(), sep);
        let prev = split_on(s.drop_last(), sep);
        if s.last() == sep {
            assert(split_on(s, sep).last() =~= s.skip(s.len() as int));
        } else {
            let k = choose|k: int| 0 <= k <= s.drop_last().len() && prev.last() == s.drop_last().skip(k);
            assert(split_on(s, sep).last() == prev.last().push(s.last()));
            assert(prev.last().push(s.last()) =~= s.skip(k));
            assert(!has_char(prev.last().push(s.last()), sep)) by {
                if has_char(prev.last().push(s.last()), sep) {
                    let j = choose|j: int| 0 <= j < prev.last().push(s.last()).len() && prev.last().push(s.last())[j] == sep;
                    if j < prev.last().len() {
                        assert(prev.last()[j] == sep);
                    }
                }
            }
        }
    }
}

/// The extension of the stream file makes no difference to the Xtream parts read from a
/// stream URL: `…/1234` and `…/1234.ts` (or `.m3u8`, or any other) name the same stream.
/// The URL is taken without a query, and the extension holds no `/` or `?`.
pub proof fn lemma_stream_extension_is_ignored(x: Seq<char>, e: Seq<char>)
    requires
        !has_char(x, '?'),
        !has_char(e, '/'),
        !has_char(e, '?'),
        forall|k: int| 0 <= k < x.len() && x[k] == '.' ==> exists|j: int| k < j < x.len() && x[j] == '/',
    ensures
        spec_split_xtream(x + seq!['.'] + e) == spec_split_xtream(x),
{
    reveal(split_after_scheme);
    let ext = seq!['.'] + e;
    let y = x + ext;
    assert(x + seq!['.'] + e =~= y);
    assert(!has_char(ext, '/')) by {
        if has_char(ext, '/') {
            let j = choose|j: int| 0 <= j < ext.len() && ext[j] == '/';
            assert(e[j - 1] == '/');
        }
    }
    assert(!has_char(ext, '?')) by {
        if has_char(ext, '?') {
            let j = choose|j: int| 0 <= j < ext.len() && ext[j] == '?';
            assert(e[j - 1] == '?');
        }
    }
    assert(!has_char(y, '?')) by {
        if has_char(y, '?') {
            let j = choose|j: int| 0 <= j < y.len() && y[j] == '?';
            if j < x.len() {
                assert(x[j] == '?');
            } else {
                assert(ext[j - x.len()] == '?');
            }
        }
    }
    lemma_first_index_absent_here(x, '?');
    lemma_first_index_absent_here(y, '?');
    assert(x.take(x.len() as int) =~= x);
    assert(y.take(y.len() as int) =~= y);
    let pat = "://"@;
    reveal_strlit("://");
    assert forall|k: int| occurs_at(y, pat, k) <==> occurs_at(x, pat, k) by {
        if 0 <= k && k + 3 <= x.len() {
            assert(y.subrange(k, k + 3) =~= x.subrange(k, k + 3));
        } else if occurs_at(y, pat, k) {
            assert(y.subrange(k, k + 3)[2] == '/');
            assert(y[k + 2] == '/');
            if k + 2 == x.len() {
                assert(y[k + 2] == '.');
            } else {
                assert(ext[k + 2 - x.len()] == '/');
            }
        }
    }
    lemma_same_first_occurrence(y, x, pat);
    if let Some(i) = first_occurrence(x, pat) {
        lemma_least_occurrence(x, pat, choose|k: int| occurs_at(x, pat, k));
        assert(occurs_at(x, pat, i));
        let rest = x.skip(i + 3);
        assert(y.take(i + 3) =~= x.take(i + 3));
        assert(y.skip(i + 3) =~= rest + ext);
        crate::text::lemma_split_append_plain(rest, ext, '/');
        lemma_split_last(rest, '/');
        let parts = split_on(rest, '/');
        let parts2 = split_on(rest + ext, '/');
        let last = parts.last();
        let n = parts.len() - 1;
        assert(parts2 == parts.update(n, last + ext));
        // The last piece of the URL holds no dot.
        let k0 = choose|k: int| 0 <= k <= rest.len() && last == rest.skip(k);
        assert(!has_char(last, '.')) by {
            if has_char(last, '.') {
                let m = choose|m: int| 0 <= m < last.len() && last[m] == '.';
                let at = i + 3 + k0 + m;
                assert(x[at] == '.');
                let j = choose|j: int| at < j < x.len() && x[j] == '/';
                assert(last[j - i - 3 - k0] == '/');
            }
        }
        if parts.len() >= 4 {
            let p1 = parts.drop_first();
            let q1 = parts2.drop_first();
            assert(q1[0] == p1[0]);
            let p2 = if is_kind_segment(p1[0]) { p1.drop_first() } else { p1 };
            let q2 = if is_kind_segment(q1[0]) { q1.drop_first() } else { q1 };
            assert(q2.len() == p2.len());
            if p2.len() >= 3 {
                let off = parts.len() - p2.len();
                assert forall|t: int| 0 <= t < p2.len() implies p2[t] == parts[t + off] && q2[t] == parts2[t + off] by {}
                assert(q2[0] == p2[0] && q2[1] == p2[1]);
                if 2 + off == n {
                    lemma_first_index_absent_here(last, '.');
                    assert(!has_char(last + ext, '.') || true);
                    lemma_first_index(last + ext, '.', last.len() as int);
                    assert((last + ext)[last.len() as int] == '.');
                    assert forall|j: int| 0 <= j < last.len() implies (last + ext)[j] != '.' by {
                        assert((last + ext)[j] == last[j]);
                    }
                    lemma_first_index(last + ext, '.', last.len() as int);
                    assert((last + ext).take(last.len() as int) =~= last);
                    assert(last.take(last.len() as int) =~= last);
                } else {
                    assert(q2[2] == p2[2]);
                }
            }
        }
    }
}


/// An Xtream catch-up URL does not depend on the stream file's extension: a channel whose
/// stream is `…/1234.ts` gets the same catch-up URL as one whose stream is `…/1234`
/// (`stream=1234` either way), for the same programme.
#[verifier::rlimit(40)]
pub proof fn lemma_catch_up_ignores_stream_extension(r1: Request, r2: Request, e: Seq<char>, c: Option<Civil>)
    requires
        r1.mode == Mode::Xtream,
        r1.source is None,
        r2.mode == r1.mode,
        r2.source == r1.source,
        r2.start == r1.start,
        r2.stop == r1.stop,
        r2.now == r1.now,
        trim(r1.stream_url@).len() > 0,
        r2.stream_url@ == r1.stream_url@ + seq!['.'] + e,
        !has_char(r1.stream_url@, '?'),
        !has_char(e, '/'),
        !has_char(e, '?'),
        forall|k: int|
            0 <= k < r1.stream_url@.len() && r1.stream_url@[k] == '.' ==> exists|j: int|
                k < j < r1.stream_url@.len() && r1.stream_url@[j] == '/',
    ensures
        spec_url_for(r2, c) == spec_url_for(r1, c),
{
    lemma_stream_extension_is_ignored(r1.stream_url@, e);
    let x = r1.stream_url@;
    let y = r2.stream_url@;
    // A non-blank text stays non-blank with more after it.
    assert(trim(y).len() > 0) by {
        lemma_trim_nonblank(x, seq!['.'] + e);
        assert(x + (seq!['.'] + e) =~= y);
    }
    assert(spec_url_for(r1, c) == spec_xtream_url(x, r1, c));
    assert(spec_url_for(r2, c) == spec_xtream_url(y, r2, c));
    assert(duration_minutes(r1) == duration_minutes(r2));
    assert(spec_xtream_url(x, r1, c) == spec_xtream_url(y, r2, c));
}


proof fn lemma_trim_start_shape(s: Seq<char>)
    ensures
        exists|k: int|
            0 <= k <= s.len() && trim_start(s) == s.skip(k) && (forall|j: int| 0 <= j < k ==> white_space(#[trigger] s[j]))
                && (k < s.len() ==> !white_space(s[k])),
    decreases s.len(),
{
    if s.len() > 0 && white_space(s[0]) {
        lemma_trim_start_shape(s.drop_first());
        let k = choose|k: int|
            0 <= k <= s.drop_first().len() && trim_start(s.drop_first()) == s.drop_first().skip(k) && (forall|j: int|
                0 <= j < k ==> white_space(#[trigger] s.drop_first()[j])) && (k < s.drop_first().len()
                ==> !white_space(s.drop_first()[k]));
        assert(s.drop_first().skip(k) =~= s.skip(k + 1));
        assert forall|j: int| 0 <= j < k + 1 implies white_space(#[trigger] s[j]) by {
            if j > 0 {
                assert(s[j] == s.drop_first()[j - 1]);
            }
        }
        assert(k < s.drop_first().len() ==> s[k + 1] == s.drop_first()[k]);
    } else {
        assert(s.skip(0) =~= s);
    }
}

proof fn lemma_trim_end_keeps_first(t: Seq<char>)
    requires
        t.len() > 0,
        !white_space(t[0]),
    ensures
        trim_end(t).len() > 0,
    decreases t.len(),
{
    if white_space(t.last()) {
        assert(t.len() > 1);
        assert(t.drop_last()[0] == t[0]);
        lemma_trim_end_keeps_first(t.drop_last());
    }
}

/// Text that is not blank stays not blank with more text after it.
proof fn lemma_trim_nonblank(x: Seq<char>, z: Seq<char>)
    requires
        trim(x).len() > 0,
    ensures
        trim(x + z).len() > 0,
{
    lemma_trim_start_shape(x);
    let k = choose|k: int|
        0 <= k <= x.len() && trim_start(x) == x.skip(k) && (forall|j: int| 0 <= j < k ==> white_space(#[trigger] x[j]))
            && (k < x.len() ==> !white_space(x[k]));
    if k == x.len() {
        assert(trim_start(x) =~= Seq::<char>::empty());
        assert(false);
    }
    let y = x + z;
    lemma_trim_start_shape(y);
    let m = choose|m: int|
        0 <= m <= y.len() && trim_start(y) == y.skip(m) && (forall|j: int| 0 <= j < m ==> white_space(#[trigger] y[j]))
            && (m < y.len() ==> !white_space(y[m]));
    if m > k {
        assert(white_space(y[k]));
        assert(y[k] == x[k]);
    }
    assert(m < y.len());
    assert(y.skip(m)[0] == y[m]);
    lemma_trim_end_keeps_first(y.skip(m));
}

} // verus!
