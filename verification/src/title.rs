//! Title cleaning and normalization.
//!
//! IPTV stream names are hostile: `US| CNN HD`, `Inception (2010) 1080p WEB-DL x265 MULTI`,
//! `FR - TF1 FHD`. Matching anything (TMDB, EPG channels, duplicate collapsing) requires
//! getting a clean title, a year, and a comparable key out of that.

use vstd::prelude::*;
use crate::pattern::{
    byte_len, captures_at, char_index, char_index_of, group_bounds, group_text, parse_i32_in,
    parse_signed, regex_captures_at, regex_replaced, replace_matches, to_lowercase, to_uppercase,
    unicode_lowercase, unicode_uppercase, byte_length,
};
use crate::text::{
    append, owned, opt_view, ascii_lower, ascii_upper, chars_of, ends_with, lower_all, slice, str_eq, string_of,
    trim, trim_bounds, trimmed, upper_all, white_space, is_whitespace, has_suffix, alphanumeric,
};
use crate::words::{
    alnum_only, alnum_pieces, join, keep_alnum, not_alnum, split_by, strip_by, strip_end_by,
    strip_non_alnum, strip_start_by, word_bounds, words,
};

verus! {

broadcast use vstd::string::group_string_axioms;

/// Quality / source / codec noise stripped from VOD titles.
pub open spec fn is_release_tag(k: Seq<char>) -> bool {
    ||| k == "2160p"@ || k == "1080p"@ || k == "1080i"@ || k == "720p"@
    ||| k == "576p"@ || k == "480p"@ || k == "360p"@ || k == "4k"@
    ||| k == "8k"@ || k == "uhd"@ || k == "fhd"@ || k == "hd"@
    ||| k == "sd"@ || k == "hq"@ || k == "web-dl"@ || k == "webdl"@
    ||| k == "webrip"@ || k == "web"@ || k == "bluray"@ || k == "blu-ray"@
    ||| k == "brrip"@ || k == "bdrip"@ || k == "dvdrip"@ || k == "dvdscr"@
    ||| k == "hdtv"@ || k == "hdrip"@ || k == "cam"@ || k == "ts"@
    ||| k == "tc"@ || k == "remux"@ || k == "x264"@ || k == "x265"@
    ||| k == "h264"@ || k == "h265"@ || k == "hevc"@ || k == "avc"@
    ||| k == "xvid"@ || k == "divx"@ || k == "aac"@ || k == "ac3"@
    ||| k == "eac3"@ || k == "dts"@ || k == "dd5"@ || k == "dd51"@
    ||| k == "ddp"@ || k == "truehd"@ || k == "atmos"@ || k == "flac"@
    ||| k == "mp3"@ || k == "10bit"@ || k == "8bit"@ || k == "hdr"@
    ||| k == "hdr10"@ || k == "dovi"@ || k == "dv"@ || k == "sdr"@
    ||| k == "multi"@ || k == "dual"@ || k == "dubbed"@ || k == "subbed"@
    ||| k == "vostfr"@ || k == "vf"@ || k == "vo"@ || k == "vff"@
    ||| k == "subs"@ || k == "sub"@ || k == "extended"@ || k == "unrated"@
    ||| k == "proper"@ || k == "repack"@ || k == "internal"@ || k == "limited"@
    ||| k == "imax"@ || k == "remastered"@ || k == "directors"@ || k == "cut"@
    ||| k == "uncut"@ || k == "3d"@ || k == "sbs"@ || k == "hsbs"@
}

fn release_tag(k: &Vec<char>) -> (r: bool)
    ensures
        r == is_release_tag(k@),
{
    str_eq(k, "2160p") || str_eq(k, "1080p") || str_eq(k, "1080i") || str_eq(k, "720p") ||
    str_eq(k, "576p") || str_eq(k, "480p") || str_eq(k, "360p") || str_eq(k, "4k") ||
    str_eq(k, "8k") || str_eq(k, "uhd") || str_eq(k, "fhd") || str_eq(k, "hd") ||
    str_eq(k, "sd") || str_eq(k, "hq") || str_eq(k, "web-dl") || str_eq(k, "webdl") ||
    str_eq(k, "webrip") || str_eq(k, "web") || str_eq(k, "bluray") || str_eq(k, "blu-ray") ||
    str_eq(k, "brrip") || str_eq(k, "bdrip") || str_eq(k, "dvdrip") || str_eq(k, "dvdscr") ||
    str_eq(k, "hdtv") || str_eq(k, "hdrip") || str_eq(k, "cam") || str_eq(k, "ts") ||
    str_eq(k, "tc") || str_eq(k, "remux") || str_eq(k, "x264") || str_eq(k, "x265") ||
    str_eq(k, "h264") || str_eq(k, "h265") || str_eq(k, "hevc") || str_eq(k, "avc") ||
    str_eq(k, "xvid") || str_eq(k, "divx") || str_eq(k, "aac") || str_eq(k, "ac3") ||
    str_eq(k, "eac3") || str_eq(k, "dts") || str_eq(k, "dd5") || str_eq(k, "dd51") ||
    str_eq(k, "ddp") || str_eq(k, "truehd") || str_eq(k, "atmos") || str_eq(k, "flac") ||
    str_eq(k, "mp3") || str_eq(k, "10bit") || str_eq(k, "8bit") || str_eq(k, "hdr") ||
    str_eq(k, "hdr10") || str_eq(k, "dovi") || str_eq(k, "dv") || str_eq(k, "sdr") ||
    str_eq(k, "multi") || str_eq(k, "dual") || str_eq(k, "dubbed") || str_eq(k, "subbed") ||
    str_eq(k, "vostfr") || str_eq(k, "vf") || str_eq(k, "vo") || str_eq(k, "vff") ||
    str_eq(k, "subs") || str_eq(k, "sub") || str_eq(k, "extended") || str_eq(k, "unrated") ||
    str_eq(k, "proper") || str_eq(k, "repack") || str_eq(k, "internal") || str_eq(k, "limited") ||
    str_eq(k, "imax") || str_eq(k, "remastered") || str_eq(k, "directors") || str_eq(k, "cut") ||
    str_eq(k, "uncut") || str_eq(k, "3d") || str_eq(k, "sbs") || str_eq(k, "hsbs")
}

/// Channel-name noise stripped when building an EPG match key. Deliberately narrower than
/// the release tags — stripping "web" or "cut" from a channel name would be wrong.
pub open spec fn is_channel_tag(k: Seq<char>) -> bool {
    ||| k == "uhd"@ || k == "fhd"@ || k == "hd"@ || k == "sd"@
    ||| k == "4k"@ || k == "8k"@ || k == "hevc"@ || k == "h265"@
    ||| k == "h264"@ || k == "1080p"@ || k == "1080"@ || k == "720p"@
    ||| k == "720"@ || k == "480p"@ || k == "raw"@ || k == "backup"@
    ||| k == "alt"@ || k == "vip"@ || k == "plus"@ || k == "\u{ac}"@
}

fn channel_tag(k: &Vec<char>) -> (r: bool)
    ensures
        r == is_channel_tag(k@),
{
    str_eq(k, "uhd") || str_eq(k, "fhd") || str_eq(k, "hd") || str_eq(k, "sd") ||
    str_eq(k, "4k") || str_eq(k, "8k") || str_eq(k, "hevc") || str_eq(k, "h265") ||
    str_eq(k, "h264") || str_eq(k, "1080p") || str_eq(k, "1080") || str_eq(k, "720p") ||
    str_eq(k, "720") || str_eq(k, "480p") || str_eq(k, "raw") || str_eq(k, "backup") ||
    str_eq(k, "alt") || str_eq(k, "vip") || str_eq(k, "plus") || str_eq(k, "\u{ac}")
}

pub open spec fn year_pattern() -> Seq<char> {
    r"(?:^|[\s\(\[\.\-_])((?:19|20)\d{2})(?:[\s\)\]\.\-_]|$)"@
}

/// Two shapes: a bracketed code needs no separator (`[DE] RTL`), a bare code does
/// (`US| CNN`, `FR - TF1`, `US ★ QVC`) — otherwise `BBC One` would lose its `BBC`.
pub open spec fn country_pattern() -> Seq<char> {
    r"^\s*(?:[\(\[]([A-Za-z]{2,4})[\)\]]|([A-Za-z]{2,4})\s*[:|\-\u{2013}\u{2605}])\s*"@
}

pub open spec fn separators_pattern() -> Seq<char> {
    r"[\.\_\+]+"@
}

pub open spec fn bracketed_pattern() -> Seq<char> {
    r"[\(\[\{][^\)\]\}]*[\)\]\}]"@
}

pub open spec fn spaces_pattern() -> Seq<char> {
    r"\s{2,}"@
}

fn year_re() -> (r: &'static str)
    ensures
        r@ == year_pattern(),
{
    r"(?:^|[\s\(\[\.\-_])((?:19|20)\d{2})(?:[\s\)\]\.\-_]|$)"
}

fn country_re() -> (r: &'static str)
    ensures
        r@ == country_pattern(),
{
    r"^\s*(?:[\(\[]([A-Za-z]{2,4})[\)\]]|([A-Za-z]{2,4})\s*[:|\-\u{2013}\u{2605}])\s*"
}

fn separators_re() -> (r: &'static str)
    ensures
        r@ == separators_pattern(),
{
    r"[\.\_\+]+"
}

fn bracketed_re() -> (r: &'static str)
    ensures
        r@ == bracketed_pattern(),
{
    r"[\(\[\{][^\)\]\}]*[\)\]\}]"
}

fn spaces_re() -> (r: &'static str)
    ensures
        r@ == spaces_pattern(),
{
    r"\s{2,}"
}

/// The plain Latin letter a diacritic-bearing one folds to; every other character
/// stays as it is.
pub open spec fn fold_char(c: char) -> char {
    if c == 'á' || c == 'à' || c == 'â' || c == 'ä' || c == 'ã' || c == 'å' || c == 'ā' || c
        == 'ă' || c == 'ą' {
        'a'
    } else if c == 'é' || c == 'è' || c == 'ê' || c == 'ë' || c == 'ē' || c == 'ĕ' || c == 'ė'
        || c == 'ę' || c == 'ě' {
        'e'
    } else if c == 'í' || c == 'ì' || c == 'î' || c == 'ï' || c == 'ī' || c == 'į' {
        'i'
    } else if c == 'ó' || c == 'ò' || c == 'ô' || c == 'ö' || c == 'õ' || c == 'ø' || c == 'ō'
        || c == 'ő' {
        'o'
    } else if c == 'ú' || c == 'ù' || c == 'û' || c == 'ü' || c == 'ū' || c == 'ů' || c == 'ű' {
        'u'
    } else if c == 'ý' || c == 'ÿ' {
        'y'
    } else if c == 'ñ' || c == 'ń' || c == 'ň' {
        'n'
    } else if c == 'ç' || c == 'ć' || c == 'č' {
        'c'
    } else if c == 'š' || c == 'ś' {
        's'
    } else if c == 'ž' || c == 'ź' || c == 'ż' {
        'z'
    } else if c == 'ł' {
        'l'
    } else if c == 'ď' || c == 'đ' {
        'd'
    } else if c == 'ť' {
        't'
    } else if c == 'ř' {
        'r'
    } else if c == 'ğ' {
        'g'
    } else {
        c
    }
}

pub open spec fn fold(s: Seq<char>) -> Seq<char> {
    s.map_values(|c: char| fold_char(c))
}

fn fold_one(c: char) -> (r: char)
    ensures
        r == fold_char(c),
{
    if c == 'á' || c == 'à' || c == 'â' || c == 'ä' || c == 'ã' || c == 'å' || c == 'ā' || c
        == 'ă' || c == 'ą' {
        'a'
    } else if c == 'é' || c == 'è' || c == 'ê' || c == 'ë' || c == 'ē' || c == 'ĕ' || c == 'ė'
        || c == 'ę' || c == 'ě' {
        'e'
    } else if c == 'í' || c == 'ì' || c == 'î' || c == 'ï' || c == 'ī' || c == 'į' {
        'i'
    } else if c == 'ó' || c == 'ò' || c == 'ô' || c == 'ö' || c == 'õ' || c == 'ø' || c == 'ō'
        || c == 'ő' {
        'o'
    } else if c == 'ú' || c == 'ù' || c == 'û' || c == 'ü' || c == 'ū' || c == 'ů' || c == 'ű' {
        'u'
    } else if c == 'ý' || c == 'ÿ' {
        'y'
    } else if c == 'ñ' || c == 'ń' || c == 'ň' {
        'n'
    } else if c == 'ç' || c == 'ć' || c == 'č' {
        'c'
    } else if c == 'š' || c == 'ś' {
        's'
    } else if c == 'ž' || c == 'ź' || c == 'ż' {
        'z'
    } else if c == 'ł' {
        'l'
    } else if c == 'ď' || c == 'đ' {
        'd'
    } else if c == 'ť' {
        't'
    } else if c == 'ř' {
        'r'
    } else if c == 'ğ' {
        'g'
    } else {
        c
    }
}

fn fold_chars(s: &Vec<char>) -> (r: Vec<char>)
    ensures
        r@ == fold(s@),
{
    let mut r: Vec<char> = Vec::new();
    let mut i: usize = 0;
    while i < s.len()
        invariant
            i <= s.len(),
            r@ == fold(s@.take(i as int)),
        decreases s.len() - i,
    {
        r.push(fold_one(s[i]));
        i += 1;
        assert(r@ =~= fold(s@.take(i as int)));
    }
    assert(s@.take(s@.len() as int) =~= s@);
    r
}

/// Fold common Latin diacritics so "Amélie" and "Amelie" compare equal.
/// Deliberately table-driven: this covers the Latin-1/Latin-A range that provider
/// titles actually use.
pub fn fold_diacritics(input: &str) -> (r: String)
    ensures
        r@ == fold(input@),
{
    let v = chars_of(input);
    let f = fold_chars(&v);
    string_of(f.as_slice())
}

/// The tier a lower-cased word of a name announces.
pub open spec fn tier_of(w: Seq<char>) -> Option<Seq<char>> {
    if w == "2160p"@ || w == "4k"@ || w == "uhd"@ {
        Some("4K"@)
    } else if w == "4320p"@ || w == "8k"@ {
        Some("8K"@)
    } else if w == "1080p"@ || w == "1080"@ || w == "fhd"@ {
        Some("FHD"@)
    } else if w == "720p"@ || w == "720"@ || w == "hd"@ {
        Some("HD"@)
    } else if w == "sd"@ || w == "480p"@ || w == "360p"@ {
        Some("SD"@)
    } else {
        None
    }
}

/// The tier of the first piece that announces one.
pub open spec fn first_tier(ps: Seq<Seq<char>>) -> Option<Seq<char>>
    decreases ps.len(),
{
    if ps.len() == 0 {
        None
    } else if tier_of(ps[0]) is Some {
        tier_of(ps[0])
    } else {
        first_tier(ps.drop_first())
    }
}

/// The quality tier a name advertises: the first of its lower-cased, diacritic-folded
/// alphanumeric pieces that names one.
pub open spec fn spec_detect_quality(name: Seq<char>) -> Option<Seq<char>> {
    first_tier(split_by(unicode_lowercase(fold(name)), not_alnum()))
}

fn tier_in(s: &Vec<char>, lo: usize, hi: usize) -> (r: Option<&'static str>)
    requires
        lo <= hi <= s.len(),
    ensures
        match r {
            Some(t) => tier_of(s@.subrange(lo as int, hi as int)) == Some(t@),
            None => tier_of(s@.subrange(lo as int, hi as int)) is None,
        },
{
    let k = slice(s, lo, hi);
    let k = &k;
    if str_eq(k, "2160p") || str_eq(k, "4k") || str_eq(k, "uhd") {
        Some("4K")
    } else if str_eq(k, "4320p") || str_eq(k, "8k") {
        Some("8K")
    } else if str_eq(k, "1080p") || str_eq(k, "1080") || str_eq(k, "fhd") {
        Some("FHD")
    } else if str_eq(k, "720p") || str_eq(k, "720") || str_eq(k, "hd") {
        Some("HD")
    } else if str_eq(k, "sd") || str_eq(k, "480p") || str_eq(k, "360p") {
        Some("SD")
    } else {
        None
    }
}

fn detect_in(lower: &Vec<char>) -> (r: Option<String>)
    ensures
        opt_seq(r) == first_tier(split_by(lower@, not_alnum())),
{
    let pieces = alnum_pieces(lower);
    let ghost ps = split_by(lower@, not_alnum());
    assert(ps.skip(0) =~= ps);
    let mut k: usize = 0;
    while k < pieces.len()
        invariant
            k <= pieces.len(),
            ps == split_by(lower@, not_alnum()),
            pieces@.len() == ps.len(),
            forall|j: int|
                0 <= j < pieces@.len() ==> {
                    &&& (#[trigger] pieces@[j]).0 <= pieces@[j].1 <= lower.len()
                    &&& lower@.subrange(pieces@[j].0 as int, pieces@[j].1 as int) == ps[j]
                },
            first_tier(ps) == first_tier(ps.skip(k as int)),
        decreases pieces.len() - k,
    {
        let (a, b) = pieces[k];
        assert(ps.skip(k as int).drop_first() =~= ps.skip(k + 1));
        assert(ps.skip(k as int)[0] == ps[k as int]);
        match tier_in(lower, a, b) {
            Some(t) => {
                assert(lower@.subrange(a as int, b as int) == ps[k as int]);
                assert(ps.skip(k as int).len() > 0);
                assert(first_tier(ps.skip(k as int)) == tier_of(ps.skip(k as int)[0]));
                return Some(owned(t));
            },
            None => {
                assert(lower@.subrange(a as int, b as int) == ps[k as int]);
            },
        }
        k += 1;
    }
    None
}

/// The view of an optional string.
pub open spec fn opt_seq(o: Option<String>) -> Option<Seq<char>> {
    match o {
        Some(s) => Some(s@),
        None => None,
    }
}

/// Detect the quality tier advertised in a channel or stream name.
pub fn detect_quality(name: &str) -> (r: Option<String>)
    ensures
        opt_seq(r) == spec_detect_quality(name@),
{
    let folded = fold_diacritics(name);
    let lower = to_lowercase(folded.as_str());
    let lv = chars_of(lower.as_str());
    detect_in(&lv)
}

/// The rank of a normalised tier: bigger is better, unknown is 0.
pub open spec fn tier_rank(t: Seq<char>) -> u8 {
    if t == "4K"@ || t == "8K"@ {
        4
    } else if t == "FHD"@ {
        3
    } else if t == "HD"@ {
        2
    } else if t == "SD"@ {
        1
    } else {
        0
    }
}

pub open spec fn spec_quality_rank(quality: Option<Seq<char>>) -> u8 {
    match quality {
        None => 0,
        Some(raw) => tier_rank(
            match spec_detect_quality(raw) {
                Some(t) => t,
                None => unicode_uppercase(trim(raw)),
            },
        ),
    }
}

/// Order quality tiers so duplicates can be collapsed onto the best copy.
///
/// Takes whatever is stored — the tags `detect_quality` returns, or a raw `1080p` out
/// of a provider's own field — and returns a number where bigger is better. Nothing
/// known ranks below `SD`, so a tagged copy always beats an untagged one, and two
/// untagged copies are left to the caller to break.
pub fn quality_rank(quality: Option<&str>) -> (r: u8)
    ensures
        r == spec_quality_rank(
            match quality {
                Some(q) => Some(q@),
                None => None,
            },
        ),
{
    let raw = match quality {
        Some(q) => q,
        None => return 0,
    };
    let normalized = match detect_quality(raw) {
        Some(t) => t,
        None => {
            let tv = chars_of(raw);
            let t = trimmed(&tv);
            let ts = string_of(t.as_slice());
            to_uppercase(ts.as_str())
        },
    };
    let n = chars_of(normalized.as_str());
    let n = &n;
    if str_eq(n, "4K") || str_eq(n, "8K") {
        4
    } else if str_eq(n, "FHD") {
        3
    } else if str_eq(n, "HD") {
        2
    } else if str_eq(n, "SD") {
        1
    } else {
        0
    }
}

/// A leading country or language code split off a channel name: the rest, trimmed, and
/// the code in upper case; the trimmed name and no code when there is no such prefix or
/// nothing would be left after it.
pub open spec fn spec_split_country(name: Seq<char>) -> (Seq<char>, Option<Seq<char>>) {
    let c = regex_captures_at(country_pattern(), name, 0);
    let code = match group_text(name, c, 1) {
        Some(t) => Some(ascii_upper(t)),
        None => match group_text(name, c, 2) {
            Some(t) => Some(ascii_upper(t)),
            None => None,
        },
    };
    match group_text(name, c, 0) {
        Some(_) => match char_index(name, c[0].2 as int) {
            Some(e) => if trim(name.skip(e)).len() > 0 {
                (trim(name.skip(e)), code)
            } else {
                (trim(name), None)
            },
            None => (trim(name), None),
        },
        None => (trim(name), None),
    }
}

fn upper_string(v: &Vec<char>, lo: usize, hi: usize) -> (r: String)
    requires
        lo <= hi <= v.len(),
    ensures
        r@ == ascii_upper(v@.subrange(lo as int, hi as int)),
{
    let t = slice(v, lo, hi);
    let u = upper_all(&t);
    string_of(u.as_slice())
}

/// Split a leading country/language prefix off a channel name.
/// `"US| CNN HD"` → `("CNN HD", Some("US"))`.
pub fn split_country_prefix(name: &str) -> (r: (String, Option<String>))
    ensures
        (r.0@, opt_seq(r.1)) == spec_split_country(name@),
{
    let v = chars_of(name);
    let c = captures_at(country_re(), name, 0);
    let code = match group_bounds(&v, &c, 1) {
        Some((a, b)) => Some(upper_string(&v, a, b)),
        None => match group_bounds(&v, &c, 2) {
            Some((a, b)) => Some(upper_string(&v, a, b)),
            None => None,
        },
    };
    let whole = trimmed(&v);
    if let Some((_, e)) = group_bounds(&v, &c, 0) {
        let (a, b) = trim_bounds(&v, e, v.len());
        assert(v@.subrange(e as int, v@.len() as int) =~= name@.skip(e as int));
        if a < b {
            let rest = slice(&v, a, b);
            return (string_of(rest.as_slice()), code);
        }
    }
    (string_of(whole.as_slice()), None)
}

/// The key a sequence of words contributes: each word's alphanumerics, except those
/// that are empty or are channel noise, run together.
pub open spec fn key_words(ws: Seq<Seq<char>>) -> Seq<char>
    decreases ws.len(),
{
    if ws.len() == 0 {
        Seq::empty()
    } else {
        let k = keep_alnum(ws.last());
        key_words(ws.drop_last()) + if k.len() == 0 || is_channel_tag(k) {
            Seq::empty()
        } else {
            k
        }
    }
}

/// The base a match key is cut from: the name without its country prefix, folded, lower
/// case, with bracketed parts and separator runs turned into spaces.
pub open spec fn key_base(name: Seq<char>) -> Seq<char> {
    regex_replaced(
        separators_pattern(),
        regex_replaced(
            bracketed_pattern(),
            unicode_lowercase(fold(spec_split_country(name).0)),
            " "@,
        ),
        " "@,
    )
}

pub open spec fn spec_match_key(name: Seq<char>) -> Seq<char> {
    let base = key_base(name);
    let out = key_words(words(base));
    if out.len() == 0 {
        keep_alnum(base)
    } else {
        out
    }
}

/// Build the comparison key used for EPG matching and duplicate detection.
///
/// Lowercases, folds diacritics, drops a country prefix, removes quality tags, and strips
/// everything that is not alphanumeric — so `"US| CNN HD"`, `"CNN"`, and `"cnn.us"` all collapse
/// to `"cnn"`.
pub fn match_key(name: &str) -> (r: String)
    ensures
        r@ == spec_match_key(name@),
{
    let (base, _) = split_country_prefix(name);
    let folded = fold_diacritics(base.as_str());
    let lower = to_lowercase(folded.as_str());
    let unbracketed = replace_matches(bracketed_re(), lower.as_str(), " ");
    let spaced = replace_matches(separators_re(), unbracketed.as_str(), " ");
    let b = chars_of(spaced.as_str());
    let ws = word_bounds(&b);
    let ghost all = words(b@);
    let mut out: Vec<char> = Vec::new();
    let mut k: usize = 0;
    while k < ws.len()
        invariant
            k <= ws.len(),
            all == words(b@),
            ws@.len() == all.len(),
            forall|j: int|
                0 <= j < ws@.len() ==> {
                    &&& (#[trigger] ws@[j]).0 < ws@[j].1 <= b.len()
                    &&& b@.subrange(ws@[j].0 as int, ws@[j].1 as int) == all[j]
                },
            out@ == key_words(all.take(k as int)),
        decreases ws.len() - k,
    {
        let (lo, hi) = ws[k];
        let key = alnum_only(&b, lo, hi);
        assert(all.take(k + 1).drop_last() =~= all.take(k as int));
        assert(all.take(k + 1).last() == all[k as int]);
        if !(key.len() == 0 || channel_tag(&key)) {
            append(&mut out, &key);
        } else {
            assert(out@ + Seq::<char>::empty() =~= out@);
        }
        k += 1;
    }
    assert(all.take(all.len() as int) =~= all);
    if out.len() == 0 {
        let whole = alnum_only(&b, 0, b.len());
        assert(b@.subrange(0, b@.len() as int) =~= b@);
        return string_of(whole.as_slice());
    }
    string_of(out.as_slice())
}

#[derive(Debug, Clone, PartialEq, Eq)]
pub struct CleanTitle {
    pub title: String,
    pub year: Option<i32>,
    /// Quality token found, if any (`4K`, `1080p`, …) — used for duplicate collapsing.
    pub quality: Option<String>,
}

/// A trailing container extension removed, when the name ends with it in any case.
pub open spec fn strip_ext(s: Seq<char>, ext: Seq<char>) -> Seq<char> {
    if ends_with(ascii_lower(s), ext) {
        s.take(s.len() - ext.len())
    } else {
        s
    }
}

pub open spec fn strip_exts(s: Seq<char>) -> Seq<char> {
    strip_ext(
        strip_ext(
            strip_ext(strip_ext(strip_ext(strip_ext(s, ".mkv"@), ".mp4"@), ".avi"@), ".ts"@),
            ".m3u8"@,
        ),
        ".mov"@,
    )
}

/// The release year's match: the first match of the year pattern that does not start the
/// text, a year at position 0 being the title itself ("2012").
pub open spec fn year_caps(s: Seq<char>) -> Seq<(bool, usize, usize)> {
    let c1 = regex_captures_at(year_pattern(), s, 0);
    if group_text(s, c1, 0) is None {
        Seq::empty()
    } else if c1[0].1 > 0 {
        c1
    } else if c1[0].2 > 0 {
        let c2 = regex_captures_at(year_pattern(), s, c1[0].2);
        if group_text(s, c2, 0) is Some && c2[0].1 > 0 {
            c2
        } else {
            Seq::empty()
        }
    } else {
        Seq::empty()
    }
}

/// The tier a release tag stands for, when it stands for one.
pub open spec fn normalize_quality(k: Seq<char>) -> Option<Seq<char>> {
    if k == "2160p"@ || k == "4k"@ || k == "uhd"@ {
        Some("4K"@)
    } else if k == "1080p"@ || k == "fhd"@ {
        Some("FHD"@)
    } else if k == "720p"@ || k == "hd"@ {
        Some("HD"@)
    } else if k == "sd"@ || k == "480p"@ || k == "360p"@ {
        Some("SD"@)
    } else {
        None
    }
}

/// The words kept for the title and the quality, after the first `n` words: release
/// tags are dropped, and the first one that names a tier supplies the quality when
/// none was found yet.
pub open spec fn scan_words(ws: Seq<Seq<char>>, q0: Option<Seq<char>>) -> (
    Seq<Seq<char>>,
    Option<Seq<char>>,
)
    decreases ws.len(),
{
    if ws.len() == 0 {
        (seq![], q0)
    } else {
        let (kept, q) = scan_words(ws.drop_last(), q0);
        let w = ws.last();
        let key = ascii_lower(strip_by(w, not_alnum()));
        if key.len() == 0 {
            (kept, q)
        } else if is_release_tag(key) {
            (kept, if q is None { normalize_quality(key) } else { q })
        } else {
            (kept.push(w), q)
        }
    }
}

pub open spec fn title_edge() -> spec_fn(char) -> bool {
    |c: char| c == '-' || c == '|' || white_space(c)
}

/// Title, year and quality of a stream name, step by step as `clean_movie_title` takes
/// them.
pub open spec fn spec_clean_title(raw: Seq<char>) -> (Seq<char>, Option<i32>, Option<Seq<char>>) {
    let s1 = regex_replaced(separators_pattern(), strip_exts(trim(raw)), " "@);
    let q1 = spec_detect_quality(s1);
    let yc = year_caps(s1);
    let year = match group_text(s1, yc, 1) {
        Some(t) => match parse_signed(t, i32::MIN as int, i32::MAX as int) {
            Some(y) => Some(y as i32),
            None => None,
        },
        None => None,
    };
    let s2 = if yc.len() > 0 {
        match char_index(s1, yc[0].1 as int) {
            Some(a) => s1.take(a),
            None => s1,
        }
    } else {
        s1
    };
    let s3 = regex_replaced(bracketed_pattern(), s2, " "@);
    let (kept, quality) = scan_words(words(s3), q1);
    let t1 = strip_by(join(kept, " "@), title_edge());
    let t2 = trim(regex_replaced(spaces_pattern(), t1, " "@));
    (if t2.len() == 0 { trim(raw) } else { t2 }, year, quality)
}

fn strip_ext_in(s: Vec<char>, ext: &str) -> (r: Vec<char>)
    ensures
        r@ == strip_ext(s@, ext@),
{
    let lower = lower_all(&s);
    if has_suffix(&lower, ext) {
        let e = chars_of(ext);
        slice(&s, 0, s.len() - e.len())
    } else {
        s
    }
}

fn tier_string(k: &Vec<char>) -> (r: Option<String>)
    ensures
        opt_seq(r) == normalize_quality(k@),
{
    if str_eq(k, "2160p") || str_eq(k, "4k") || str_eq(k, "uhd") {
        Some(owned("4K"))
    } else if str_eq(k, "1080p") || str_eq(k, "fhd") {
        Some(owned("FHD"))
    } else if str_eq(k, "720p") || str_eq(k, "hd") {
        Some(owned("HD"))
    } else if str_eq(k, "sd") || str_eq(k, "480p") || str_eq(k, "360p") {
        Some(owned("SD"))
    } else {
        None
    }
}

/// The release year's match, found as `year_caps` describes.
fn find_year(s: &str, v: &Vec<char>) -> (r: Vec<(bool, usize, usize)>)
    requires
        v@ == s@,
    ensures
        r@ == year_caps(s@),
{
    let c1 = captures_at(year_re(), s, 0);
    if group_bounds(v, &c1, 0).is_none() {
        return Vec::new();
    }
    if c1[0].1 > 0 {
        return c1;
    }
    if c1[0].2 == 0 {
        return Vec::new();
    }
    let ghost e = char_index(s@, c1@[0].2 as int);
    proof {
        let i = e->0;
        crate::pattern::lemma_byte_len_grows(s@, i, s@.len() as int);
        assert(s@.take(s@.len() as int) =~= s@);
    }
    let c2 = captures_at(year_re(), s, c1[0].2);
    if group_bounds(v, &c2, 0).is_some() && c2[0].1 > 0 {
        c2
    } else {
        Vec::new()
    }
}

/// Join `s[bounds[k]]` for the kept words with single spaces.
pub fn join_words(s: &Vec<char>, kept: &Vec<(usize, usize)>) -> (r: Vec<char>)
    requires
        forall|j: int|
            0 <= j < kept@.len() ==> (#[trigger] kept@[j]).0 <= kept@[j].1 <= s.len(),
    ensures
        r@ == join(
            Seq::new(
                kept@.len(),
                |j: int| s@.subrange(kept@[j].0 as int, kept@[j].1 as int),
            ),
            " "@,
        ),
{
    let ghost ws = Seq::new(kept@.len(), |j: int| s@.subrange(kept@[j].0 as int, kept@[j].1 as int));
    let mut r: Vec<char> = Vec::new();
    let mut k: usize = 0;
    while k < kept.len()
        invariant
            k <= kept.len(),
            ws == Seq::new(kept@.len(), |j: int| s@.subrange(kept@[j].0 as int, kept@[j].1 as int)),
            forall|j: int|
                0 <= j < kept@.len() ==> (#[trigger] kept@[j]).0 <= kept@[j].1 <= s.len(),
            r@ == join(ws.take(k as int), " "@),
        decreases kept.len() - k,
    {
        let (a, b) = kept[k];
        let w = slice(s, a, b);
        assert(ws.take(k + 1).drop_last() =~= ws.take(k as int));
        assert(ws.take(k + 1).last() == ws[k as int]);
        if k > 0 {
            r.push(' ');
            proof {
                reveal_strlit(" ");
                assert(" "@ =~= seq![' ']);
            }
        } else {
            assert(ws.take(1) =~= seq![ws[0]]);
        }
        append(&mut r, &w);
        k += 1;
    }
    assert(ws.take(ws.len() as int) =~= ws);
    r
}

/// `s[lo..hi]` without the dashes, bars and whitespace at either end, as bounds.
fn strip_title_edges(s: &Vec<char>, lo: usize, hi: usize) -> (r: (usize, usize))
    requires
        lo <= hi <= s.len(),
    ensures
        lo <= r.0 <= r.1 <= hi,
        s@.subrange(r.0 as int, r.1 as int) == strip_by(s@.subrange(lo as int, hi as int), title_edge()),
{
    let mut a: usize = lo;
    while a < hi && (s[a] == '-' || s[a] == '|' || is_whitespace(s[a]))
        invariant
            lo <= a <= hi <= s.len(),
            strip_start_by(s@.subrange(lo as int, hi as int), title_edge()) == strip_start_by(
                s@.subrange(a as int, hi as int),
                title_edge(),
            ),
        decreases hi - a,
    {
        assert(s@.subrange(a as int, hi as int).drop_first() =~= s@.subrange(a + 1, hi as int));
        a += 1;
    }
    let mut b: usize = hi;
    while b > a && (s[b - 1] == '-' || s[b - 1] == '|' || is_whitespace(s[b - 1]))
        invariant
            lo <= a <= b <= hi <= s.len(),
            strip_start_by(s@.subrange(lo as int, hi as int), title_edge()) == s@.subrange(
                a as int,
                hi as int,
            ),
            strip_end_by(s@.subrange(a as int, hi as int), title_edge()) == strip_end_by(
                s@.subrange(a as int, b as int),
                title_edge(),
            ),
        decreases b - a,
    {
        assert(s@.subrange(a as int, b as int).drop_last() =~= s@.subrange(a as int, b - 1));
        b -= 1;
    }
    (a, b)
}

/// Which words of `s3` stay in the title, and the quality, as `scan_words` describes.
fn scan_title_words(s3: &Vec<char>, q1: Option<String>) -> (r: (Vec<(usize, usize)>, Option<String>))
    ensures
        r.0@.len() == scan_words(words(s3@), opt_seq(q1)).0.len(),
        forall|j: int|
            0 <= j < r.0@.len() ==> {
                &&& (#[trigger] r.0@[j]).0 <= r.0@[j].1 <= s3.len()
                &&& s3@.subrange(r.0@[j].0 as int, r.0@[j].1 as int) == scan_words(
                    words(s3@),
                    opt_seq(q1),
                ).0[j]
            },
        opt_seq(r.1) == scan_words(words(s3@), opt_seq(q1)).1,
{
    let ws = word_bounds(s3);
    let ghost all = words(s3@);
    let ghost q0 = opt_seq(q1);
    let mut kept: Vec<(usize, usize)> = Vec::new();
    let mut quality = q1;
    let mut k: usize = 0;
    while k < ws.len()
        invariant
            k <= ws.len(),
            all == words(s3@),
            ws@.len() == all.len(),
            forall|j: int|
                0 <= j < ws@.len() ==> {
                    &&& (#[trigger] ws@[j]).0 < ws@[j].1 <= s3.len()
                    &&& s3@.subrange(ws@[j].0 as int, ws@[j].1 as int) == all[j]
                },
            kept@.len() == scan_words(all.take(k as int), q0).0.len(),
            forall|j: int|
                0 <= j < kept@.len() ==> {
                    &&& (#[trigger] kept@[j]).0 <= kept@[j].1 <= s3.len()
                    &&& s3@.subrange(kept@[j].0 as int, kept@[j].1 as int) == scan_words(
                        all.take(k as int),
                        q0,
                    ).0[j]
                },
            opt_seq(quality) == scan_words(all.take(k as int), q0).1,
        decreases ws.len() - k,
    {
        let (lo, hi) = ws[k];
        let (a, b) = strip_non_alnum(s3, lo, hi);
        let stripped = slice(s3, a, b);
        let key = lower_all(&stripped);
        assert(all.take(k + 1).drop_last() =~= all.take(k as int));
        assert(all.take(k + 1).last() == all[k as int]);
        if key.len() == 0 {
        } else if release_tag(&key) {
            if quality.is_none() {
                quality = tier_string(&key);
            }
        } else {
            kept.push((lo, hi));
        }
        k += 1;
    }
    assert(all.take(all.len() as int) =~= all);
    (kept, quality)
}

/// Clean a VOD stream name into a searchable title plus its year and quality.
///
/// `"Inception.2010.1080p.WEB-DL.x265-MULTI"` gives the title `"Inception"`, the year
/// 2010 and the quality `"FHD"`.
pub fn clean_movie_title(raw: &str) -> (r: CleanTitle)
    ensures
        (r.title@, r.year, opt_seq(r.quality)) == spec_clean_title(raw@),
{
    let rv = chars_of(raw);
    let t0 = trimmed(&rv);
    let t0 = strip_ext_in(t0, ".mkv");
    let t0 = strip_ext_in(t0, ".mp4");
    let t0 = strip_ext_in(t0, ".avi");
    let t0 = strip_ext_in(t0, ".ts");
    let t0 = strip_ext_in(t0, ".m3u8");
    let t0 = strip_ext_in(t0, ".mov");
    let t0s = string_of(t0.as_slice());
    let s1 = replace_matches(separators_re(), t0s.as_str(), " ");
    let s1v = chars_of(s1.as_str());
    let q1 = detect_quality(s1.as_str());
    let yc = find_year(s1.as_str(), &s1v);
    let year = match group_bounds(&s1v, &yc, 1) {
        Some((a, b)) => parse_i32_in(&s1v, a, b),
        None => None,
    };
    let cut = if yc.len() > 0 {
        match char_index_of(&s1v, yc[0].1) {
            Some(a) => a,
            None => s1v.len(),
        }
    } else {
        s1v.len()
    };
    let s2 = slice(&s1v, 0, cut);
    assert(s1v@.subrange(0, s1v@.len() as int) =~= s1v@);
    let s2s = string_of(s2.as_slice());
    let s3 = replace_matches(bracketed_re(), s2s.as_str(), " ");
    let s3v = chars_of(s3.as_str());
    let (kept, quality) = scan_title_words(&s3v, q1);
    let joined = join_words(&s3v, &kept);
    proof {
        let sw = scan_words(words(s3v@), opt_seq(q1));
        assert(Seq::new(kept@.len(), |j: int| s3v@.subrange(kept@[j].0 as int, kept@[j].1 as int))
            =~= sw.0);
    }
    let (ea, eb) = strip_title_edges(&joined, 0, joined.len());
    assert(joined@.subrange(0, joined@.len() as int) =~= joined@);
    let t1 = slice(&joined, ea, eb);
    let t1s = string_of(t1.as_slice());
    let t2 = replace_matches(spaces_re(), t1s.as_str(), " ");
    let t2v = chars_of(t2.as_str());
    let t2t = trimmed(&t2v);
    let title = if t2t.len() == 0 {
        trimmed_string(&rv)
    } else {
        string_of(t2t.as_slice())
    };
    CleanTitle { title, year, quality }
}

fn trimmed_string(rv: &Vec<char>) -> (r: String)
    ensures
        r@ == trim(rv@),
{
    let t = trimmed(rv);
    string_of(t.as_slice())
}


proof fn lemma_keep_alnum_nonempty(s: Seq<char>, i: int)
    requires
        0 <= i < s.len(),
        alphanumeric(s[i]),
    ensures
        keep_alnum(s).len() > 0,
    decreases s.len(),
{
    if i < s.len() - 1 {
        lemma_keep_alnum_nonempty(s.drop_last(), i);
    }
}

/// A key is never empty when there is something to make it of: if any alphanumeric
/// character is left once the country prefix and the bracketed tags are gone (and
/// separator runs turned into spaces), the key is not empty.
pub proof fn lemma_key_is_never_empty(name: Seq<char>)
    ensures
        (exists|i: int| 0 <= i < key_base(name).len() && alphanumeric(#[trigger] key_base(name)[i]))
            ==> spec_match_key(name).len() > 0,
{
    let base = key_base(name);
    if exists|i: int| 0 <= i < base.len() && alphanumeric(#[trigger] base[i]) {
        let i = choose|i: int| 0 <= i < base.len() && alphanumeric(#[trigger] base[i]);
        lemma_keep_alnum_nonempty(base, i);
    }
}

} // verus!
