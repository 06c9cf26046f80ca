//! XMLTV guide data: its timestamps, and what an import reports.

use vstd::prelude::*;
use crate::civil::{days_from_civil, days_in_month, epoch_days};
use crate::m3u::strings_view;
use crate::model::{Credit, EpgChannel, Programme};
use crate::pattern::parse_unsigned;
use crate::pattern::parse_unsigned_in;
use crate::series::{parse_episode_marker, spec_episode_marker};
use crate::text::{append_str, lemma_split_on_nonempty, opt_view, seq_eq, split_bounds, split_on, str_eq, string_of};
use crate::text::{
    all_digits, chars_of, digit_prefix, digit_prefix_len, digits_value, is_ascii_digit, is_digit,
    lemma_digit_prefix, parse_digits, trim, trim_bounds, trim_end, trim_start, white_space,
};

verus! {

broadcast use vstd::string::group_string_axioms;

#[derive(Debug, Clone, Copy, PartialEq, Eq)]
pub struct XmltvStats {
    pub channels: usize,
    pub programmes: usize,
    /// Programmes discarded for having no channel, no title, or an unparseable start time.
    pub skipped: usize,
}

/// The ASCII digits of `s`, in order.
pub open spec fn keep_digits(s: Seq<char>) -> Seq<char>
    decreases s.len(),
{
    if s.len() == 0 {
        s
    } else if is_ascii_digit(s.last()) {
        keep_digits(s.drop_last()).push(s.last())
    } else {
        keep_digits(s.drop_last())
    }
}

/// The value of the two- or four-digit field `s[a..b]` of a run of digits.
pub open spec fn field(s: Seq<char>, a: int, b: int) -> int {
    digits_value(s.subrange(a, b))
}

/// The seconds a trailing UTC offset (`+0100`, `-05:30`) takes off or adds: its first
/// four digits read as hours and minutes; nothing when there is no sign or fewer than
/// four digits.
pub open spec fn offset_adjustment(rest: Seq<char>) -> int {
    if rest.len() > 0 && (rest[0] == '+' || rest[0] == '-') {
        let off = keep_digits(rest.skip(1));
        if off.len() >= 4 {
            let total = field(off, 0, 2) * 3600 + field(off, 2, 4) * 60;
            if rest[0] == '+' {
                -total
            } else {
                total
            }
        } else {
            0
        }
    } else {
        0
    }
}

/// The seconds since the epoch a run of at least eight digits spells: `YYYYMMDD`, then
/// optionally `HH`, `MM` and `SS`; nothing for a date that does not exist or an hour,
/// minute or second out of range (a leap second is allowed).
pub open spec fn date_seconds(dg: Seq<char>) -> Option<int> {
    let n = dg.len();
    let year = field(dg, 0, 4);
    let month = field(dg, 4, 6);
    let day = field(dg, 6, 8);
    if !(1 <= month <= 12) || day < 1 || day > days_in_month(year, month) {
        None
    } else {
        let hour = if n >= 10 {
            field(dg, 8, 10)
        } else {
            0
        };
        let minute = if n >= 12 {
            field(dg, 10, 12)
        } else {
            0
        };
        let second = if n >= 14 {
            field(dg, 12, 14)
        } else {
            0
        };
        if hour > 23 || minute > 59 || second > 60 {
            None
        } else {
            Some(epoch_days(year, month, day) * 86400 + hour * 3600 + minute * 60 + second)
        }
    }
}

/// An XMLTV timestamp in Unix seconds UTC: the date and time its leading digits spell,
/// corrected by a trailing UTC offset when there is one.
pub open spec fn spec_parse_time(raw: Seq<char>) -> Option<i64> {
    let s = trim(raw);
    let n = digit_prefix_len(s);
    if n < 8 {
        None
    } else {
        match date_seconds(s.take(n)) {
            None => None,
            Some(base) => Some((base + offset_adjustment(trim(s.skip(n)))) as i64),
        }
    }
}

fn field_of(v: &Vec<char>, a: usize, b: usize) -> (r: i64)
    requires
        a <= b <= v.len(),
        b - a <= 4,
        all_digits(v@.subrange(a as int, b as int)),
    ensures
        r == digits_value(v@.subrange(a as int, b as int)),
        0 <= r < 10000,
{
    proof {
        lemma_digits_small(v@.subrange(a as int, b as int));
    }
    match parse_digits(v, a, b, 9999) {
        Some(x) => x as i64,
        None => 0,
    }
}

proof fn lemma_digits_small(s: Seq<char>)
    requires
        all_digits(s),
        s.len() <= 4,
    ensures
        0 <= digits_value(s) < 10000,
        s.len() <= 3 ==> digits_value(s) < 1000,
        s.len() <= 2 ==> digits_value(s) < 100,
        s.len() <= 1 ==> digits_value(s) < 10,
    decreases s.len(),
{
    if s.len() > 0 {
        assert(all_digits(s.drop_last())) by {
            assert forall|i: int| 0 <= i < s.drop_last().len() implies is_ascii_digit(
                #[trigger] s.drop_last()[i],
            ) by {
                assert(s.drop_last()[i] == s[i]);
            }
        }
        lemma_digits_small(s.drop_last());
        assert(is_ascii_digit(s[s.len() - 1]));
        assert(s.last() == s[s.len() - 1]);
        assert(0 <= crate::text::digit_value(s.last()) <= 9);
    }
}

proof fn lemma_sub_all_digits(s: Seq<char>, a: int, b: int)
    requires
        all_digits(s),
        0 <= a <= b <= s.len(),
    ensures
        all_digits(s.subrange(a, b)),
{
    assert forall|i: int| 0 <= i < b - a implies is_ascii_digit(#[trigger] s.subrange(a, b)[i]) by {
        assert(s.subrange(a, b)[i] == s[a + i]);
    }
}

/// The ASCII digits of `s[lo..hi]`.
fn digits_in(s: &Vec<char>, lo: usize, hi: usize) -> (r: Vec<char>)
    requires
        lo <= hi <= s.len(),
    ensures
        r@ == keep_digits(s@.subrange(lo as int, hi as int)),
{
    let mut r: Vec<char> = Vec::new();
    let mut i = lo;
    while i < hi
        invariant
            lo <= i <= hi <= s.len(),
            r@ == keep_digits(s@.subrange(lo as int, i as int)),
        decreases hi - i,
    {
        assert(s@.subrange(lo as int, i + 1).drop_last() =~= s@.subrange(lo as int, i as int));
        if is_digit(s[i]) {
            r.push(s[i]);
        }
        i += 1;
    }
    r
}

proof fn lemma_keep_digits_all(s: Seq<char>)
    ensures
        all_digits(keep_digits(s)),
    decreases s.len(),
{
    if s.len() > 0 {
        lemma_keep_digits_all(s.drop_last());
    }
}

fn offset_of(s: &Vec<char>, lo: usize, hi: usize) -> (r: i64)
    requires
        lo <= hi <= s.len(),
    ensures
        r == offset_adjustment(s@.subrange(lo as int, hi as int)),
{
    let ghost rest = s@.subrange(lo as int, hi as int);
    if lo < hi && (s[lo] == '+' || s[lo] == '-') {
        let off = digits_in(s, lo + 1, hi);
        assert(s@.subrange(lo + 1, hi as int) =~= rest.skip(1));
        if off.len() >= 4 {
            proof {
                lemma_keep_digits_all(rest.skip(1));
                lemma_sub_all_digits(off@, 0, 2);
                lemma_sub_all_digits(off@, 2, 4);
            }
            let oh = field_of(&off, 0, 2);
            let om = field_of(&off, 2, 4);
            let total = oh * 3600 + om * 60;
            if s[lo] == '+' {
                -total
            } else {
                total
            }
        } else {
            0
        }
    } else {
        0
    }
}

fn date_seconds_of(dg: &Vec<char>) -> (r: Option<i64>)
    requires
        8 <= dg.len(),
        all_digits(dg@),
    ensures
        match r {
            Some(x) => date_seconds(dg@) == Some(x as int) && -400_000_000_000 <= x
                <= 400_000_000_000,
            None => date_seconds(dg@) is None,
        },
{
    let n = dg.len();
    proof {
        lemma_sub_all_digits(dg@, 0, 4);
        lemma_sub_all_digits(dg@, 4, 6);
        lemma_sub_all_digits(dg@, 6, 8);
    }
    let year = field_of(dg, 0, 4);
    let month = field_of(dg, 4, 6);
    let day = field_of(dg, 6, 8);
    let dim: i64 = if month == 1 || month == 3 || month == 5 || month == 7 || month == 8 || month
        == 10 || month == 12 {
        31
    } else if month == 4 || month == 6 || month == 9 || month == 11 {
        30
    } else if month == 2 {
        if year % 4 == 0 && (year % 100 != 0 || year % 400 == 0) {
            29
        } else {
            28
        }
    } else {
        0
    };
    if !(1 <= month && month <= 12) || day < 1 || day > dim {
        return None;
    }
    let hour = if n >= 10 {
        proof {
            lemma_sub_all_digits(dg@, 8, 10);
        }
        field_of(dg, 8, 10)
    } else {
        0
    };
    let minute = if n >= 12 {
        proof {
            lemma_sub_all_digits(dg@, 10, 12);
        }
        field_of(dg, 10, 12)
    } else {
        0
    };
    let second = if n >= 14 {
        proof {
            lemma_sub_all_digits(dg@, 12, 14);
        }
        field_of(dg, 12, 14)
    } else {
        0
    };
    if hour > 23 || minute > 59 || second > 60 {
        return None;
    }
    let days = days_from_civil(year, month, day);
    proof {
        lemma_epoch_days_bounds(year as int, month as int, day as int);
    }
    Some(days * 86400 + hour * 3600 + minute * 60 + second)
}

/// Parse an XMLTV timestamp into Unix seconds UTC.
///
/// Accepts `YYYYMMDDHHMMSS +0100`, `YYYYMMDDHHMMSS`, `YYYYMMDDHHMM`, and `YYYYMMDD`,
/// with or without a space before the offset. A missing offset is treated as UTC.
pub fn parse_time(raw: &str) -> (r: Option<i64>)
    ensures
        r == spec_parse_time(raw@),
        r matches Some(t) ==> -500_000_000_000 <= t <= 500_000_000_000,
{
    let v = chars_of(raw);
    let (a, b) = trim_bounds(&v, 0, v.len());
    assert(v@.subrange(0, v@.len() as int) =~= v@);
    let sv = crate::text::slice(&v, a, b);
    assert(sv@.skip(0) =~= sv@);
    let n = digit_prefix(&sv, 0);
    proof {
        lemma_digit_prefix(sv@);
    }
    if n < 8 {
        return None;
    }
    let dg = crate::text::slice(&sv, 0, n);
    assert(dg@ =~= sv@.take(n as int));
    let base = match date_seconds_of(&dg) {
        Some(x) => x,
        None => return None,
    };
    let (ra, rb) = trim_bounds(&sv, n, sv.len());
    assert(sv@.subrange(n as int, sv@.len() as int) =~= sv@.skip(n as int));
    let adj = offset_of(&sv, ra, rb);
    proof {
        lemma_offset_small(sv@.subrange(ra as int, rb as int));
    }
    Some(base + adj)
}

proof fn lemma_offset_small(rest: Seq<char>)
    ensures
        -400_000 <= offset_adjustment(rest) <= 400_000,
{
    if rest.len() > 0 && (rest[0] == '+' || rest[0] == '-') {
        let off = keep_digits(rest.skip(1));
        if off.len() >= 4 {
            lemma_keep_digits_all(rest.skip(1));
            lemma_sub_all_digits(off, 0, 2);
            lemma_sub_all_digits(off, 2, 4);
            lemma_digits_small(off.subrange(0, 2));
            lemma_digits_small(off.subrange(2, 4));
        }
    }
}

proof fn lemma_epoch_days_bounds(y: int, m: int, d: int)
    requires
        0 <= y <= 9999,
        1 <= m <= 12,
        1 <= d <= 31,
    ensures
        -4_000_000 <= epoch_days(y, m, d) <= 4_000_000,
{
    reveal_with_fuel(crate::civil::days_before_month, 13);
    assert(0 <= crate::civil::days_before_month(y, m) <= 366);
    assert(-366 <= crate::civil::days_before_year(y) <= 3_700_000) by (nonlinear_arith)
        requires
            0 <= y <= 9999,
    {
        assert(-1 <= (y - 1) / 4 <= 2500);
        assert(-1 <= (y - 1) / 100 <= 100);
        assert(-1 <= (y - 1) / 400 <= 25);
    }
}

// ---------------------------------------------------------------------------------------
// Reading a guide, one XML event at a time.
//
// A seven-day guide for thousands of channels can exceed a gigabyte, so nothing is
// buffered beyond the element being built: the reader takes the document's events one
// by one and hands back each channel and programme as it completes.
// ---------------------------------------------------------------------------------------

/// An attribute of an element: its name, and its value once unescaped (`None` when the
/// value could not be unescaped).
#[derive(Debug, Clone, PartialEq, Eq)]
pub struct Attribute {
    pub key: String,
    pub value: Option<String>,
}

/// One event of an XML pull parser, reduced to what the guide reader looks at. An
/// attribute that could not be read at all is `None`. `Text` carries unescaped text or
/// the contents of a CDATA section.
#[derive(Debug, Clone, PartialEq, Eq)]
pub enum XmlEvent {
    Start(String, Vec<Option<Attribute>>),
    Empty(String, Vec<Option<Attribute>>),
    Text(String),
    End(String),
    Other,
}

/// What a completed element gives.
#[derive(Debug, Clone, PartialEq)]
pub enum GuideItem {
    Channel(EpgChannel),
    /// A programme, with the text of its star rating (`7/10`, `3.5`) beside it for the
    /// caller to read as a number.
    Programme(Programme, Option<String>),
}

/// Which wrapper a `<value>` belongs to: `<rating>` and `<star-rating>` both have one.
#[derive(Debug, Clone, Copy, PartialEq, Eq, Structural)]
pub enum RatingScope {
    Neither,
    Rating,
    Star,
}

pub type AttrV = Option<(Seq<char>, Option<Seq<char>>)>;

#[verifier::ext_equal]
pub struct ChannelV {
    pub id: Seq<char>,
    pub display_names: Seq<Seq<char>>,
    pub icon: Option<Seq<char>>,
}

/// A programme: the fields of `Programme`, with its start and stop still optional
/// while it is being read.
#[verifier::ext_equal]
pub struct DraftV {
    pub channel_id: Seq<char>,
    pub start: Option<i64>,
    pub stop: Option<i64>,
    pub title: Seq<char>,
    pub sub_title: Option<Seq<char>>,
    pub description: Option<Seq<char>>,
    pub categories: Seq<Seq<char>>,
    pub season: Option<u16>,
    pub episode: Option<u16>,
    pub icon: Option<Seq<char>>,
    pub rating: Option<Seq<char>>,
    pub star_rating: Option<Seq<char>>,
    pub is_new: bool,
    pub is_live: bool,
    pub is_premiere: bool,
    pub credits: Seq<(Seq<char>, Seq<char>)>,
}

/// Where the reader stands: the counts so far, the channel or programme being built,
/// whether it is inside `<credits>`, the text read since the last tag, which rating a
/// `<value>` belongs to, and the numbering system of the current `<episode-num>`.
#[verifier::ext_equal]
pub struct ReaderV {
    pub stats: XmltvStats,
    pub channel: Option<ChannelV>,
    pub draft: Option<DraftV>,
    pub in_credits: bool,
    pub text: Seq<char>,
    pub scope: RatingScope,
    pub episode_system: Seq<char>,
}

pub enum ItemV {
    Channel(ChannelV),
    Programme(DraftV),
}

pub open spec fn channel_view(c: EpgChannel) -> ChannelV {
    ChannelV { id: c.id@, display_names: strings_view(c.display_names@), icon: opt_view(c.icon) }
}

pub open spec fn credits_view(v: Seq<Credit>) -> Seq<(Seq<char>, Seq<char>)> {
    v.map_values(|c: Credit| (c.role@, c.name@))
}

pub open spec fn programme_view(p: Programme, star_rating: Option<String>) -> DraftV {
    DraftV {
        channel_id: p.channel_id@,
        start: Some(p.start),
        stop: Some(p.stop),
        title: p.title@,
        sub_title: opt_view(p.sub_title),
        description: opt_view(p.description),
        categories: strings_view(p.categories@),
        season: p.season,
        episode: p.episode,
        icon: opt_view(p.icon),
        rating: opt_view(p.rating),
        star_rating: opt_view(star_rating),
        is_new: p.is_new,
        is_live: p.is_live,
        is_premiere: p.is_premiere,
        credits: credits_view(p.credits@),
    }
}

pub open spec fn item_view(i: Option<GuideItem>) -> Option<ItemV> {
    match i {
        Some(GuideItem::Channel(c)) => Some(ItemV::Channel(channel_view(c))),
        Some(GuideItem::Programme(p, star)) => Some(ItemV::Programme(programme_view(p, star))),
        None => None,
    }
}

pub open spec fn attr_view(a: Option<Attribute>) -> AttrV {
    match a {
        Some(at) => Some((at.key@, opt_view(at.value))),
        None => None,
    }
}

pub open spec fn attrs_view(v: Seq<Option<Attribute>>) -> Seq<AttrV> {
    v.map_values(|a: Option<Attribute>| attr_view(a))
}

pub open spec fn or_empty(o: Option<Seq<char>>) -> Seq<char> {
    match o {
        Some(s) => s,
        None => Seq::empty(),
    }
}

/// The value of the last readable attribute named `key` (empty when its value could not
/// be unescaped); `None` when there is none.
pub open spec fn last_value(attrs: Seq<AttrV>, key: Seq<char>) -> Option<Seq<char>>
    decreases attrs.len(),
{
    if attrs.len() == 0 {
        None
    } else {
        match attrs.last() {
            Some(kv) => if kv.0 == key {
                Some(or_empty(kv.1))
            } else {
                last_value(attrs.drop_last(), key)
            },
            None => last_value(attrs.drop_last(), key),
        }
    }
}

/// The value of the first readable attribute named `key`, as it came (`None` inside
/// when it could not be unescaped); `None` when there is none.
pub open spec fn first_value(attrs: Seq<AttrV>, key: Seq<char>) -> Option<Option<Seq<char>>>
    decreases attrs.len(),
{
    if attrs.len() == 0 {
        None
    } else {
        let before = first_value(attrs.drop_last(), key);
        if before is Some {
            before
        } else {
            match attrs.last() {
                Some(kv) => if kv.0 == key {
                    Some(kv.1)
                } else {
                    None
                },
                None => None,
            }
        }
    }
}

/// The programme a `<programme>` tag opens: channel, start and stop from its attributes.
pub open spec fn new_draft(attrs: Seq<AttrV>) -> DraftV {
    DraftV {
        channel_id: or_empty(last_value(attrs, "channel"@)),
        start: match last_value(attrs, "start"@) {
            Some(v) => spec_parse_time(v),
            None => None,
        },
        stop: match last_value(attrs, "stop"@) {
            Some(v) => spec_parse_time(v),
            None => None,
        },
        title: Seq::empty(),
        sub_title: None,
        description: None,
        categories: Seq::empty(),
        season: None,
        episode: None,
        icon: None,
        rating: None,
        star_rating: None,
        is_new: false,
        is_live: false,
        is_premiere: false,
        credits: Seq::empty(),
    }
}

pub open spec fn keep_or(o: Option<Seq<char>>, v: Seq<char>) -> Option<Seq<char>> {
    match o {
        Some(x) => Some(x),
        None => Some(v),
    }
}

/// An icon goes to the programme being read, else to the channel; the first one wins.
pub open spec fn with_icon(r: ReaderV, attrs: Seq<AttrV>) -> ReaderV {
    match first_value(attrs, "src"@) {
        Some(Some(src)) => match r.draft {
            Some(d) => ReaderV { draft: Some(DraftV { icon: keep_or(d.icon, src), ..d }), ..r },
            None => match r.channel {
                Some(c) => ReaderV {
                    channel: Some(ChannelV { icon: keep_or(c.icon, src), ..c }),
                    ..r
                },
                None => r,
            },
        },
        _ => r,
    }
}

/// The flags `<new>`, `<live>` and `<premiere>` set on the programme being read.
pub open spec fn with_flag(r: ReaderV, name: Seq<char>) -> ReaderV {
    match r.draft {
        Some(d) => if name == "new"@ {
            ReaderV { draft: Some(DraftV { is_new: true, ..d }), ..r }
        } else if name == "live"@ {
            ReaderV { draft: Some(DraftV { is_live: true, ..d }), ..r }
        } else if name == "premiere"@ {
            ReaderV { draft: Some(DraftV { is_premiere: true, ..d }), ..r }
        } else {
            r
        },
        None => r,
    }
}

pub open spec fn is_flag(name: Seq<char>) -> bool {
    name == "new"@ || name == "live"@ || name == "premiere"@
}

/// An opening tag.
pub open spec fn on_start(r: ReaderV, name: Seq<char>, attrs: Seq<AttrV>) -> ReaderV {
    let r0 = ReaderV { text: Seq::empty(), ..r };
    if name == "channel"@ {
        ReaderV {
            channel: Some(
                ChannelV {
                    id: or_empty(last_value(attrs, "id"@)),
                    display_names: Seq::empty(),
                    icon: None,
                },
            ),
            ..r0
        }
    } else if name == "programme"@ {
        ReaderV { draft: Some(new_draft(attrs)), ..r0 }
    } else if name == "credits"@ {
        ReaderV { in_credits: true, ..r0 }
    } else if name == "rating"@ {
        ReaderV { scope: RatingScope::Rating, ..r0 }
    } else if name == "star-rating"@ {
        ReaderV { scope: RatingScope::Star, ..r0 }
    } else if name == "episode-num"@ {
        ReaderV { episode_system: or_empty(last_value(attrs, "system"@)), ..r0 }
    } else if name == "icon"@ {
        with_icon(r0, attrs)
    } else {
        r0
    }
}

/// A self-closing tag.
pub open spec fn on_empty(r: ReaderV, name: Seq<char>, attrs: Seq<AttrV>) -> ReaderV {
    if is_flag(name) {
        with_flag(r, name)
    } else if name == "icon"@ {
        with_icon(r, attrs)
    } else {
        r
    }
}

/// The roles a credit can name.
pub open spec fn credit_role(name: Seq<char>) -> bool {
    name == "director"@ || name == "actor"@ || name == "writer"@ || name == "adapter"@ || name
        == "producer"@ || name == "composer"@ || name == "editor"@ || name == "presenter"@
        || name == "commentator"@ || name == "guest"@
}

/// An `xmltv_ns` field (`0`, `1/3`): its first `/`-piece as a zero-based number.
pub open spec fn ns_field(part: Seq<char>) -> Option<int> {
    parse_unsigned(trim(split_on(part, '/')[0]), 65535)
}

/// One-based from zero-based, wrapping at the top of the range.
pub open spec fn one_based(n: int) -> u16 {
    if n < 65535 {
        (n + 1) as u16
    } else {
        0
    }
}

/// The season and episode an `<episode-num>` gives: `xmltv_ns` counts from zero
/// (`0.1.0/1` is season 1, episode 2); any other system is read as `S01E02` or `1x02`.
pub open spec fn with_episode(d: DraftV, system: Seq<char>, value: Seq<char>) -> DraftV {
    if system == "xmltv_ns"@ {
        let parts = split_on(value, '.');
        let d1 = match ns_field(parts[0]) {
            Some(n) => DraftV { season: Some(one_based(n)), ..d },
            None => d,
        };
        if parts.len() >= 2 {
            match ns_field(parts[1]) {
                Some(n) => DraftV { episode: Some(one_based(n)), ..d1 },
                None => d1,
            }
        } else {
            d1
        }
    } else {
        match spec_episode_marker(value) {
            Some(m) => DraftV { season: Some(m.season), episode: Some(m.episode), ..d },
            None => d,
        }
    }
}

/// A closing tag that completes a field of the element being read; `value` is the text
/// read since the last tag.
pub open spec fn on_field_end(r: ReaderV, name: Seq<char>, value: Seq<char>) -> ReaderV {
    if name == "credits"@ {
        ReaderV { in_credits: false, ..r }
    } else if name == "display-name"@ {
        match r.channel {
            Some(c) => if value.len() > 0 {
                ReaderV {
                    channel: Some(ChannelV { display_names: c.display_names.push(value), ..c }),
                    ..r
                }
            } else {
                r
            },
            None => r,
        }
    } else if name == "rating"@ || name == "star-rating"@ {
        ReaderV { scope: RatingScope::Neither, ..r }
    } else if is_flag(name) {
        with_flag(r, name)
    } else {
        match r.draft {
            Some(d) => if name == "title"@ {
                ReaderV { draft: Some(if d.title.len() == 0 { DraftV { title: value, ..d } } else { d }), ..r }
            } else if name == "sub-title"@ {
                ReaderV { draft: Some(DraftV { sub_title: keep_or(d.sub_title, value), ..d }), ..r }
            } else if name == "desc"@ {
                ReaderV {
                    draft: Some(DraftV { description: keep_or(d.description, value), ..d }),
                    ..r
                }
            } else if name == "category"@ {
                if value.len() > 0 && !d.categories.contains(value) {
                    ReaderV { draft: Some(DraftV { categories: d.categories.push(value), ..d }), ..r }
                } else {
                    r
                }
            } else if name == "episode-num"@ {
                ReaderV { draft: Some(with_episode(d, r.episode_system, value)), ..r }
            } else if name == "value"@ {
                match r.scope {
                    RatingScope::Rating => ReaderV {
                        draft: Some(DraftV { rating: keep_or(d.rating, value), ..d }),
                        ..r
                    },
                    RatingScope::Star => ReaderV {
                        draft: Some(DraftV { star_rating: Some(value), ..d }),
                        ..r
                    },
                    RatingScope::Neither => r,
                }
            } else if r.in_credits && credit_role(name) && value.len() > 0 {
                ReaderV { draft: Some(DraftV { credits: d.credits.push((name, value)), ..d }), ..r }
            } else {
                r
            },
            None => r,
        }
    }
}

/// The programme a completed draft gives: it needs a start, a channel and a title; a
/// missing stop means thirty minutes, and one that is not after the start is refused.
pub open spec fn finish(d: DraftV) -> Option<DraftV> {
    match d.start {
        None => None,
        Some(start) => if d.channel_id.len() == 0 || d.title.len() == 0 {
            None
        } else {
            let stop: int = match d.stop {
                Some(s) => s as int,
                None => start + 1800,
            };
            if stop <= start {
                None
            } else {
                Some(DraftV { stop: Some(stop as i64), ..d })
            }
        },
    }
}

pub open spec fn count_one(n: usize) -> usize {
    (n + 1) as usize
}

/// A closing tag: a finished channel or programme is handed back and counted, one that
/// cannot be used is counted as skipped; any other tag completes a field.
pub open spec fn on_end(r: ReaderV, name: Seq<char>) -> (ReaderV, Option<ItemV>) {
    let value = r.text;
    let r0 = ReaderV { text: Seq::empty(), ..r };
    if name == "channel"@ {
        match r.channel {
            Some(c) => if c.id.len() > 0 {
                (
                    ReaderV {
                        channel: None,
                        stats: XmltvStats { channels: count_one(r.stats.channels), ..r.stats },
                        ..r0
                    },
                    Some(ItemV::Channel(c)),
                )
            } else {
                (
                    ReaderV {
                        channel: None,
                        stats: XmltvStats { skipped: count_one(r.stats.skipped), ..r.stats },
                        ..r0
                    },
                    None,
                )
            },
            None => (r0, None),
        }
    } else if name == "programme"@ {
        match r.draft {
            Some(d) => match finish(d) {
                Some(p) => (
                    ReaderV {
                        draft: None,
                        stats: XmltvStats { programmes: count_one(r.stats.programmes), ..r.stats },
                        ..r0
                    },
                    Some(ItemV::Programme(p)),
                ),
                None => (
                    ReaderV {
                        draft: None,
                        stats: XmltvStats { skipped: count_one(r.stats.skipped), ..r.stats },
                        ..r0
                    },
                    None,
                ),
            },
            None => (r0, None),
        }
    } else {
        (on_field_end(r0, name, value), None)
    }
}

pub enum EventV {
    Start(Seq<char>, Seq<AttrV>),
    Empty(Seq<char>, Seq<AttrV>),
    Text(Seq<char>),
    End(Seq<char>),
    Other,
}

pub open spec fn event_view(e: XmlEvent) -> EventV {
    match e {
        XmlEvent::Start(n, a) => EventV::Start(n@, attrs_view(a@)),
        XmlEvent::Empty(n, a) => EventV::Empty(n@, attrs_view(a@)),
        XmlEvent::Text(t) => EventV::Text(t@),
        XmlEvent::End(n) => EventV::End(n@),
        XmlEvent::Other => EventV::Other,
    }
}

/// What one event does to the reader, and what it completes.
pub open spec fn reader_step(r: ReaderV, e: EventV) -> (ReaderV, Option<ItemV>) {
    match e {
        EventV::Start(n, a) => (on_start(r, n, a), None),
        EventV::Empty(n, a) => (on_empty(r, n, a), None),
        EventV::Text(t) => (ReaderV { text: r.text + t, ..r }, None),
        EventV::End(n) => on_end(r, n),
        EventV::Other => (r, None),
    }
}

/// A programme being read.
struct Draft {
    channel_id: String,
    start: Option<i64>,
    stop: Option<i64>,
    title: String,
    sub_title: Option<String>,
    description: Option<String>,
    categories: Vec<String>,
    season: Option<u16>,
    episode: Option<u16>,
    icon: Option<String>,
    rating: Option<String>,
    star_rating: Option<String>,
    is_new: bool,
    is_live: bool,
    is_premiere: bool,
    credits: Vec<Credit>,
}

spec fn draft_view(d: Draft) -> DraftV {
    DraftV {
        channel_id: d.channel_id@,
        start: d.start,
        stop: d.stop,
        title: d.title@,
        sub_title: opt_view(d.sub_title),
        description: opt_view(d.description),
        categories: strings_view(d.categories@),
        season: d.season,
        episode: d.episode,
        icon: opt_view(d.icon),
        rating: opt_view(d.rating),
        star_rating: opt_view(d.star_rating),
        is_new: d.is_new,
        is_live: d.is_live,
        is_premiere: d.is_premiere,
        credits: credits_view(d.credits@),
    }
}

spec fn draft_option_view(d: Option<Draft>) -> Option<DraftV> {
    match d {
        Some(x) => Some(draft_view(x)),
        None => None,
    }
}

spec fn channel_option_view(c: Option<EpgChannel>) -> Option<ChannelV> {
    match c {
        Some(x) => Some(channel_view(x)),
        None => None,
    }
}

/// Reads an XMLTV document one event at a time, handing back each channel and
/// programme as its closing tag arrives.
pub struct GuideReader {
    stats: XmltvStats,
    channel: Option<EpgChannel>,
    draft: Option<Draft>,
    in_credits: bool,
    text: Vec<char>,
    scope: RatingScope,
    episode_system: Vec<char>,
}

impl View for GuideReader {
    type V = ReaderV;

    closed spec fn view(&self) -> ReaderV {
        ReaderV {
            stats: self.stats,
            channel: channel_option_view(self.channel),
            draft: draft_option_view(self.draft),
            in_credits: self.in_credits,
            text: self.text@,
            scope: self.scope,
            episode_system: self.episode_system@,
        }
    }
}

/// A start time inside the range the timestamp parser produces.
pub open spec fn plausible_time(t: i64) -> bool {
    -500_000_000_000 <= t <= 500_000_000_000
}

/// A programme being read starts, if at all, at a time the timestamp parser produces.
pub open spec fn reader_ok(r: ReaderV) -> bool {
    r.draft matches Some(d) ==> (d.start matches Some(t) ==> plausible_time(t))
}

/// Room left in every count for one more.
pub open spec fn has_room(r: ReaderV) -> bool {
    r.stats.channels < usize::MAX && r.stats.programmes < usize::MAX && r.stats.skipped
        < usize::MAX
}

pub open spec fn fresh_reader() -> ReaderV {
    ReaderV {
        stats: XmltvStats { channels: 0, programmes: 0, skipped: 0 },
        channel: None,
        draft: None,
        in_credits: false,
        text: Seq::empty(),
        scope: RatingScope::Neither,
        episode_system: Seq::empty(),
    }
}

fn last_attr(attrs: &Vec<Option<Attribute>>, key: &str) -> (r: Option<String>)
    ensures
        opt_view(r) == last_value(attrs_view(attrs@), key@),
{
    let ghost all = attrs_view(attrs@);
    let mut r: Option<String> = None;
    let mut i: usize = 0;
    while i < attrs.len()
        invariant
            i <= attrs.len(),
            all == attrs_view(attrs@),
            opt_view(r) == last_value(all.take(i as int), key@),
        decreases attrs.len() - i,
    {
        assert(all.take(i + 1).drop_last() =~= all.take(i as int));
        assert(all.take(i + 1).last() == attr_view(attrs@[i as int]));
        match &attrs[i] {
            Some(a) => {
                let kv = chars_of(a.key.as_str());
                if str_eq(&kv, key) {
                    r = match &a.value {
                        Some(v) => Some(v.clone()),
                        None => Some(String::new()),
                    };
                }
            },
            None => {},
        }
        i += 1;
    }
    assert(all.take(all.len() as int) =~= all);
    r
}

fn first_attr(attrs: &Vec<Option<Attribute>>, key: &str) -> (r: Option<Option<String>>)
    ensures
        match r {
            Some(v) => first_value(attrs_view(attrs@), key@) == Some(opt_view(v)),
            None => first_value(attrs_view(attrs@), key@) is None,
        },
{
    let ghost all = attrs_view(attrs@);
    let mut i: usize = 0;
    while i < attrs.len()
        invariant
            i <= attrs.len(),
            all == attrs_view(attrs@),
            first_value(all.take(i as int), key@) is None,
        decreases attrs.len() - i,
    {
        assert(all.take(i + 1).drop_last() =~= all.take(i as int));
        assert(all.take(i + 1).last() == attr_view(attrs@[i as int]));
        match &attrs[i] {
            Some(a) => {
                let kv = chars_of(a.key.as_str());
                if str_eq(&kv, key) {
                    proof {
                        lemma_first_value_prefix(all, i as int + 1, key@);
                    }
                    return Some(a.value.clone());
                }
            },
            None => {},
        }
        i += 1;
    }
    assert(all.take(all.len() as int) =~= all);
    None
}

proof fn lemma_first_value_prefix(all: Seq<AttrV>, n: int, key: Seq<char>)
    requires
        0 <= n <= all.len(),
        first_value(all.take(n), key) is Some,
    ensures
        first_value(all, key) == first_value(all.take(n), key),
    decreases all.len() - n,
{
    if n < all.len() {
        assert(all.take(n + 1).drop_last() =~= all.take(n));
        lemma_first_value_prefix(all, n + 1, key);
    } else {
        assert(all.take(n) =~= all);
    }
}

fn contains_string(v: &Vec<String>, s: &Vec<char>) -> (r: bool)
    ensures
        r == strings_view(v@).contains(s@),
{
    let ghost all = strings_view(v@);
    let mut i: usize = 0;
    while i < v.len()
        invariant
            i <= v.len(),
            all == strings_view(v@),
            forall|j: int| 0 <= j < i ==> all[j] != s@,
        decreases v.len() - i,
    {
        let c = chars_of(v[i].as_str());
        if seq_eq(&c, s) {
            assert(all[i as int] == s@);
            return true;
        }
        i += 1;
    }
    false
}

fn ns_number(v: &Vec<char>, lo: usize, hi: usize) -> (r: Option<u16>)
    requires
        lo <= hi <= v.len(),
    ensures
        match r {
            Some(n) => ns_field(v@.subrange(lo as int, hi as int)) matches Some(k) && n == one_based(k),
            None => ns_field(v@.subrange(lo as int, hi as int)) is None,
        },
{
    let pieces = split_bounds(v, lo, hi, '/');
    proof {
        lemma_split_on_nonempty(v@.subrange(lo as int, hi as int), '/');
    }
    let (a, b) = pieces[0];
    let (c, d) = trim_bounds(v, a, b);
    match parse_unsigned_in(v, c, d, 65535) {
        Some(n) => {
            if n < 65535 {
                Some((n + 1) as u16)
            } else {
                Some(0)
            }
        },
        None => None,
    }
}

fn apply_episode(d: &mut Draft, system: &Vec<char>, value: &Vec<char>)
    ensures
        draft_view(*final(d)) == with_episode(draft_view(*old(d)), system@, value@),
{
    if str_eq(system, "xmltv_ns") {
        let parts = split_bounds(value, 0, value.len(), '.');
        assert(value@.subrange(0, value@.len() as int) =~= value@);
        proof {
            lemma_split_on_nonempty(value@, '.');
        }
        let (a, b) = parts[0];
        match ns_number(value, a, b) {
            Some(n) => d.season = Some(n),
            None => {},
        }
        if parts.len() >= 2 {
            let (e, f) = parts[1];
            match ns_number(value, e, f) {
                Some(n) => d.episode = Some(n),
                None => {},
            }
        }
        assert(draft_view(*d) =~= with_episode(draft_view(*old(d)), system@, value@));
    } else {
        let text = string_of(value.as_slice());
        match parse_episode_marker(text.as_str()) {
            Some(m) => {
                d.season = Some(m.season);
                d.episode = Some(m.episode);
            },
            None => {},
        }
        assert(draft_view(*d) =~= with_episode(draft_view(*old(d)), system@, value@));
    }
}

impl GuideReader {
    /// The reader is consistent: a programme being read starts at a time the timestamp
    /// parser can produce.
    pub open spec fn wf(&self) -> bool {
        reader_ok(self@)
    }

    pub fn new() -> (r: Self)
        ensures
            r@ == fresh_reader(),
            r.wf(),
    {
        let r = GuideReader {
            stats: XmltvStats { channels: 0, programmes: 0, skipped: 0 },
            channel: None,
            draft: None,
            in_credits: false,
            text: Vec::new(),
            scope: RatingScope::Neither,
            episode_system: Vec::new(),
        };
        assert(r@ =~= fresh_reader());
        r
    }

    /// The counts so far.
    pub fn stats(&self) -> (r: XmltvStats)
        ensures
            r == self@.stats,
    {
        self.stats
    }

    /// Whether every count can take one more; `step` needs it.
    pub fn has_room(&self) -> (r: bool)
        ensures
            r == has_room(self@),
    {
        self.stats.channels < usize::MAX && self.stats.programmes < usize::MAX
            && self.stats.skipped < usize::MAX
    }

    fn add_icon(&mut self, attrs: &Vec<Option<Attribute>>)
        requires
            old(self).wf(),
        ensures
            final(self).wf(),
            final(self)@ == with_icon(old(self)@, attrs_view(attrs@)),
    {
        let src = first_attr(attrs, "src");
        match src {
            Some(Some(v)) => {
                if self.draft.is_some() {
                    let mut d = self.draft.take().unwrap();
                    if d.icon.is_none() {
                        d.icon = Some(v);
                    }
                    self.draft = Some(d);
                } else if self.channel.is_some() {
                    let mut c = self.channel.take().unwrap();
                    if c.icon.is_none() {
                        c.icon = Some(v);
                    }
                    self.channel = Some(c);
                }
            },
            _ => {},
        }
        assert(self@ =~= with_icon(old(self)@, attrs_view(attrs@)));
    }

    fn set_flag(&mut self, name: &Vec<char>)
        requires
            old(self).wf(),
        ensures
            final(self).wf(),
            final(self)@ == with_flag(old(self)@, name@),
    {
        if self.draft.is_some() {
            let mut d = self.draft.take().unwrap();
            if str_eq(name, "new") {
                d.is_new = true;
            } else if str_eq(name, "live") {
                d.is_live = true;
            } else if str_eq(name, "premiere") {
                d.is_premiere = true;
            }
            self.draft = Some(d);
        }
        assert(self@ =~= with_flag(old(self)@, name@));
    }

    fn on_start_tag(&mut self, name: &Vec<char>, attrs: &Vec<Option<Attribute>>)
        requires
            old(self).wf(),
        ensures
            final(self).wf(),
            final(self)@ == on_start(old(self)@, name@, attrs_view(attrs@)),
    {
        self.text = Vec::new();
        if str_eq(name, "channel") {
            let id = match last_attr(attrs, "id") {
                Some(v) => v,
                None => String::new(),
            };
            let names: Vec<String> = Vec::new();
            assert(strings_view(names@) =~= Seq::<Seq<char>>::empty());
            self.channel = Some(EpgChannel { id, display_names: names, icon: None });
        } else if str_eq(name, "programme") {
            let channel_id = match last_attr(attrs, "channel") {
                Some(v) => v,
                None => String::new(),
            };
            let start = match last_attr(attrs, "start") {
                Some(v) => parse_time(v.as_str()),
                None => None,
            };
            let stop = match last_attr(attrs, "stop") {
                Some(v) => parse_time(v.as_str()),
                None => None,
            };
            let categories: Vec<String> = Vec::new();
            let credits: Vec<Credit> = Vec::new();
            assert(strings_view(categories@) =~= Seq::<Seq<char>>::empty());
            assert(credits_view(credits@) =~= Seq::<(Seq<char>, Seq<char>)>::empty());
            self.draft = Some(
                Draft {
                    channel_id,
                    start,
                    stop,
                    title: String::new(),
                    sub_title: None,
                    description: None,
                    categories,
                    season: None,
                    episode: None,
                    icon: None,
                    rating: None,
                    star_rating: None,
                    is_new: false,
                    is_live: false,
                    is_premiere: false,
                    credits,
                },
            );
        } else if str_eq(name, "credits") {
            self.in_credits = true;
        } else if str_eq(name, "rating") {
            self.scope = RatingScope::Rating;
        } else if str_eq(name, "star-rating") {
            self.scope = RatingScope::Star;
        } else if str_eq(name, "episode-num") {
            self.episode_system = match last_attr(attrs, "system") {
                Some(v) => chars_of(v.as_str()),
                None => Vec::new(),
            };
        } else if str_eq(name, "icon") {
            let ghost mid = self@;
            assert(mid =~= ReaderV { text: Seq::empty(), ..old(self)@ });
            self.add_icon(attrs);
        }
        assert(self@ =~= on_start(old(self)@, name@, attrs_view(attrs@)));
    }
}

fn is_flag_name(name: &Vec<char>) -> (r: bool)
    ensures
        r == is_flag(name@),
{
    str_eq(name, "new") || str_eq(name, "live") || str_eq(name, "premiere")
}

fn is_credit_role(name: &Vec<char>) -> (r: bool)
    ensures
        r == credit_role(name@),
{
    str_eq(name, "director") || str_eq(name, "actor") || str_eq(name, "writer") || str_eq(
        name,
        "adapter",
    ) || str_eq(name, "producer") || str_eq(name, "composer") || str_eq(name, "editor")
        || str_eq(name, "presenter") || str_eq(name, "commentator") || str_eq(name, "guest")
}

fn push_string(v: &mut Vec<String>, s: &Vec<char>)
    ensures
        strings_view(final(v)@) == strings_view(old(v)@).push(s@),
{
    let t = string_of(s.as_slice());
    v.push(t);
    assert(strings_view(v@) =~= strings_view(old(v)@).push(s@));
}

fn finish_draft(d: Draft) -> (r: Option<(Programme, Option<String>)>)
    requires
        d.start matches Some(t) ==> plausible_time(t),
    ensures
        match r {
            Some(p) => finish(draft_view(d)) == Some(programme_view(p.0, p.1)),
            None => finish(draft_view(d)) is None,
        },
{
    let start = match d.start {
        Some(t) => t,
        None => return None,
    };
    if chars_of(d.channel_id.as_str()).len() == 0 || chars_of(d.title.as_str()).len() == 0 {
        return None;
    }
    let stop = match d.stop {
        Some(s) => s,
        None => start + 1800,
    };
    if stop <= start {
        return None;
    }
    let p = Programme {
        channel_id: d.channel_id,
        start,
        stop,
        title: d.title,
        sub_title: d.sub_title,
        description: d.description,
        categories: d.categories,
        season: d.season,
        episode: d.episode,
        icon: d.icon,
        rating: d.rating,
        is_new: d.is_new,
        is_live: d.is_live,
        is_premiere: d.is_premiere,
        credits: d.credits,
    };
    assert(programme_view(p, d.star_rating) =~= DraftV { stop: Some(stop), ..draft_view(d) });
    Some((p, d.star_rating))
}

impl GuideReader {
    fn on_field_end_tag(&mut self, name: &Vec<char>, value: Vec<char>)
        requires
            old(self).wf(),
        ensures
            final(self).wf(),
            final(self)@ == on_field_end(old(self)@, name@, value@),
    {
        if str_eq(name, "credits") {
            self.in_credits = false;
        } else if str_eq(name, "display-name") {
            if self.channel.is_some() && value.len() > 0 {
                let mut c = self.channel.take().unwrap();
                push_string(&mut c.display_names, &value);
                self.channel = Some(c);
            }
        } else if str_eq(name, "rating") || str_eq(name, "star-rating") {
            self.scope = RatingScope::Neither;
        } else if is_flag_name(name) {
            self.set_flag(name);
            return;
        } else if self.draft.is_some() {
            let mut d = self.draft.take().unwrap();
            if str_eq(name, "title") {
                if chars_of(d.title.as_str()).len() == 0 {
                    d.title = string_of(value.as_slice());
                }
            } else if str_eq(name, "sub-title") {
                if d.sub_title.is_none() {
                    d.sub_title = Some(string_of(value.as_slice()));
                }
            } else if str_eq(name, "desc") {
                if d.description.is_none() {
                    d.description = Some(string_of(value.as_slice()));
                }
            } else if str_eq(name, "category") {
                if value.len() > 0 && !contains_string(&d.categories, &value) {
                    push_string(&mut d.categories, &value);
                }
            } else if str_eq(name, "episode-num") {
                apply_episode(&mut d, &self.episode_system, &value);
            } else if str_eq(name, "value") {
                match self.scope {
                    RatingScope::Rating => {
                        if d.rating.is_none() {
                            d.rating = Some(string_of(value.as_slice()));
                        }
                    },
                    RatingScope::Star => {
                        d.star_rating = Some(string_of(value.as_slice()));
                    },
                    RatingScope::Neither => {},
                }
            } else if self.in_credits && is_credit_role(name) && value.len() > 0 {
                let credit = Credit {
                    role: string_of(name.as_slice()),
                    name: string_of(value.as_slice()),
                };
                let ghost before = credits_view(d.credits@);
                d.credits.push(credit);
                assert(credits_view(d.credits@) =~= before.push((name@, value@)));
            }
            self.draft = Some(d);
        }
        assert(self@ =~= on_field_end(old(self)@, name@, value@));
    }

    fn on_end_tag(&mut self, name: &Vec<char>) -> (r: Option<GuideItem>)
        requires
            old(self).wf(),
            has_room(old(self)@),
        ensures
            final(self).wf(),
            (final(self)@, item_view(r)) == on_end(old(self)@, name@),
    {
        let mut value: Vec<char> = Vec::new();
        std::mem::swap(&mut value, &mut self.text);
        if str_eq(name, "channel") {
            match self.channel.take() {
                Some(c) => {
                    if chars_of(c.id.as_str()).len() > 0 {
                        self.stats.channels = self.stats.channels + 1;
                        assert(self@ =~= on_end(old(self)@, name@).0);
                        Some(GuideItem::Channel(c))
                    } else {
                        self.stats.skipped = self.stats.skipped + 1;
                        assert(self@ =~= on_end(old(self)@, name@).0);
                        None
                    }
                },
                None => {
                    assert(self@ =~= on_end(old(self)@, name@).0);
                    None
                },
            }
        } else if str_eq(name, "programme") {
            match self.draft.take() {
                Some(d) => match finish_draft(d) {
                    Some((p, star)) => {
                        self.stats.programmes = self.stats.programmes + 1;
                        assert(self@ =~= on_end(old(self)@, name@).0);
                        Some(GuideItem::Programme(p, star))
                    },
                    None => {
                        self.stats.skipped = self.stats.skipped + 1;
                        assert(self@ =~= on_end(old(self)@, name@).0);
                        None
                    },
                },
                None => {
                    assert(self@ =~= on_end(old(self)@, name@).0);
                    None
                },
            }
        } else {
            assert(self@ =~= ReaderV { text: Seq::empty(), ..old(self)@ });
            self.on_field_end_tag(name, value);
            None
        }
    }

    /// Take the next event of the document: what it completes, if anything. The counts
    /// must have room for one more (`has_room`).
    pub fn step(&mut self, event: XmlEvent) -> (r: Option<GuideItem>)
        requires
            old(self).wf(),
            has_room(old(self)@),
        ensures
            final(self).wf(),
            (final(self)@, item_view(r)) == reader_step(old(self)@, event_view(event)),
    {
        match event {
            XmlEvent::Start(n, a) => {
                let nv = chars_of(n.as_str());
                self.on_start_tag(&nv, &a);
                None
            },
            XmlEvent::Empty(n, a) => {
                let nv = chars_of(n.as_str());
                if is_flag_name(&nv) {
                    self.set_flag(&nv);
                } else if str_eq(&nv, "icon") {
                    self.add_icon(&a);
                }
                None
            },
            XmlEvent::Text(t) => {
                append_str(&mut self.text, t.as_str());
                assert(self@ =~= reader_step(old(self)@, event_view(event)).0);
                None
            },
            XmlEvent::End(n) => {
                let nv = chars_of(n.as_str());
                self.on_end_tag(&nv)
            },
            XmlEvent::Other => None,
        }
    }
}

pub open spec fn emitted(item: Option<ItemV>) -> int {
    if item is Some {
        1
    } else {
        0
    }
}

/// Every channel and programme handed back is counted, and nothing else is: after any
/// event the channel and programme counts together have grown by exactly the number of
/// items handed back, and the skipped count by at most one.
pub proof fn lemma_counts_match_items(r: ReaderV, e: EventV)
    requires
        has_room(r),
    ensures
        ({
            let (r2, item) = reader_step(r, e);
            &&& r2.stats.channels + r2.stats.programmes == r.stats.channels + r.stats.programmes
                + emitted(item)
            &&& r2.stats.skipped == r.stats.skipped || r2.stats.skipped == r.stats.skipped + 1
            &&& item matches Some(ItemV::Channel(_)) ==> r2.stats.channels == r.stats.channels + 1
            &&& item matches Some(ItemV::Programme(_)) ==> r2.stats.programmes == r.stats.programmes
                + 1
        }),
{
    match e {
        EventV::Start(n, a) => {
            assert(with_icon(ReaderV { text: Seq::empty(), ..r }, a).stats == r.stats);
        },
        EventV::Empty(n, a) => {
            assert(with_icon(r, a).stats == r.stats);
            assert(with_flag(r, n).stats == r.stats);
        },
        EventV::End(n) => {
            let r0 = ReaderV { text: Seq::empty(), ..r };
            assert(with_flag(r0, n).stats == r.stats);
            assert(on_field_end(r0, n, r.text).stats == r.stats);
        },
        _ => {},
    }
}

/// A closing `</programme>` for a programme being read always settles it one way or the
/// other: it is handed back and counted, or counted as skipped.
pub proof fn lemma_programme_is_settled(r: ReaderV)
    requires
        has_room(r),
        r.draft is Some,
    ensures
        ({
            let (r2, item) = reader_step(r, EventV::End("programme"@));
            &&& r2.draft is None
            &&& item is Some ==> r2.stats.programmes == r.stats.programmes + 1
                && r2.stats.skipped == r.stats.skipped
            &&& item is None ==> r2.stats.skipped == r.stats.skipped + 1
                && r2.stats.programmes == r.stats.programmes
        }),
{
    reveal_strlit("channel");
    reveal_strlit("programme");
    assert("programme"@ != "channel"@) by {
        assert("programme"@[0] != "channel"@[0]);
    }
    let d = r.draft->Some_0;
    if finish(d) is Some {
        assert(on_end(r, "programme"@).1 is Some);
    } else {
        assert(on_end(r, "programme"@).1 is None);
    }
}

/// A programme with a channel, a title, and a stop after its start.
pub open spec fn programme_is_usable(p: DraftV) -> bool {
    &&& p.channel_id.len() > 0
    &&& p.title.len() > 0
    &&& p.start matches Some(s)
    &&& p.stop matches Some(t)
    &&& s < t
}

/// What is handed back is usable: a channel has an id, and a programme has a channel,
/// a title, and a stop after its start.
pub proof fn lemma_items_are_usable(r: ReaderV, e: EventV)
    requires
        has_room(r),
        reader_ok(r),
    ensures
        ({
            let item = reader_step(r, e).1;
            &&& item matches Some(ItemV::Channel(c)) ==> c.id.len() > 0
            &&& item matches Some(ItemV::Programme(p)) ==> programme_is_usable(p)
        }),
{
}


/// A whole document read event by event from `r`: the reader at the end, and every
/// channel and programme handed back, in the order their closing tags came.
pub open spec fn read_all(r: ReaderV, es: Seq<EventV>) -> (ReaderV, Seq<ItemV>)
    decreases es.len(),
{
    if es.len() == 0 {
        (r, Seq::empty())
    } else {
        let (r1, items) = read_all(r, es.drop_last());
        let (r2, item) = reader_step(r1, es.last());
        (
            r2,
            match item {
                Some(x) => items.push(x),
                None => items,
            },
        )
    }
}

/// A closing tag that rejects what it closes: a channel without an id, or a programme
/// that lacks a start, a channel or a title, or whose stop is not after its start.
pub open spec fn is_rejection(r: ReaderV, e: EventV) -> bool {
    match e {
        EventV::End(n) => (n == "channel"@ && r.channel is Some && r.channel->0.id.len() == 0) || (
        n == "programme"@ && r.draft is Some && finish(r.draft->0) is None),
        _ => false,
    }
}

/// How many elements a document rejects, read from `r`.
pub open spec fn rejections(r: ReaderV, es: Seq<EventV>) -> nat
    decreases es.len(),
{
    if es.len() == 0 {
        0
    } else {
        rejections(r, es.drop_last()) + if is_rejection(read_all(r, es.drop_last()).0, es.last()) {
            1nat
        } else {
            0nat
        }
    }
}

pub open spec fn channel_count(items: Seq<ItemV>) -> nat
    decreases items.len(),
{
    if items.len() == 0 {
        0
    } else {
        channel_count(items.drop_last()) + if items.last() is Channel {
            1nat
        } else {
            0nat
        }
    }
}

pub open spec fn programme_count(items: Seq<ItemV>) -> nat
    decreases items.len(),
{
    if items.len() == 0 {
        0
    } else {
        programme_count(items.drop_last()) + if items.last() is Programme {
            1nat
        } else {
            0nat
        }
    }
}

proof fn lemma_step_counts(r: ReaderV, e: EventV)
    requires
        has_room(r),
    ensures
        ({
            let (r2, item) = reader_step(r, e);
            &&& r2.stats.channels == r.stats.channels + if item matches Some(ItemV::Channel(_)) {
                1int
            } else {
                0int
            }
            &&& r2.stats.programmes == r.stats.programmes + if item matches Some(
                ItemV::Programme(_),
            ) {
                1int
            } else {
                0int
            }
            &&& r2.stats.skipped == r.stats.skipped + if is_rejection(r, e) {
                1int
            } else {
                0int
            }
        }),
{
    lemma_counts_match_items(r, e);
    reveal_strlit("channel");
    reveal_strlit("programme");
    assert("programme"@ != "channel"@) by {
        assert("programme"@[0] != "channel"@[0]);
    }
    match e {
        EventV::End(n) => {
            let r0 = ReaderV { text: Seq::empty(), ..r };
            assert(with_flag(r0, n).stats == r.stats);
            assert(on_field_end(r0, n, r.text).stats == r.stats);
        },
        _ => {},
    }
}

/// Reading a whole document hands back every channel and programme it completes, in
/// document order, and counts them: the channel and programme counts grow by exactly
/// the channels and programmes handed back, and the skipped count by exactly the
/// elements the document rejects.
pub proof fn lemma_reading_a_document(r: ReaderV, es: Seq<EventV>)
    requires
        r.stats.channels + es.len() < usize::MAX,
        r.stats.programmes + es.len() < usize::MAX,
        r.stats.skipped + es.len() < usize::MAX,
    ensures
        read_all(r, es).0.stats.channels == r.stats.channels + channel_count(read_all(r, es).1),
        read_all(r, es).0.stats.programmes == r.stats.programmes + programme_count(
            read_all(r, es).1,
        ),
        read_all(r, es).0.stats.skipped == r.stats.skipped + rejections(r, es),
        read_all(r, es).1.len() <= es.len(),
        channel_count(read_all(r, es).1) + programme_count(read_all(r, es).1) == read_all(
            r,
            es,
        ).1.len(),
        rejections(r, es) <= es.len(),
    decreases es.len(),
{
    if es.len() > 0 {
        let d = es.drop_last();
        lemma_reading_a_document(r, d);
        let (r1, items) = read_all(r, d);
        lemma_step_counts(r1, es.last());
        let (r2, item) = reader_step(r1, es.last());
        match item {
            Some(x) => {
                let all = items.push(x);
                assert(all.drop_last() =~= items);
                assert(all.last() == x);
            },
            None => {},
        }
    }
}


/// The number two ASCII digits spell.
pub open spec fn two_digits(a: char, b: char) -> int {
    crate::text::digit_value(a) * 10 + crate::text::digit_value(b)
}

proof fn lemma_trim_unchanged(s: Seq<char>)
    requires
        s.len() > 0,
        !white_space(s[0]),
        !white_space(s.last()),
    ensures
        trim(s) == s,
{
    assert(trim_start(s) == s);
    assert(trim_end(s) == s);
}

/// Fourteen digits followed by `tail`, which starts with a space: the digits are the run
/// a timestamp is read from, and what follows is the trimmed tail.
proof fn lemma_stamp_then_tail(d: Seq<char>, tail: Seq<char>)
    requires
        d.len() == 14,
        all_digits(d),
        tail.len() == 0 || (tail[0] == ' ' && tail.len() >= 2 && !white_space(tail[1])
            && !white_space(tail.last())),
    ensures
        trim(d + tail) == d + tail,
        digit_prefix_len(d + tail) == 14,
        (d + tail).take(14) == d,
        trim((d + tail).skip(14)) == if tail.len() == 0 {
            tail
        } else {
            tail.drop_first()
        },
{
    let s = d + tail;
    assert(s[0] == d[0] && is_ascii_digit(d[0]));
    assert(s.last() == if tail.len() == 0 { d[13] } else { tail.last() });
    assert(is_ascii_digit(d[13]));
    lemma_trim_unchanged(s);
    lemma_digit_prefix(s);
    let n = digit_prefix_len(s);
    if n < 14 {
        assert(s[n] == d[n]);
        assert(is_ascii_digit(d[n]));
    }
    if n > 14 {
        assert(s.take(n)[14] == ' ');
    }
    assert(s.take(14) =~= d);
    assert(s.skip(14) =~= tail);
    if tail.len() > 0 {
        assert(white_space(' '));
        assert(trim_start(tail) == trim_start(tail.drop_first()));
        assert(tail.drop_first()[0] == tail[1]);
        assert(tail.drop_first().last() == tail.last());
        lemma_trim_unchanged(tail.drop_first());
    } else {
        assert(trim(tail) =~= tail);
    }
}

/// The seconds since the epoch a valid fourteen-digit stamp spells lie well inside the
/// range of an `i64`.
proof fn lemma_stamp_range(d: Seq<char>)
    requires
        d.len() == 14,
        all_digits(d),
        date_seconds(d) is Some,
    ensures
        -400_000_000_000 <= date_seconds(d)->0 <= 400_000_000_000,
{
    lemma_sub_all_digits(d, 0, 4);
    lemma_digits_small(d.subrange(0, 4));
    let year = field(d, 0, 4);
    let month = field(d, 4, 6);
    let day = field(d, 6, 8);
    assert(day <= 31);
    lemma_epoch_days_bounds(year, month, day);
    let e = epoch_days(year, month, day);
    assert(-345_600_000_000 <= e * 86400 <= 345_600_000_000) by (nonlinear_arith)
        requires
            -4_000_000 <= e <= 4_000_000,
    ;
    lemma_sub_all_digits(d, 8, 10);
    lemma_sub_all_digits(d, 10, 12);
    lemma_sub_all_digits(d, 12, 14);
    lemma_digits_small(d.subrange(8, 10));
    lemma_digits_small(d.subrange(10, 12));
    lemma_digits_small(d.subrange(12, 14));
}

/// A UTC offset is applied as the guide means it: `+hhmm` is that far ahead of UTC, so
/// it is taken off; `-hhmm` is added; `+hh:mm` reads as `+hhmm`; and `+0000` changes
/// nothing.
pub proof fn lemma_utc_offset_applies(d: Seq<char>, sign: char, h1: char, h2: char, m1: char, m2: char)
    requires
        d.len() == 14,
        all_digits(d),
        spec_parse_time(d) is Some,
        sign == '+' || sign == '-',
        is_ascii_digit(h1),
        is_ascii_digit(h2),
        is_ascii_digit(m1),
        is_ascii_digit(m2),
    ensures
        ({
            let off = two_digits(h1, h2) * 3600 + two_digits(m1, m2) * 60;
            let u = spec_parse_time(d)->0;
            &&& spec_parse_time(d + seq![' ', sign, h1, h2, m1, m2]) is Some
            &&& spec_parse_time(d + seq![' ', sign, h1, h2, m1, m2])->0 == if sign == '+' {
                u - off
            } else {
                u + off
            }
            &&& spec_parse_time(d + seq![' ', sign, h1, h2, ':', m1, m2]) == spec_parse_time(
                d + seq![' ', sign, h1, h2, m1, m2],
            )
        }),
        spec_parse_time(d + seq![' ', '+', '0', '0', '0', '0']) == spec_parse_time(d),
{
    let t1 = seq![' ', sign, h1, h2, m1, m2];
    let t2 = seq![' ', sign, h1, h2, ':', m1, m2];
    let t0 = seq![' ', '+', '0', '0', '0', '0'];
    let empty = Seq::<char>::empty();
    lemma_stamp_then_tail(d, t1);
    lemma_stamp_then_tail(d, t2);
    lemma_stamp_then_tail(d, t0);
    lemma_stamp_then_tail(d, empty);
    assert(d + empty =~= d);
    let base = date_seconds(d)->0;
    lemma_stamp_range(d);
    assert(offset_adjustment(empty) == 0);
    let r1 = t1.drop_first();
    let r2 = t2.drop_first();
    reveal_with_fuel(keep_digits, 7);
    assert(r1.skip(1) =~= seq![h1, h2, m1, m2]);
    assert(r2.skip(1) =~= seq![h1, h2, ':', m1, m2]);
    let k = seq![h1, h2, m1, m2];
    assert(seq![h1, h2, m1, m2].drop_last() =~= seq![h1, h2, m1]);
    assert(seq![h1, h2, m1].drop_last() =~= seq![h1, h2]);
    assert(seq![h1, h2].drop_last() =~= seq![h1]);
    assert(seq![h1].drop_last() =~= Seq::<char>::empty());
    assert(keep_digits(seq![h1]) =~= seq![h1]);
    assert(keep_digits(seq![h1, h2]) =~= seq![h1, h2]);
    assert(keep_digits(seq![h1, h2, m1]) =~= seq![h1, h2, m1]);
    assert(keep_digits(k) =~= k);
    assert(seq![h1, h2, ':', m1, m2].drop_last() =~= seq![h1, h2, ':', m1]);
    assert(seq![h1, h2, ':', m1].drop_last() =~= seq![h1, h2, ':']);
    assert(seq![h1, h2, ':'].drop_last() =~= seq![h1, h2]);
    assert(keep_digits(seq![h1, h2, ':']) =~= seq![h1, h2]);
    assert(keep_digits(seq![h1, h2, ':', m1]) =~= seq![h1, h2, m1]);
    assert(keep_digits(seq![h1, h2, ':', m1, m2]) =~= k);
    reveal_with_fuel(digits_value, 3);
    assert(k.subrange(0, 2) =~= seq![h1, h2]);
    assert(k.subrange(2, 4) =~= seq![m1, m2]);
    assert(seq![h1, h2].drop_last() =~= seq![h1]);
    assert(seq![m1, m2].drop_last() =~= seq![m1]);
    assert(seq![m1].drop_last() =~= Seq::<char>::empty());
    assert(digits_value(seq![h1, h2]) == two_digits(h1, h2));
    assert(digits_value(seq![m1, m2]) == two_digits(m1, m2));
    assert(r1[0] == sign && r2[0] == sign);
    let off = two_digits(h1, h2) * 3600 + two_digits(m1, m2) * 60;
    assert(offset_adjustment(r1) == if sign == '+' { -off } else { off });
    assert(offset_adjustment(r2) == offset_adjustment(r1));
    assert(0 <= two_digits(h1, h2) <= 99 && 0 <= two_digits(m1, m2) <= 99);
    let z = t0.drop_first();
    assert(z.skip(1) =~= seq!['0', '0', '0', '0']);
    assert(two_digits('0', '0') == 0);
    assert(seq!['0', '0', '0', '0'].drop_last() =~= seq!['0', '0', '0']);
    assert(seq!['0', '0', '0'].drop_last() =~= seq!['0', '0']);
    assert(seq!['0', '0'].drop_last() =~= seq!['0']);
    assert(seq!['0'].drop_last() =~= Seq::<char>::empty());
    assert(keep_digits(seq!['0', '0', '0', '0']) =~= seq!['0', '0', '0', '0']);
    assert(seq!['0', '0', '0', '0'].subrange(0, 2) =~= seq!['0', '0']);
    assert(seq!['0', '0', '0', '0'].subrange(2, 4) =~= seq!['0', '0']);
    assert(digits_value(seq!['0', '0']) == 0);
    assert(offset_adjustment(z) == 0);
}

} // verus!
