//! Episode-marker detection and flat-list → show/season/episode folding.
//!
//! Providers list episodes as flat entries named like `Show Name S01E02`; this finds the
//! marker and folds the entries into show → season → episode hierarchies.

use vstd::prelude::*;
use crate::pattern::{
    captures_at, char_index, char_index_of, group_bounds, group_text, parse_unsigned,
    parse_unsigned_in, regex_captures_at,
};
use crate::text::{chars_of, opt_view, owned, slice, string_of, trim, trim_bounds};
use crate::title::{
    clean_movie_title, detect_quality, match_key, opt_seq, quality_rank, spec_clean_title,
    spec_detect_quality, spec_match_key, spec_quality_rank,
};
use crate::pattern::{byte_count, byte_len};
use crate::model::{EpisodeRef, PlaylistEntry, Season, SeriesGroup};

verus! {

broadcast use vstd::string::group_string_axioms;

#[derive(Debug, Clone, Copy, PartialEq, Eq)]
pub struct EpisodeMarker {
    pub season: u16,
    pub episode: u16,
    /// Byte range of the marker within the input, so callers can split show title from
    /// episode title.
    pub start: usize,
    pub end: usize,
}

/// `S01E02` / `s1e2` / `S01 E02` / `S01.E02`.
pub open spec fn sxxexx() -> Seq<char> {
    r"(?i)\bs(\d{1,3})[\s\._\-]?e(\d{1,4})\b"@
}

/// `Season 1 Episode 2` / `Saison 1 Episode 2` / `Temporada 1 Capitulo 2`.
pub open spec fn worded() -> Seq<char> {
    r"(?i)\b(?:season|saison|temporada|staffel)\s*(\d{1,3})\s*[\-\.,:]?\s*(?:episode|episodio|cap[ií]tulo|folge|ep)\s*(\d{1,4})\b"@
}

/// `1x02`.
pub open spec fn nxnn() -> Seq<char> {
    r"(?i)\b(\d{1,3})x(\d{1,4})\b"@
}

fn sxxexx_pattern() -> (r: &'static str)
    ensures
        r@ == sxxexx(),
{
    r"(?i)\bs(\d{1,3})[\s\._\-]?e(\d{1,4})\b"
}

fn worded_pattern() -> (r: &'static str)
    ensures
        r@ == worded(),
{
    r"(?i)\b(?:season|saison|temporada|staffel)\s*(\d{1,3})\s*[\-\.,:]?\s*(?:episode|episodio|cap[ií]tulo|folge|ep)\s*(\d{1,4})\b"
}

fn nxnn_pattern() -> (r: &'static str)
    ensures
        r@ == nxnn(),
{
    r"(?i)\b(\d{1,3})x(\d{1,4})\b"
}

/// The marker a match describes: its first group read as the season, its second as the
/// episode, each as `str::parse::<u16>` reads it; `None` when either does not parse.
pub open spec fn marker_of(name: Seq<char>, caps: Seq<(bool, usize, usize)>) -> Option<
    EpisodeMarker,
> {
    match (group_text(name, caps, 0), group_text(name, caps, 1), group_text(name, caps, 2)) {
        (Some(_), Some(s), Some(e)) => match (parse_unsigned(s, 65535), parse_unsigned(e, 65535)) {
            (Some(sv), Some(ev)) => Some(
                EpisodeMarker {
                    season: sv as u16,
                    episode: ev as u16,
                    start: caps[0].1,
                    end: caps[0].2,
                },
            ),
            _ => None,
        },
        _ => None,
    }
}

/// The marker of the first pattern, in priority order, that matches anywhere in `name`.
pub open spec fn spec_episode_marker(name: Seq<char>) -> Option<EpisodeMarker> {
    let a = regex_captures_at(sxxexx(), name, 0);
    let b = regex_captures_at(worded(), name, 0);
    let c = regex_captures_at(nxnn(), name, 0);
    if a.len() > 0 {
        marker_of(name, a)
    } else if b.len() > 0 {
        marker_of(name, b)
    } else if c.len() > 0 {
        marker_of(name, c)
    } else {
        None
    }
}

fn marker_from(name: &Vec<char>, caps: &Vec<(bool, usize, usize)>) -> (r: Option<EpisodeMarker>)
    ensures
        r == marker_of(name@, caps@),
{
    let whole = group_bounds(name, caps, 0);
    let season = group_bounds(name, caps, 1);
    let episode = group_bounds(name, caps, 2);
    match (whole, season, episode) {
        (Some(_), Some((sa, sb)), Some((ea, eb))) => {
            match (parse_unsigned_in(name, sa, sb, 65535), parse_unsigned_in(name, ea, eb, 65535)) {
                (Some(s), Some(e)) => Some(
                    EpisodeMarker {
                        season: s as u16,
                        episode: e as u16,
                        start: caps[0].1,
                        end: caps[0].2,
                    },
                ),
                _ => None,
            }
        },
        _ => None,
    }
}

/// Find an episode marker anywhere in a title. Returns the first match by pattern priority.
pub fn parse_episode_marker(name: &str) -> (r: Option<EpisodeMarker>)
    ensures
        r == spec_episode_marker(name@),
{
    let chars = chars_of(name);
    let a = captures_at(sxxexx_pattern(), name, 0);
    if a.len() > 0 {
        return marker_from(&chars, &a);
    }
    let b = captures_at(worded_pattern(), name, 0);
    if b.len() > 0 {
        return marker_from(&chars, &b);
    }
    let c = captures_at(nxnn_pattern(), name, 0);
    if c.len() > 0 {
        return marker_from(&chars, &c);
    }
    None
}

/// The punctuation `tidy` strips from the ends of a title fragment.
pub open spec fn is_tidy_punct(c: char) -> bool {
    c == '-' || c == '|' || c == ':' || c == '.' || c == '_'
}

pub open spec fn strip_punct_start(s: Seq<char>) -> Seq<char>
    decreases s.len(),
{
    if s.len() > 0 && is_tidy_punct(s[0]) {
        strip_punct_start(s.drop_first())
    } else {
        s
    }
}

pub open spec fn strip_punct_end(s: Seq<char>) -> Seq<char>
    decreases s.len(),
{
    if s.len() > 0 && is_tidy_punct(s.last()) {
        strip_punct_end(s.drop_last())
    } else {
        s
    }
}

/// Whitespace trimmed, then the separator punctuation at either end, then whitespace
/// again.
pub open spec fn tidy(s: Seq<char>) -> Seq<char> {
    trim(strip_punct_end(strip_punct_start(trim(s))))
}

fn tidy_slice(s: &Vec<char>, lo: usize, hi: usize) -> (r: Vec<char>)
    requires
        lo <= hi <= s.len(),
    ensures
        r@ == tidy(s@.subrange(lo as int, hi as int)),
{
    let (a0, b0) = trim_bounds(s, lo, hi);
    let mut a = a0;
    while a < b0 && (s[a] == '-' || s[a] == '|' || s[a] == ':' || s[a] == '.' || s[a] == '_')
        invariant
            a0 <= a <= b0 <= s.len(),
            strip_punct_start(s@.subrange(a0 as int, b0 as int)) == strip_punct_start(
                s@.subrange(a as int, b0 as int),
            ),
        decreases b0 - a,
    {
        assert(s@.subrange(a as int, b0 as int).drop_first() =~= s@.subrange(a + 1, b0 as int));
        a += 1;
    }
    let mut b = b0;
    while b > a && (s[b - 1] == '-' || s[b - 1] == '|' || s[b - 1] == ':' || s[b - 1] == '.' || s[b
        - 1] == '_')
        invariant
            a0 <= a <= b <= b0 <= s.len(),
            strip_punct_start(s@.subrange(a0 as int, b0 as int)) == s@.subrange(a as int, b0 as int),
            strip_punct_end(s@.subrange(a as int, b0 as int)) == strip_punct_end(
                s@.subrange(a as int, b as int),
            ),
        decreases b - a,
    {
        assert(s@.subrange(a as int, b as int).drop_last() =~= s@.subrange(a as int, b - 1));
        b -= 1;
    }
    let (c, d) = trim_bounds(s, a, b);
    slice(s, c, d)
}

/// Show title, episode title and marker, as `split_show_and_episode` finds them.
pub open spec fn spec_split(name: Seq<char>) -> Option<(Seq<char>, Option<Seq<char>>, EpisodeMarker)> {
    match spec_episode_marker(name) {
        None => None,
        Some(m) => match (char_index(name, m.start as int), char_index(name, m.end as int)) {
            (Some(a), Some(b)) => {
                let show = tidy(name.take(a));
                let ep = tidy(name.skip(b));
                if show.len() == 0 {
                    None
                } else {
                    Some((show, if ep.len() == 0 { None } else { Some(ep) }, m))
                }
            },
            _ => None,
        },
    }
}

/// Split `"Breaking Bad S01E02 Cat's in the Bag"` into
/// `("Breaking Bad", Some("Cat's in the Bag"), marker)`.
pub fn split_show_and_episode(name: &str) -> (r: Option<(String, Option<String>, EpisodeMarker)>)
    ensures
        match r {
            None => spec_split(name@) is None,
            Some((show, ep, m)) => spec_split(name@) == Some((show@, opt_view(ep), m)),
        },
{
    let m = match parse_episode_marker(name) {
        Some(m) => m,
        None => return None,
    };
    let chars = chars_of(name);
    let (a, b) = match (char_index_of(&chars, m.start), char_index_of(&chars, m.end)) {
        (Some(a), Some(b)) => (a, b),
        _ => return None,
    };
    let show = tidy_slice(&chars, 0, a);
    let ep = tidy_slice(&chars, b, chars.len());
    assert(chars@.subrange(0, a as int) =~= name@.take(a as int));
    assert(chars@.subrange(b as int, chars@.len() as int) =~= name@.skip(b as int));
    if show.len() == 0 {
        return None;
    }
    let ep_title = if ep.len() == 0 {
        None
    } else {
        Some(string_of(ep.as_slice()))
    };
    Some((string_of(show.as_slice()), ep_title, m))
}

/// What one entry contributes to the folding: its show's key, the show title as cleaned,
/// the year, the quality it offers, its marker and the episode's own title; `None` for
/// an entry with no marker or whose show title leaves no key.
pub struct Parts {
    pub key: Seq<char>,
    pub title: Seq<char>,
    pub year: Option<i32>,
    pub quality: Option<Seq<char>>,
    pub marker: EpisodeMarker,
    pub episode_title: Option<Seq<char>>,
}

#[verifier::opaque]
pub open spec fn spec_parts(name: Seq<char>) -> Option<Parts> {
    match spec_split(name) {
        None => None,
        Some((show, ep, m)) => {
            let c = spec_clean_title(show);
            let key = spec_match_key(c.0);
            if key.len() == 0 {
                None
            } else {
                Some(
                    Parts {
                        key,
                        title: c.0,
                        year: c.1,
                        quality: match c.2 {
                            Some(q) => Some(q),
                            None => spec_detect_quality(name),
                        },
                        marker: m,
                        episode_title: ep,
                    },
                )
            }
        },
    }
}

/// `a` sorts strictly before `b`, character by character (which for UTF-8 is also byte
/// order, the order `String` compares in).
pub open spec fn lex_lt(a: Seq<char>, b: Seq<char>) -> bool
    decreases a.len(),
{
    if a.len() == 0 {
        b.len() > 0
    } else if b.len() == 0 {
        false
    } else if a[0] != b[0] {
        a[0] < b[0]
    } else {
        lex_lt(a.drop_first(), b.drop_first())
    }
}

pub fn key_before(a: &Vec<char>, b: &Vec<char>) -> (r: bool)
    ensures
        r == lex_lt(a@, b@),
{
    let mut i: usize = 0;
    assert(a@.skip(0) =~= a@);
    assert(b@.skip(0) =~= b@);
    while i < a.len() && i < b.len() && a[i] == b[i]
        invariant
            i <= a.len(),
            i <= b.len(),
            lex_lt(a@, b@) == lex_lt(a@.skip(i as int), b@.skip(i as int)),
        decreases a.len() - i,
    {
        assert(a@.skip(i as int).drop_first() =~= a@.skip(i + 1));
        assert(b@.skip(i as int).drop_first() =~= b@.skip(i + 1));
        i += 1;
    }
    if i == a.len() {
        i < b.len()
    } else if i == b.len() {
        false
    } else {
        assert(a@.skip(i as int)[0] == a@[i as int]);
        assert(b@.skip(i as int)[0] == b@[i as int]);
        a[i] < b[i]
    }
}

/// What an entry contributes, as `spec_parts` describes, with the show title and key as
/// characters.
pub struct EntryParts {
    pub key: Vec<char>,
    pub title: Vec<char>,
    pub year: Option<i32>,
    pub quality: Option<String>,
    pub marker: EpisodeMarker,
    pub episode_title: Option<String>,
}

fn entry_parts(name: &str) -> (r: Option<EntryParts>)
    ensures
        match r {
            None => spec_parts(name@) is None,
            Some(p) => spec_parts(name@) == Some(
                Parts {
                    key: p.key@,
                    title: p.title@,
                    year: p.year,
                    quality: opt_seq(p.quality),
                    marker: p.marker,
                    episode_title: opt_view(p.episode_title),
                },
            ),
        },
{
    reveal(spec_parts);
    let (show, ep, m) = match split_show_and_episode(name) {
        Some(t) => t,
        None => return None,
    };
    let cleaned = clean_movie_title(show.as_str());
    let key = match_key(cleaned.title.as_str());
    let kv = chars_of(key.as_str());
    if kv.len() == 0 {
        return None;
    }
    let quality = match cleaned.quality {
        Some(q) => Some(q),
        None => detect_quality(name),
    };
    let title = chars_of(cleaned.title.as_str());
    Some(
        EntryParts {
            key: kv,
            title,
            year: cleaned.year,
            quality,
            marker: m,
            episode_title: ep,
        },
    )
}

pub struct EpisodeV {
    pub number: u16,
    pub title: Option<Seq<char>>,
    pub url: Seq<char>,
    pub logo: Option<Seq<char>>,
}

pub open spec fn episode_view(e: EpisodeRef) -> EpisodeV {
    EpisodeV { number: e.number, title: opt_view(e.title), url: e.url@, logo: opt_view(e.logo) }
}

pub open spec fn episodes_view(eps: Seq<EpisodeRef>) -> Seq<EpisodeV> {
    eps.map_values(|e: EpisodeRef| episode_view(e))
}

pub struct SeasonV {
    pub number: u16,
    pub episodes: Seq<EpisodeV>,
}

pub open spec fn season_view(s: Season) -> SeasonV {
    SeasonV { number: s.number, episodes: episodes_view(s.episodes@) }
}

pub open spec fn seasons_view(ss: Seq<Season>) -> Seq<SeasonV> {
    ss.map_values(|s: Season| season_view(s))
}

/// A show as the folding accumulates it.
pub struct ShowV {
    pub key: Seq<char>,
    pub title: Seq<char>,
    pub year: Option<i32>,
    pub group: Option<Seq<char>>,
    pub quality: Option<Seq<char>>,
    pub seasons: Seq<SeasonV>,
}

/// Where an episode numbered `n` goes: before the first one numbered `n` or more.
pub open spec fn episode_pos(eps: Seq<EpisodeV>, n: u16) -> int
    decreases eps.len(),
{
    if eps.len() == 0 || eps[0].number >= n {
        0
    } else {
        1 + episode_pos(eps.drop_first(), n)
    }
}

pub proof fn lemma_episode_pos(eps: Seq<EpisodeV>, n: u16, j: int)
    requires
        0 <= j <= eps.len(),
        forall|k: int| 0 <= k < j ==> (#[trigger] eps[k]).number < n,
        j == eps.len() || eps[j].number >= n,
    ensures
        episode_pos(eps, n) == j,
    decreases j,
{
    if j > 0 {
        lemma_episode_pos(eps.drop_first(), n, j - 1);
    }
}

/// An episode added to a season's list, kept in order of number; an episode whose number
/// is already there is not added again.
pub open spec fn add_episode(eps: Seq<EpisodeV>, e: EpisodeV) -> Seq<EpisodeV> {
    let j = episode_pos(eps, e.number);
    if j < eps.len() && eps[j].number == e.number {
        eps
    } else {
        eps.insert(j, e)
    }
}

pub open spec fn season_pos(ss: Seq<SeasonV>, n: u16) -> int
    decreases ss.len(),
{
    if ss.len() == 0 || ss[0].number >= n {
        0
    } else {
        1 + season_pos(ss.drop_first(), n)
    }
}

pub proof fn lemma_season_pos(ss: Seq<SeasonV>, n: u16, j: int)
    requires
        0 <= j <= ss.len(),
        forall|k: int| 0 <= k < j ==> (#[trigger] ss[k]).number < n,
        j == ss.len() || ss[j].number >= n,
    ensures
        season_pos(ss, n) == j,
    decreases j,
{
    if j > 0 {
        lemma_season_pos(ss.drop_first(), n, j - 1);
    }
}

/// An episode filed under its season, the seasons kept in order of number.
pub open spec fn add_to_seasons(ss: Seq<SeasonV>, season: u16, e: EpisodeV) -> Seq<SeasonV> {
    let j = season_pos(ss, season);
    if j < ss.len() && ss[j].number == season {
        ss.update(j, SeasonV { number: season, episodes: add_episode(ss[j].episodes, e) })
    } else {
        ss.insert(j, SeasonV { number: season, episodes: seq![e] })
    }
}

pub open spec fn show_pos(shows: Seq<ShowV>, key: Seq<char>) -> int
    decreases shows.len(),
{
    if shows.len() == 0 || !lex_lt(shows[0].key, key) {
        0
    } else {
        1 + show_pos(shows.drop_first(), key)
    }
}

pub proof fn lemma_show_pos(shows: Seq<ShowV>, key: Seq<char>, j: int)
    requires
        0 <= j <= shows.len(),
        forall|k: int| 0 <= k < j ==> lex_lt((#[trigger] shows[k]).key, key),
        j == shows.len() || !lex_lt(shows[j].key, key),
    ensures
        show_pos(shows, key) == j,
    decreases j,
{
    if j > 0 {
        lemma_show_pos(shows.drop_first(), key, j - 1);
    }
}

/// A show updated with one more of its episodes: the longest spelling of its title
/// (in bytes; the first of them on a tie), the first year and provider group seen, the
/// best quality, and the episode filed.
pub open spec fn update_show(
    a: ShowV,
    p: Parts,
    group: Option<Seq<char>>,
    url: Seq<char>,
    logo: Option<Seq<char>>,
) -> ShowV {
    ShowV {
        key: a.key,
        title: if byte_len(p.title) > byte_len(a.title) {
            p.title
        } else {
            a.title
        },
        year: if a.year is None {
            p.year
        } else {
            a.year
        },
        group: if a.group is None {
            group
        } else {
            a.group
        },
        quality: if spec_quality_rank(p.quality) > spec_quality_rank(a.quality) {
            p.quality
        } else {
            a.quality
        },
        seasons: add_to_seasons(
            a.seasons,
            p.marker.season,
            EpisodeV { number: p.marker.episode, title: p.episode_title, url, logo },
        ),
    }
}

/// A show as first seen.
pub open spec fn fresh_show(p: Parts, group: Option<Seq<char>>) -> ShowV {
    ShowV { key: p.key, title: p.title, year: p.year, group, quality: None, seasons: seq![] }
}

/// The shows, kept in order of key, with one more entry folded in.
pub open spec fn add_entry(
    shows: Seq<ShowV>,
    p: Parts,
    group: Option<Seq<char>>,
    url: Seq<char>,
    logo: Option<Seq<char>>,
) -> Seq<ShowV> {
    let j = show_pos(shows, p.key);
    if j < shows.len() && shows[j].key == p.key {
        shows.update(j, update_show(shows[j], p, group, url, logo))
    } else {
        shows.insert(j, update_show(fresh_show(p, group), p, group, url, logo))
    }
}

/// One entry folded in: an unmarked one is reported by position, a marked one is filed
/// under its show.
pub open spec fn series_step(
    state: (Seq<ShowV>, Seq<usize>),
    idx: usize,
    e: PlaylistEntry,
) -> (Seq<ShowV>, Seq<usize>) {
    match spec_parts(e.name@) {
        None => (state.0, state.1.push(idx)),
        Some(p) => (add_entry(state.0, p, opt_view(e.group), e.url@, opt_view(e.logo)), state.1),
    }
}

/// The shows and the unmarked entries' positions after folding `entries` in order.
pub open spec fn fold_series(entries: Seq<PlaylistEntry>) -> (Seq<ShowV>, Seq<usize>)
    decreases entries.len(),
{
    if entries.len() == 0 {
        (seq![], seq![])
    } else {
        series_step(
            fold_series(entries.drop_last()),
            (entries.len() - 1) as usize,
            entries.last(),
        )
    }
}

/// A finished group shows exactly what the folding accumulated for it.
pub open spec fn shows_as(g: SeriesGroup, s: ShowV) -> bool {
    &&& g.title@ == s.title
    &&& g.year == s.year
    &&& opt_view(g.group) == s.group
    &&& opt_view(g.quality) == s.quality
    &&& seasons_view(g.seasons@) == s.seasons
}

fn copy_opt(o: &Option<String>) -> (r: Option<String>)
    ensures
        opt_view(r) == opt_view(*o),
{
    match o {
        Some(s) => Some(owned(s.as_str())),
        None => None,
    }
}

fn add_episode_in(eps: &mut Vec<EpisodeRef>, e: EpisodeRef)
    ensures
        episodes_view(final(eps)@) == add_episode(episodes_view(old(eps)@), episode_view(e)),
{
    let ghost v = episodes_view(old(eps)@);
    let n = e.number;
    let mut j: usize = 0;
    while j < eps.len() && eps[j].number < n
        invariant
            j <= eps.len(),
            eps@ == old(eps)@,
            v == episodes_view(old(eps)@),
            forall|k: int| 0 <= k < j ==> (#[trigger] v[k]).number < n,
        decreases eps.len() - j,
    {
        j += 1;
    }
    proof {
        lemma_episode_pos(v, n, j as int);
    }
    if j < eps.len() && eps[j].number == n {
        return;
    }
    eps.insert(j, e);
    assert(episodes_view(eps@) =~= v.insert(j as int, episode_view(e)));
}

fn add_to_seasons_in(ss: &mut Vec<Season>, season: u16, e: EpisodeRef)
    ensures
        seasons_view(final(ss)@) == add_to_seasons(seasons_view(old(ss)@), season, episode_view(e)),
{
    let ghost v = seasons_view(old(ss)@);
    let mut j: usize = 0;
    while j < ss.len() && ss[j].number < season
        invariant
            j <= ss.len(),
            ss@ == old(ss)@,
            v == seasons_view(old(ss)@),
            forall|k: int| 0 <= k < j ==> (#[trigger] v[k]).number < season,
        decreases ss.len() - j,
    {
        j += 1;
    }
    proof {
        lemma_season_pos(v, season, j as int);
    }
    if j < ss.len() && ss[j].number == season {
        let mut found = ss.remove(j);
        add_episode_in(&mut found.episodes, e);
        ss.insert(j, found);
        assert(seasons_view(ss@) =~= v.update(
            j as int,
            SeasonV { number: season, episodes: add_episode(v[j as int].episodes, episode_view(e)) },
        ));
    } else {
        let mut eps: Vec<EpisodeRef> = Vec::new();
        eps.push(e);
        assert(episodes_view(eps@) =~= seq![episode_view(e)]);
        ss.insert(j, Season { number: season, episodes: eps });
        assert(seasons_view(ss@) =~= v.insert(
            j as int,
            SeasonV { number: season, episodes: seq![episode_view(e)] },
        ));
    }
}

struct ShowAcc {
    key: Vec<char>,
    title: Vec<char>,
    year: Option<i32>,
    group: Option<String>,
    quality: Option<String>,
    seasons: Vec<Season>,
}

spec fn acc_view(a: ShowAcc) -> ShowV {
    ShowV {
        key: a.key@,
        title: a.title@,
        year: a.year,
        group: opt_view(a.group),
        quality: opt_view(a.quality),
        seasons: seasons_view(a.seasons@),
    }
}

spec fn accs_view(s: Seq<ShowAcc>) -> Seq<ShowV> {
    s.map_values(|a: ShowAcc| acc_view(a))
}

spec fn parts_view(p: EntryParts) -> Parts {
    Parts {
        key: p.key@,
        title: p.title@,
        year: p.year,
        quality: opt_seq(p.quality),
        marker: p.marker,
        episode_title: opt_view(p.episode_title),
    }
}

fn rank_of(q: &Option<String>) -> (r: u8)
    ensures
        r == spec_quality_rank(opt_view(*q)),
{
    match q {
        Some(s) => quality_rank(Some(s.as_str())),
        None => quality_rank(None),
    }
}

fn update_acc(a: &mut ShowAcc, p: EntryParts, entry: &PlaylistEntry)
    ensures
        acc_view(*final(a)) == update_show(
            acc_view(*old(a)),
            parts_view(p),
            opt_view(entry.group),
            entry.url@,
            opt_view(entry.logo),
        ),
{
    let ghost pv = parts_view(p);
    if byte_count(&p.title) > byte_count(&a.title) {
        a.title = p.title;
    }
    if a.year.is_none() {
        a.year = p.year;
    }
    if a.group.is_none() {
        a.group = copy_opt(&entry.group);
    }
    if rank_of(&p.quality) > rank_of(&a.quality) {
        a.quality = p.quality;
    }
    let ep = EpisodeRef {
        number: p.marker.episode,
        title: p.episode_title,
        url: owned(entry.url.as_str()),
        logo: copy_opt(&entry.logo),
    };
    add_to_seasons_in(&mut a.seasons, p.marker.season, ep);
}

fn copy_chars(v: &Vec<char>) -> (r: Vec<char>)
    ensures
        r@ == v@,
{
    let r = slice(v, 0, v.len());
    assert(v@.subrange(0, v@.len() as int) =~= v@);
    r
}

fn fold_entry(shows: &mut Vec<ShowAcc>, ungrouped: &mut Vec<usize>, idx: usize, entry: &PlaylistEntry)
    ensures
        (accs_view(final(shows)@), final(ungrouped)@) == series_step(
            (accs_view(old(shows)@), old(ungrouped)@),
            idx,
            *entry,
        ),
{
    match entry_parts(entry.name.as_str()) {
        None => {
            ungrouped.push(idx);
        },
        Some(p) => {
            let ghost v = accs_view(shows@);
            let mut j: usize = 0;
            while j < shows.len() && key_before(&shows[j].key, &p.key)
                invariant
                    j <= shows.len(),
                    v == accs_view(shows@),
                    forall|k: int| 0 <= k < j ==> lex_lt((#[trigger] v[k]).key, p.key@),
                decreases shows.len() - j,
            {
                j += 1;
            }
            proof {
                lemma_show_pos(v, p.key@, j as int);
            }
            if j < shows.len() && crate::text::seq_eq(&shows[j].key, &p.key) {
                let mut a = shows.remove(j);
                update_acc(&mut a, p, entry);
                shows.insert(j, a);
                assert(accs_view(shows@) =~= v.update(j as int, acc_view(a)));
            } else {
                let mut a = ShowAcc {
                    key: copy_chars(&p.key),
                    title: copy_chars(&p.title),
                    year: p.year,
                    group: copy_opt(&entry.group),
                    quality: None,
                    seasons: Vec::new(),
                };
                assert(seasons_view(a.seasons@) =~= Seq::<SeasonV>::empty());
                update_acc(&mut a, p, entry);
                shows.insert(j, a);
                assert(accs_view(shows@) =~= v.insert(j as int, acc_view(a)));
            }
        },
    }
}

/// Fold a flat list of episode entries into shows.
///
/// Entries without a recognizable marker are returned in the second tuple slot so the caller
/// can decide what to do with them rather than having them silently vanish.
pub fn group_series(entries: &[PlaylistEntry]) -> (r: (Vec<SeriesGroup>, Vec<usize>))
    ensures
        r.0@.len() == fold_series(entries@).0.len(),
        forall|i: int| 0 <= i < r.0@.len() ==> shows_as(#[trigger] r.0@[i], fold_series(entries@).0[i]),
        r.1@ == fold_series(entries@).1,
{
    let mut shows: Vec<ShowAcc> = Vec::new();
    let mut ungrouped: Vec<usize> = Vec::new();
    let mut idx: usize = 0;
    while idx < entries.len()
        invariant
            idx <= entries.len(),
            accs_view(shows@) == fold_series(entries@.take(idx as int)).0,
            ungrouped@ == fold_series(entries@.take(idx as int)).1,
        decreases entries.len() - idx,
    {
        let entry = &entries[idx];
        assert(entries@.take(idx + 1).drop_last() =~= entries@.take(idx as int));
        assert(entries@.take(idx + 1).last() == entries@[idx as int]);
        fold_entry(&mut shows, &mut ungrouped, idx, entry);
        idx += 1;
    }
    assert(entries@.take(entries@.len() as int) =~= entries@);
    let ghost model = accs_view(shows@);
    let mut reversed: Vec<SeriesGroup> = Vec::new();
    while shows.len() > 0
        invariant
            shows@.len() + reversed@.len() == model.len(),
            forall|i: int| 0 <= i < shows@.len() ==> acc_view(#[trigger] shows@[i]) == model[i],
            forall|i: int|
                0 <= i < reversed@.len() ==> shows_as(
                    #[trigger] reversed@[i],
                    model[model.len() - 1 - i],
                ),
        decreases shows.len(),
    {
        let a = shows.pop().unwrap();
        let g = SeriesGroup {
            title: string_of(a.title.as_slice()),
            year: a.year,
            group: a.group,
            quality: a.quality,
            seasons: a.seasons,
        };
        reversed.push(g);
    }
    let mut groups: Vec<SeriesGroup> = Vec::new();
    while reversed.len() > 0
        invariant
            reversed@.len() + groups@.len() == model.len(),
            forall|i: int|
                0 <= i < reversed@.len() ==> shows_as(
                    #[trigger] reversed@[i],
                    model[model.len() - 1 - i],
                ),
            forall|i: int| 0 <= i < groups@.len() ==> shows_as(#[trigger] groups@[i], model[i]),
        decreases reversed.len(),
    {
        let g = reversed.pop().unwrap();
        groups.push(g);
    }
    (groups, ungrouped)
}

pub proof fn lemma_lex_irreflexive(a: Seq<char>)
    ensures
        !lex_lt(a, a),
    decreases a.len(),
{
    if a.len() > 0 {
        lemma_lex_irreflexive(a.drop_first());
    }
}

pub proof fn lemma_lex_total(a: Seq<char>, b: Seq<char>)
    requires
        a != b,
    ensures
        lex_lt(a, b) || lex_lt(b, a),
    decreases a.len(),
{
    if a.len() > 0 && b.len() > 0 && a[0] == b[0] {
        if a.drop_first() == b.drop_first() {
            assert(a =~= seq![a[0]] + a.drop_first());
            assert(b =~= seq![b[0]] + b.drop_first());
        }
        lemma_lex_total(a.drop_first(), b.drop_first());
    } else if a.len() > 0 && b.len() > 0 {
    } else if a.len() == 0 && b.len() == 0 {
        assert(a =~= b);
    }
}

pub proof fn lemma_lex_asymmetric(a: Seq<char>, b: Seq<char>)
    requires
        lex_lt(a, b),
    ensures
        !lex_lt(b, a),
    decreases a.len(),
{
    if a.len() > 0 && b.len() > 0 && a[0] == b[0] {
        lemma_lex_asymmetric(a.drop_first(), b.drop_first());
    }
}

pub proof fn lemma_lex_transitive(a: Seq<char>, b: Seq<char>, c: Seq<char>)
    requires
        lex_lt(a, b),
        lex_lt(b, c),
    ensures
        lex_lt(a, c),
    decreases a.len(),
{
    if a.len() > 0 && b.len() > 0 && c.len() > 0 && a[0] == b[0] && b[0] == c[0] {
        lemma_lex_transitive(a.drop_first(), b.drop_first(), c.drop_first());
    }
}

/// Episodes strictly in order of number: sorted, and no number twice.
pub open spec fn episodes_ordered(eps: Seq<EpisodeV>) -> bool {
    forall|i: int, j: int| 0 <= i < j < eps.len() ==> #[trigger] eps[i].number < #[trigger] eps[j].number
}

/// Seasons strictly in order of number, each holding at least one episode, in order.
pub open spec fn seasons_ordered(ss: Seq<SeasonV>) -> bool {
    &&& forall|i: int, j: int| 0 <= i < j < ss.len() ==> #[trigger] ss[i].number < #[trigger] ss[j].number
    &&& forall|i: int| 0 <= i < ss.len() ==> episodes_ordered(#[trigger] ss[i].episodes)
        && ss[i].episodes.len() > 0
}

/// Shows strictly in order of key, each with its seasons in order.
pub open spec fn shows_ordered(shows: Seq<ShowV>) -> bool {
    &&& forall|i: int, j: int| 0 <= i < j < shows.len() ==> lex_lt(#[trigger] shows[i].key, #[trigger] shows[j].key)
    &&& forall|i: int| 0 <= i < shows.len() ==> seasons_ordered(#[trigger] shows[i].seasons)
}

proof fn lemma_add_episode_ordered(eps: Seq<EpisodeV>, e: EpisodeV)
    requires
        episodes_ordered(eps),
    ensures
        episodes_ordered(add_episode(eps, e)),
        add_episode(eps, e).len() > 0,
    decreases eps.len(),
{
    let j = episode_pos(eps, e.number);
    lemma_episode_pos_bounds(eps, e.number);
    if !(j < eps.len() && eps[j].number == e.number) {
        let r = eps.insert(j, e);
        assert forall|a: int, b: int| 0 <= a < b < r.len() implies #[trigger] r[a].number
            < #[trigger] r[b].number by {
            if b < j {
            } else if a < j && b == j {
            } else if a < j && b > j {
                assert(r[b] == eps[b - 1]);
                if b - 1 > j {
                    assert(eps[j].number < eps[b - 1].number);
                }
            } else if a == j {
                assert(r[b] == eps[b - 1]);
                if b - 1 > j {
                    assert(eps[j].number < eps[b - 1].number);
                }
            } else {
                assert(r[a] == eps[a - 1] && r[b] == eps[b - 1]);
            }
        }
    } else {
        assert(eps.len() > 0);
    }
}

proof fn lemma_episode_pos_bounds(eps: Seq<EpisodeV>, n: u16)
    ensures
        0 <= episode_pos(eps, n) <= eps.len(),
        forall|k: int| 0 <= k < episode_pos(eps, n) ==> (#[trigger] eps[k]).number < n,
        episode_pos(eps, n) < eps.len() ==> eps[episode_pos(eps, n)].number >= n,
    decreases eps.len(),
{
    if eps.len() > 0 && eps[0].number < n {
        lemma_episode_pos_bounds(eps.drop_first(), n);
        assert forall|k: int| 0 <= k < episode_pos(eps, n) implies (#[trigger] eps[k]).number < n by {
            if k > 0 {
                assert(eps[k] == eps.drop_first()[k - 1]);
            }
        }
    }
}

proof fn lemma_season_pos_bounds(ss: Seq<SeasonV>, n: u16)
    ensures
        0 <= season_pos(ss, n) <= ss.len(),
        forall|k: int| 0 <= k < season_pos(ss, n) ==> (#[trigger] ss[k]).number < n,
        season_pos(ss, n) < ss.len() ==> ss[season_pos(ss, n)].number >= n,
    decreases ss.len(),
{
    if ss.len() > 0 && ss[0].number < n {
        lemma_season_pos_bounds(ss.drop_first(), n);
        assert forall|k: int| 0 <= k < season_pos(ss, n) implies (#[trigger] ss[k]).number < n by {
            if k > 0 {
                assert(ss[k] == ss.drop_first()[k - 1]);
            }
        }
    }
}

proof fn lemma_show_pos_bounds(shows: Seq<ShowV>, key: Seq<char>)
    ensures
        0 <= show_pos(shows, key) <= shows.len(),
        forall|k: int| 0 <= k < show_pos(shows, key) ==> lex_lt((#[trigger] shows[k]).key, key),
        show_pos(shows, key) < shows.len() ==> !lex_lt(shows[show_pos(shows, key)].key, key),
    decreases shows.len(),
{
    if shows.len() > 0 && lex_lt(shows[0].key, key) {
        lemma_show_pos_bounds(shows.drop_first(), key);
        assert forall|k: int| 0 <= k < show_pos(shows, key) implies lex_lt(
            (#[trigger] shows[k]).key,
            key,
        ) by {
            if k > 0 {
                assert(shows[k] == shows.drop_first()[k - 1]);
            }
        }
    }
}

proof fn lemma_add_to_seasons_ordered(ss: Seq<SeasonV>, season: u16, e: EpisodeV)
    requires
        seasons_ordered(ss),
    ensures
        seasons_ordered(add_to_seasons(ss, season, e)),
{
    let j = season_pos(ss, season);
    lemma_season_pos_bounds(ss, season);
    if j < ss.len() && ss[j].number == season {
        lemma_add_episode_ordered(ss[j].episodes, e);
        let r = add_to_seasons(ss, season, e);
        assert forall|i: int| 0 <= i < r.len() implies episodes_ordered(#[trigger] r[i].episodes)
            && r[i].episodes.len() > 0 by {
            if i != j {
                assert(r[i] == ss[i]);
            }
        }
    } else {
        let r = ss.insert(j, SeasonV { number: season, episodes: seq![e] });
        assert forall|a: int, b: int| 0 <= a < b < r.len() implies #[trigger] r[a].number
            < #[trigger] r[b].number by {
            if b < j {
            } else if a < j && b == j {
            } else if a < j && b > j {
                assert(r[b] == ss[b - 1]);
                if b - 1 > j {
                    assert(ss[j].number < ss[b - 1].number);
                }
            } else if a == j {
                assert(r[b] == ss[b - 1]);
                if b - 1 > j {
                    assert(ss[j].number < ss[b - 1].number);
                }
            } else {
                assert(r[a] == ss[a - 1] && r[b] == ss[b - 1]);
            }
        }
        assert forall|i: int| 0 <= i < r.len() implies episodes_ordered(#[trigger] r[i].episodes)
            && r[i].episodes.len() > 0 by {
            if i < j {
                assert(r[i] == ss[i]);
            } else if i > j {
                assert(r[i] == ss[i - 1]);
            }
        }
    }
}

proof fn lemma_add_entry_ordered(
    shows: Seq<ShowV>,
    p: Parts,
    group: Option<Seq<char>>,
    url: Seq<char>,
    logo: Option<Seq<char>>,
)
    requires
        shows_ordered(shows),
    ensures
        shows_ordered(add_entry(shows, p, group, url, logo)),
{
    let j = show_pos(shows, p.key);
    lemma_show_pos_bounds(shows, p.key);
    let ep = EpisodeV { number: p.marker.episode, title: p.episode_title, url, logo };
    if j < shows.len() && shows[j].key == p.key {
        lemma_add_to_seasons_ordered(shows[j].seasons, p.marker.season, ep);
        let r = add_entry(shows, p, group, url, logo);
        assert forall|i: int| 0 <= i < r.len() implies seasons_ordered(#[trigger] r[i].seasons) by {
            if i != j {
                assert(r[i] == shows[i]);
            }
        }
    } else {
        lemma_add_to_seasons_ordered(Seq::<SeasonV>::empty(), p.marker.season, ep);
        let n = update_show(fresh_show(p, group), p, group, url, logo);
        let r = shows.insert(j, n);
        if j < shows.len() {
            lemma_lex_total(shows[j].key, p.key);
        }
        assert forall|a: int, b: int| 0 <= a < b < r.len() implies lex_lt(
            #[trigger] r[a].key,
            #[trigger] r[b].key,
        ) by {
            if b < j {
            } else if a < j && b == j {
            } else if a < j && b > j {
                assert(r[b] == shows[b - 1]);
                assert(lex_lt(shows[a].key, p.key));
                if b - 1 > j {
                    assert(lex_lt(shows[j].key, shows[b - 1].key));
                    lemma_lex_transitive(p.key, shows[j].key, shows[b - 1].key);
                }
                lemma_lex_transitive(shows[a].key, p.key, shows[b - 1].key);
            } else if a == j {
                assert(r[b] == shows[b - 1]);
                if b - 1 > j {
                    assert(lex_lt(shows[j].key, shows[b - 1].key));
                    lemma_lex_transitive(p.key, shows[j].key, shows[b - 1].key);
                }
            } else {
                assert(r[a] == shows[a - 1] && r[b] == shows[b - 1]);
            }
        }
        assert forall|i: int| 0 <= i < r.len() implies seasons_ordered(#[trigger] r[i].seasons) by {
            if i < j {
                assert(r[i] == shows[i]);
            } else if i > j {
                assert(r[i] == shows[i - 1]);
            }
        }
    }
}

/// The shows come out in order of key with no key twice; within a show the seasons come
/// in order of number with no number twice and none empty; within a season the episodes
/// come sorted by number and deduplicated.
pub proof fn lemma_groups_are_ordered(entries: Seq<PlaylistEntry>)
    ensures
        shows_ordered(fold_series(entries).0),
    decreases entries.len(),
{
    if entries.len() > 0 {
        lemma_groups_are_ordered(entries.drop_last());
        let prev = fold_series(entries.drop_last());
        let e = entries.last();
        match spec_parts(e.name@) {
            None => {},
            Some(p) => {
                lemma_add_entry_ordered(prev.0, p, opt_view(e.group), e.url@, opt_view(e.logo));
            },
        }
    }
}

/// The positions reported as ungrouped are, in increasing order, exactly those of the
/// entries that carry no usable episode marker.
pub open spec fn reports_unmarked(entries: Seq<PlaylistEntry>, ungrouped: Seq<usize>) -> bool {
    &&& forall|k: int|
        0 <= k < ungrouped.len() ==> {
            &&& (#[trigger] ungrouped[k]) < entries.len()
            &&& spec_parts(entries[ungrouped[k] as int].name@) is None
        }
    &&& forall|a: int, b: int|
        0 <= a < b < ungrouped.len() ==> #[trigger] ungrouped[a] < #[trigger] ungrouped[b]
    &&& forall|i: int|
        0 <= i < entries.len() && spec_parts((#[trigger] entries[i]).name@) is None
            ==> ungrouped.contains(i as usize)
}

/// No entry vanishes: every entry without a usable marker is reported by position, in
/// order, and every other entry is filed under a show.
pub proof fn lemma_unmarked_entries_are_reported(entries: Seq<PlaylistEntry>)
    requires
        entries.len() <= usize::MAX,
    ensures
        reports_unmarked(entries, fold_series(entries).1),
    decreases entries.len(),
{
    if entries.len() > 0 {
        let prefix = entries.drop_last();
        lemma_unmarked_entries_are_reported(prefix);
        let prev = fold_series(prefix).1;
        let now = fold_series(entries).1;
        let last = (entries.len() - 1) as usize;
        assert(reports_unmarked(prefix, prev));
        if spec_parts(entries.last().name@) is None {
            assert(now == prev.push(last));
        } else {
            assert(now == prev);
        }
        assert forall|i: int|
            0 <= i < entries.len() && spec_parts((#[trigger] entries[i]).name@) is None implies now.contains(
            i as usize,
        ) by {
            if i < entries.len() - 1 {
                assert(prefix[i] == entries[i]);
                let k = choose|k: int| 0 <= k < prev.len() && prev[k] == i as usize;
                assert(now[k] == i as usize);
            } else {
                assert(now[now.len() - 1] == i as usize);
            }
        }
        assert forall|k: int| 0 <= k < now.len() implies {
            &&& (#[trigger] now[k]) < entries.len()
            &&& spec_parts(entries[now[k] as int].name@) is None
        } by {
            if k < prev.len() {
                assert(now[k] == prev[k]);
                assert(prefix[prev[k] as int] == entries[prev[k] as int]);
            } else {
                assert(now[k] == last);
                assert(entries[last as int] == entries.last());
            }
        }
        assert forall|a: int, b: int| 0 <= a < b < now.len() implies #[trigger] now[a]
            < #[trigger] now[b] by {
            if b < prev.len() {
                assert(now[a] == prev[a] && now[b] == prev[b]);
            } else {
                assert(now[a] == prev[a]);
                assert(prev[a] < prefix.len());
            }
        }
    }
}


/// Some episode of `eps` is numbered `n`.
pub open spec fn has_episode(eps: Seq<EpisodeV>, n: u16) -> bool {
    exists|c: int| 0 <= c < eps.len() && eps[c].number == n
}

/// Some season of `ss` numbered `season` holds an episode numbered `n`.
pub open spec fn has_season_episode(ss: Seq<SeasonV>, season: u16, n: u16) -> bool {
    exists|b: int| 0 <= b < ss.len() && ss[b].number == season && has_episode(ss[b].episodes, n)
}

/// The show keyed `key` files episode `n` of season `season`.
pub open spec fn files(shows: Seq<ShowV>, key: Seq<char>, season: u16, n: u16) -> bool {
    exists|a: int| 0 <= a < shows.len() && shows[a].key == key && has_season_episode(shows[a].seasons, season, n)
}

proof fn lemma_add_episode_files(eps: Seq<EpisodeV>, e: EpisodeV)
    ensures
        has_episode(add_episode(eps, e), e.number),
        forall|n: u16| has_episode(eps, n) ==> #[trigger] has_episode(add_episode(eps, e), n),
{
    lemma_episode_pos_bounds(eps, e.number);
    let j = episode_pos(eps, e.number);
    let r = add_episode(eps, e);
    if j < eps.len() && eps[j].number == e.number {
        assert(r[j].number == e.number);
    } else {
        eps.insert_ensures(j, e);
        assert(r[j].number == e.number);
        assert forall|n: u16| has_episode(eps, n) implies #[trigger] has_episode(r, n) by {
            let c = choose|c: int| 0 <= c < eps.len() && eps[c].number == n;
            if c < j {
                assert(r[c] == eps[c]);
            } else {
                assert(r[c + 1] == eps[c]);
            }
        }
    }
}

proof fn lemma_add_to_seasons_files(ss: Seq<SeasonV>, season: u16, e: EpisodeV)
    ensures
        has_season_episode(add_to_seasons(ss, season, e), season, e.number),
        forall|s2: u16, n: u16| has_season_episode(ss, s2, n) ==> #[trigger] has_season_episode(
            add_to_seasons(ss, season, e),
            s2,
            n,
        ),
{
    lemma_season_pos_bounds(ss, season);
    let j = season_pos(ss, season);
    let r = add_to_seasons(ss, season, e);
    if j < ss.len() && ss[j].number == season {
        lemma_add_episode_files(ss[j].episodes, e);
        assert(r[j].number == season && r[j].episodes == add_episode(ss[j].episodes, e));
        assert forall|s2: u16, n: u16| has_season_episode(ss, s2, n) implies #[trigger] has_season_episode(r, s2, n) by {
            let b = choose|b: int| 0 <= b < ss.len() && ss[b].number == s2 && has_episode(ss[b].episodes, n);
            if b != j {
                assert(r[b] == ss[b]);
            } else {
                assert(has_episode(r[b].episodes, n));
            }
        }
    } else {
        let fresh = SeasonV { number: season, episodes: seq![e] };
        ss.insert_ensures(j, fresh);
        assert(r[j] == fresh);
        assert(fresh.episodes[0].number == e.number);
        assert(has_episode(r[j].episodes, e.number));
        assert forall|s2: u16, n: u16| has_season_episode(ss, s2, n) implies #[trigger] has_season_episode(r, s2, n) by {
            let b = choose|b: int| 0 <= b < ss.len() && ss[b].number == s2 && has_episode(ss[b].episodes, n);
            if b < j {
                assert(r[b] == ss[b]);
            } else {
                assert(r[b + 1] == ss[b]);
            }
        }
    }
}

proof fn lemma_add_entry_files(
    shows: Seq<ShowV>,
    p: Parts,
    group: Option<Seq<char>>,
    url: Seq<char>,
    logo: Option<Seq<char>>,
)
    ensures
        files(add_entry(shows, p, group, url, logo), p.key, p.marker.season, p.marker.episode),
        forall|k: Seq<char>, s2: u16, n: u16| files(shows, k, s2, n) ==> #[trigger] files(
            add_entry(shows, p, group, url, logo),
            k,
            s2,
            n,
        ),
{
    lemma_show_pos_bounds(shows, p.key);
    let j = show_pos(shows, p.key);
    let r = add_entry(shows, p, group, url, logo);
    let e = EpisodeV { number: p.marker.episode, title: p.episode_title, url, logo };
    if j < shows.len() && shows[j].key == p.key {
        lemma_add_to_seasons_files(shows[j].seasons, p.marker.season, e);
        assert(r[j] == update_show(shows[j], p, group, url, logo));
        assert(r[j].key == p.key);
        assert(has_season_episode(r[j].seasons, p.marker.season, p.marker.episode));
        assert forall|k: Seq<char>, s2: u16, n: u16| files(shows, k, s2, n) implies #[trigger] files(r, k, s2, n) by {
            let a = choose|a: int| 0 <= a < shows.len() && shows[a].key == k && has_season_episode(shows[a].seasons, s2, n);
            if a != j {
                assert(r[a] == shows[a]);
            } else {
                assert(has_season_episode(r[a].seasons, s2, n));
            }
        }
    } else {
        let f = fresh_show(p, group);
        lemma_add_to_seasons_files(f.seasons, p.marker.season, e);
        let nw = update_show(f, p, group, url, logo);
        shows.insert_ensures(j, nw);
        assert(r[j] == nw);
        assert(has_season_episode(r[j].seasons, p.marker.season, p.marker.episode));
        assert forall|k: Seq<char>, s2: u16, n: u16| files(shows, k, s2, n) implies #[trigger] files(r, k, s2, n) by {
            let a = choose|a: int| 0 <= a < shows.len() && shows[a].key == k && has_season_episode(shows[a].seasons, s2, n);
            if a < j {
                assert(r[a] == shows[a]);
            } else {
                assert(r[a + 1] == shows[a]);
            }
        }
    }
}

proof fn lemma_marked_entries_filed(entries: Seq<PlaylistEntry>)
    ensures
        forall|i: int|
            0 <= i < entries.len() && (#[trigger] spec_parts(entries[i].name@)) is Some ==> files(
                fold_series(entries).0,
                spec_parts(entries[i].name@)->0.key,
                spec_parts(entries[i].name@)->0.marker.season,
                spec_parts(entries[i].name@)->0.marker.episode,
            ),
    decreases entries.len(),
{
    if entries.len() > 0 {
        let d = entries.drop_last();
        lemma_marked_entries_filed(d);
        let prev = fold_series(d);
        let e = entries.last();
        let now = fold_series(entries);
        match spec_parts(e.name@) {
            None => {
                assert(now.0 == prev.0);
                assert forall|i: int|
                    0 <= i < entries.len() && (#[trigger] spec_parts(entries[i].name@)) is Some implies files(
                    now.0,
                    spec_parts(entries[i].name@)->0.key,
                    spec_parts(entries[i].name@)->0.marker.season,
                    spec_parts(entries[i].name@)->0.marker.episode,
                ) by {
                    if i < d.len() {
                        assert(d[i] == entries[i]);
                    }
                }
            },
            Some(p) => {
                lemma_add_entry_files(prev.0, p, opt_view(e.group), e.url@, opt_view(e.logo));
                assert forall|i: int|
                    0 <= i < entries.len() && (#[trigger] spec_parts(entries[i].name@)) is Some implies files(
                    now.0,
                    spec_parts(entries[i].name@)->0.key,
                    spec_parts(entries[i].name@)->0.marker.season,
                    spec_parts(entries[i].name@)->0.marker.episode,
                ) by {
                    if i < d.len() {
                        assert(d[i] == entries[i]);
                        let q = spec_parts(entries[i].name@)->0;
                        assert(files(prev.0, q.key, q.marker.season, q.marker.episode));
                    } else {
                        assert(entries[i] == e);
                    }
                }
            },
        }
    }
}

/// Every entry with a usable episode marker is filed exactly once: there is one show with
/// its key, in it one season with its number, and in that one episode with its number.
pub proof fn lemma_every_marked_entry_is_filed_once(entries: Seq<PlaylistEntry>, i: int)
    requires
        0 <= i < entries.len(),
        spec_parts(entries[i].name@) is Some,
    ensures
        ({
            let p = spec_parts(entries[i].name@)->0;
            let shows = fold_series(entries).0;
            &&& files(shows, p.key, p.marker.season, p.marker.episode)
            &&& forall|a: int, a2: int|
                0 <= a < shows.len() && 0 <= a2 < shows.len() && #[trigger] shows[a].key == p.key
                    && #[trigger] shows[a2].key == p.key ==> a == a2
            &&& forall|a: int, b: int, b2: int|
                0 <= a < shows.len() && 0 <= b < shows[a].seasons.len() && 0 <= b2
                    < shows[a].seasons.len() && #[trigger] shows[a].seasons[b].number == p.marker.season
                    && #[trigger] shows[a].seasons[b2].number == p.marker.season ==> b == b2
            &&& forall|a: int, b: int, c: int, c2: int|
                0 <= a < shows.len() && 0 <= b < shows[a].seasons.len() && 0 <= c
                    < shows[a].seasons[b].episodes.len() && 0 <= c2 < shows[a].seasons[b].episodes.len()
                    && #[trigger] shows[a].seasons[b].episodes[c].number == p.marker.episode
                    && #[trigger] shows[a].seasons[b].episodes[c2].number == p.marker.episode ==> c == c2
        }),
{
    lemma_marked_entries_filed(entries);
    assert(spec_parts(entries[i].name@) is Some);
    lemma_groups_are_ordered(entries);
    let p = spec_parts(entries[i].name@)->0;
    let shows = fold_series(entries).0;
    assert forall|a: int, a2: int|
        0 <= a < shows.len() && 0 <= a2 < shows.len() && #[trigger] shows[a].key == p.key
            && #[trigger] shows[a2].key == p.key implies a == a2 by {
        if a < a2 {
            assert(lex_lt(shows[a].key, shows[a2].key));
            lemma_lex_irreflexive(p.key);
        } else if a2 < a {
            assert(lex_lt(shows[a2].key, shows[a].key));
            lemma_lex_irreflexive(p.key);
        }
    }
    assert forall|a: int, b: int, b2: int|
        0 <= a < shows.len() && 0 <= b < shows[a].seasons.len() && 0 <= b2
            < shows[a].seasons.len() && #[trigger] shows[a].seasons[b].number == p.marker.season
            && #[trigger] shows[a].seasons[b2].number == p.marker.season implies b == b2 by {
        assert(seasons_ordered(shows[a].seasons));
        if b < b2 {
            assert(shows[a].seasons[b].number < shows[a].seasons[b2].number);
        } else if b2 < b {
            assert(shows[a].seasons[b2].number < shows[a].seasons[b].number);
        }
    }
    assert forall|a: int, b: int, c: int, c2: int|
        0 <= a < shows.len() && 0 <= b < shows[a].seasons.len() && 0 <= c
            < shows[a].seasons[b].episodes.len() && 0 <= c2 < shows[a].seasons[b].episodes.len()
            && #[trigger] shows[a].seasons[b].episodes[c].number == p.marker.episode
            && #[trigger] shows[a].seasons[b].episodes[c2].number == p.marker.episode implies c == c2 by {
        assert(seasons_ordered(shows[a].seasons));
        assert(episodes_ordered(shows[a].seasons[b].episodes));
        if c < c2 {
            assert(shows[a].seasons[b].episodes[c].number < shows[a].seasons[b].episodes[c2].number);
        } else if c2 < c {
            assert(shows[a].seasons[b].episodes[c2].number < shows[a].seasons[b].episodes[c].number);
        }
    }
}


/// Every show's key is the match key of its title.
pub open spec fn keys_match_titles(shows: Seq<ShowV>) -> bool {
    forall|a: int| 0 <= a < shows.len() ==> (#[trigger] shows[a]).key == spec_match_key(shows[a].title)
}

proof fn lemma_parts_key(name: Seq<char>)
    ensures
        spec_parts(name) matches Some(p) ==> p.key == spec_match_key(p.title),
{
    reveal(spec_parts);
}

proof fn lemma_add_entry_keys(
    shows: Seq<ShowV>,
    p: Parts,
    group: Option<Seq<char>>,
    url: Seq<char>,
    logo: Option<Seq<char>>,
)
    requires
        keys_match_titles(shows),
        p.key == spec_match_key(p.title),
    ensures
        keys_match_titles(add_entry(shows, p, group, url, logo)),
{
    lemma_show_pos_bounds(shows, p.key);
    let j = show_pos(shows, p.key);
    let r = add_entry(shows, p, group, url, logo);
    if j < shows.len() && shows[j].key == p.key {
        assert forall|a: int| 0 <= a < r.len() implies (#[trigger] r[a]).key == spec_match_key(r[a].title) by {
            if a != j {
                assert(r[a] == shows[a]);
            }
        }
    } else {
        let nw = update_show(fresh_show(p, group), p, group, url, logo);
        shows.insert_ensures(j, nw);
        assert forall|a: int| 0 <= a < r.len() implies (#[trigger] r[a]).key == spec_match_key(r[a].title) by {
            if a < j {
                assert(r[a] == shows[a]);
            } else if a > j {
                assert(r[a] == shows[a - 1]);
            }
        }
    }
}

/// A show is keyed by the match key of the title it is returned under: whichever
/// spelling of the title wins, the entries filed under it share that key.
pub proof fn lemma_groups_are_keyed_by_their_titles(entries: Seq<PlaylistEntry>)
    ensures
        keys_match_titles(fold_series(entries).0),
    decreases entries.len(),
{
    if entries.len() > 0 {
        lemma_groups_are_keyed_by_their_titles(entries.drop_last());
        let prev = fold_series(entries.drop_last());
        let e = entries.last();
        lemma_parts_key(e.name@);
        match spec_parts(e.name@) {
            None => {},
            Some(p) => {
                lemma_add_entry_keys(prev.0, p, opt_view(e.group), e.url@, opt_view(e.logo));
            },
        }
    }
}

} // verus!
