//! Domain types shared across parsers, persistence, and the IPC boundary.

use vstd::prelude::*;
use crate::text::owned;

verus! {

/// What a playlist entry actually is. Providers rarely say, so this is inferred by
/// `classify`.
#[derive(Debug, Clone, Copy, PartialEq, Eq, Hash)]
pub enum MediaKind {
    Live,
    Movie,
    Episode,
}

/// Per-entry HTTP overrides. IPTV providers routinely require a specific User-Agent or
/// Referer; `#EXTVLCOPT` carries them.
#[derive(Debug, Clone, PartialEq, Eq)]
pub struct HttpOptions {
    pub user_agent: Option<String>,
    pub referrer: Option<String>,
    pub origin: Option<String>,
}

impl HttpOptions {
    /// No overrides at all.
    pub fn new() -> (r: Self)
        ensures
            r.user_agent is None,
            r.referrer is None,
            r.origin is None,
    {
        HttpOptions { user_agent: None, referrer: None, origin: None }
    }

    pub fn is_empty(&self) -> (r: bool)
        ensures
            r == (self.user_agent is None && self.referrer is None && self.origin is None),
    {
        self.user_agent.is_none() && self.referrer.is_none() && self.origin.is_none()
    }
}

/// Catch-up / archive capability advertised by the playlist.
#[derive(Debug, Clone, PartialEq, Eq)]
pub struct Catchup {
    /// `default`, `append`, `shift`, `flussonic`, `xc`, …
    pub mode: String,
    pub source: Option<String>,
    pub days: u16,
}

/// One raw entry as it appeared in a playlist, before library reconciliation.
#[derive(Debug, Clone, PartialEq)]
pub struct PlaylistEntry {
    pub name: String,
    pub url: String,
    pub kind: MediaKind,
    pub tvg_id: Option<String>,
    pub tvg_name: Option<String>,
    pub logo: Option<String>,
    pub group: Option<String>,
    pub number: Option<u32>,
    /// Minutes to shift EPG data for this channel (`tvg-shift`).
    pub shift_minutes: i32,
    pub language: Option<String>,
    pub country: Option<String>,
    pub is_radio: bool,
    pub catchup: Option<Catchup>,
    pub http: HttpOptions,
    /// Source line number, for diagnostics on malformed playlists.
    pub source_line: usize,
}

impl PlaylistEntry {
    /// A live entry with a name and a URL and nothing else known.
    pub fn new(name: &str, url: &str) -> (r: Self)
        ensures
            r.name@ == name@,
            r.url@ == url@,
            r.kind == MediaKind::Live,
            r.tvg_id is None,
            r.tvg_name is None,
            r.logo is None,
            r.group is None,
            r.number is None,
            r.shift_minutes == 0,
            r.language is None,
            r.country is None,
            !r.is_radio,
            r.catchup is None,
            r.http.user_agent is None && r.http.referrer is None && r.http.origin is None,
            r.source_line == 0,
    {
        Self {
            name: owned(name),
            url: owned(url),
            kind: MediaKind::Live,
            tvg_id: None,
            tvg_name: None,
            logo: None,
            group: None,
            number: None,
            shift_minutes: 0,
            language: None,
            country: None,
            is_radio: false,
            catchup: None,
            http: HttpOptions::new(),
            source_line: 0,
        }
    }
}

/// A parse problem that did not justify discarding the whole playlist.
#[derive(Debug, Clone, PartialEq, Eq)]
pub struct ParseWarning {
    pub line: usize,
    pub message: String,
}

#[derive(Debug, Clone)]
pub struct PlaylistParseResult {
    pub entries: Vec<PlaylistEntry>,
    pub warnings: Vec<ParseWarning>,
    /// Entries seen but skipped (duplicates, unusable URLs).
    pub skipped: usize,
}

/// An EPG programme, timezone-normalized to UTC at parse time.
///
/// The star rating an XMLTV guide may carry is a fraction and travels beside this
/// type, not in it.
#[derive(Debug, Clone, PartialEq)]
pub struct Programme {
    pub channel_id: String,
    /// Unix seconds, UTC.
    pub start: i64,
    pub stop: i64,
    pub title: String,
    pub sub_title: Option<String>,
    pub description: Option<String>,
    pub categories: Vec<String>,
    pub season: Option<u16>,
    pub episode: Option<u16>,
    pub icon: Option<String>,
    pub rating: Option<String>,
    pub is_new: bool,
    pub is_live: bool,
    pub is_premiere: bool,
    pub credits: Vec<Credit>,
}

impl Programme {
    pub fn duration_secs(&self) -> (r: i64)
        requires
            i64::MIN <= self.stop - self.start <= i64::MAX,
        ensures
            r == if self.stop - self.start > 0 {
                self.stop - self.start
            } else {
                0
            },
    {
        let d = self.stop - self.start;
        if d > 0 {
            d
        } else {
            0
        }
    }
}

#[derive(Debug, Clone, PartialEq, Eq)]
pub struct Credit {
    pub role: String,
    pub name: String,
}

/// A channel as declared by an XMLTV document (not by the playlist).
#[derive(Debug, Clone, PartialEq, Eq)]
pub struct EpgChannel {
    pub id: String,
    pub display_names: Vec<String>,
    pub icon: Option<String>,
}

/// A show assembled from flat playlist episode entries.
#[derive(Debug, Clone, PartialEq)]
pub struct SeriesGroup {
    pub title: String,
    pub year: Option<i32>,
    /// The first provider group seen for the show.
    pub group: Option<String>,
    /// The best quality tier among its episodes.
    pub quality: Option<String>,
    pub seasons: Vec<Season>,
}

#[derive(Debug, Clone, PartialEq)]
pub struct Season {
    pub number: u16,
    pub episodes: Vec<EpisodeRef>,
}

#[derive(Debug, Clone, PartialEq)]
pub struct EpisodeRef {
    pub number: u16,
    pub title: Option<String>,
    pub url: String,
    pub logo: Option<String>,
}

} // verus!
