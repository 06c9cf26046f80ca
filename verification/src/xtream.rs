//! Xtream Codes API response models and the rules read off them.
//!
//! Panels send numbers as strings, `null` where an array belongs, and HTML error pages
//! with HTTP 200. The lenient decoding of the JSON happens where the JSON is read; what
//! is here is the models, the rules about a line's state, and the URLs a panel serves.

use vstd::prelude::*;
use crate::error::CoreError;
use crate::model::MediaKind;
use crate::text::{
    append_str, ascii_lower, chars_of, decimal, lower_all, owned, push_decimal, slice, str_eq,
    string_of, trim_start, white_space, is_whitespace,
};
use crate::words::strip_end_by;

verus! {

broadcast use vstd::string::group_string_axioms;

#[derive(Debug, Clone, PartialEq, Eq)]
pub struct UserInfo {
    pub username: Option<String>,
    pub status: Option<String>,
    /// Unix seconds. `None` means a non-expiring line.
    pub exp_date: Option<u32>,
    pub max_connections: Option<u32>,
    pub active_cons: Option<u32>,
    pub is_trial: Option<u32>,
}

#[derive(Debug, Clone, PartialEq, Eq)]
pub struct ServerInfo {
    pub url: Option<String>,
    pub port: Option<String>,
    pub https_port: Option<String>,
    pub server_protocol: Option<String>,
}

#[derive(Debug, Clone, PartialEq, Eq)]
pub struct AuthResponse {
    pub user_info: UserInfo,
    pub server_info: ServerInfo,
}

/// Floor division, for the days left on a line (negative once it has expired).
pub open spec fn floor_div(a: int, b: int) -> int {
    a / b
}

impl AuthResponse {
    /// The line's status reads `Active`, in any case.
    pub fn is_active(&self) -> (r: bool)
        ensures
            r == match self.user_info.status {
                Some(s) => ascii_lower(s@) == "active"@,
                None => false,
            },
    {
        match &self.user_info.status {
            Some(s) => {
                let v = chars_of(s.as_str());
                let l = lower_all(&v);
                str_eq(&l, "active")
            },
            None => false,
        }
    }

    /// Days until the line expires, if it expires at all, rounded down: an expired line
    /// reads negative.
    pub fn days_until_expiry(&self, now_unix: i64) -> (r: Option<i64>)
        requires
            self.user_info.exp_date is Some ==> i64::MIN <= self.user_info.exp_date->0 - now_unix,
        ensures
            r == match self.user_info.exp_date {
                Some(exp) => Some(floor_div(exp - now_unix, 86400) as i64),
                None => None,
            },
    {
        let exp = match self.user_info.exp_date {
            Some(e) => e,
            None => return None,
        };
        let d: i128 = exp as i128 - now_unix as i128;
        let q: i128 = if d >= 0 {
            d / 86400
        } else {
            -((-d + 86399) / 86400)
        };
        proof {
            if d < 0 {
                assert(-((-d + 86399) / 86400) == d / 86400) by (nonlinear_arith)
                    requires
                        d < 0,
                ;
            }
        }
        Some(q as i64)
    }

    /// Refuse to open more streams than the line allows: the slots left, when the panel
    /// says how many there are (none when more are in use than allowed).
    pub fn connection_slots_free(&self) -> (r: Option<u32>)
        ensures
            r == match self.user_info.max_connections {
                Some(max) => {
                    let active = match self.user_info.active_cons {
                        Some(a) => a as int,
                        None => 0,
                    };
                    Some(if max >= active { (max - active) as u32 } else { 0u32 })
                },
                None => None,
            },
    {
        let max = match self.user_info.max_connections {
            Some(m) => m,
            None => return None,
        };
        let active = match self.user_info.active_cons {
            Some(a) => a,
            None => 0,
        };
        Some(
            if max >= active {
                max - active
            } else {
                0
            },
        )
    }
}

#[derive(Debug, Clone, PartialEq, Eq)]
pub struct Category {
    pub category_id: Option<String>,
    pub category_name: Option<String>,
}

#[derive(Debug, Clone, PartialEq, Eq)]
pub struct LiveStream {
    pub stream_id: Option<u32>,
    pub name: Option<String>,
    pub stream_icon: Option<String>,
    pub epg_channel_id: Option<String>,
    pub category_id: Option<String>,
    pub num: Option<u32>,
    pub tv_archive: Option<u32>,
    pub tv_archive_duration: Option<u32>,
}

impl LiveStream {
    /// The panel archives this channel.
    pub fn has_catchup(&self) -> (r: bool)
        ensures
            r == (self.tv_archive matches Some(n) && n > 0),
    {
        match self.tv_archive {
            Some(n) => n > 0,
            None => false,
        }
    }
}

#[derive(Debug, Clone, PartialEq, Eq)]
pub struct SeriesListing {
    pub series_id: Option<u32>,
    pub name: Option<String>,
    pub cover: Option<String>,
    pub plot: Option<String>,
    pub cast: Option<String>,
    pub category_id: Option<String>,
    pub release_date: Option<String>,
    pub backdrop_path: Vec<String>,
}

/// `get_series_info` for one show: its episodes, flattened out of the seasons.
#[derive(Debug, Clone, PartialEq, Eq)]
pub struct SeriesInfo {
    pub episodes: Vec<EpisodeListing>,
}

/// One episode as a panel lists it.
#[derive(Debug, Clone, PartialEq, Eq)]
pub struct EpisodeListing {
    /// The stream id, which is what the playable URL is built from.
    pub id: Option<String>,
    pub episode_num: Option<u32>,
    /// Absent on panels that only key the season in the map; filled in from that key.
    pub season: Option<u32>,
    pub title: Option<String>,
    pub container_extension: Option<String>,
    pub info: EpisodeInfoDetail,
}

#[derive(Debug, Clone, PartialEq, Eq)]
pub struct EpisodeInfoDetail {
    pub plot: Option<String>,
    /// The still.
    pub movie_image: Option<String>,
    pub duration_secs: Option<u32>,
}

/// A `player_api.php` body checked before it is decoded: leading whitespace dropped, and
/// the classic "HTML error page with HTTP 200" or an empty body turned into a readable
/// error.
pub open spec fn spec_json_body(body: Seq<char>) -> Result<Seq<char>, Seq<char>> {
    let t = trim_start(body);
    if t.len() > 0 && t[0] == '<' {
        Err("provider returned HTML instead of JSON (bad credentials, or the panel is down)"@)
    } else if t.len() == 0 {
        Err("provider returned an empty body"@)
    } else {
        Ok(t)
    }
}

/// Check a `player_api.php` body before decoding it: the JSON text to decode, or the
/// provider error that explains why there is none.
pub fn parse_json(body: &str) -> (r: Result<String, CoreError>)
    ensures
        match r {
            Ok(t) => spec_json_body(body@) == Ok::<Seq<char>, Seq<char>>(t@),
            Err(CoreError::Provider(m)) => spec_json_body(body@) == Err::<Seq<char>, Seq<char>>(m@),
            Err(_) => false,
        },
{
    let v = chars_of(body);
    let mut a: usize = 0;
    assert(v@.skip(0) =~= v@);
    while a < v.len() && is_whitespace(v[a])
        invariant
            a <= v.len(),
            trim_start(v@) == trim_start(v@.skip(a as int)),
        decreases v.len() - a,
    {
        assert(v@.skip(a as int).drop_first() =~= v@.skip(a + 1));
        a += 1;
    }
    assert(trim_start(v@.skip(a as int)) == v@.skip(a as int));
    if a < v.len() && v[a] == '<' {
        return Err(
            CoreError::Provider(
                owned(
                    "provider returned HTML instead of JSON (bad credentials, or the panel is down)",
                ),
            ),
        );
    }
    if a == v.len() {
        return Err(CoreError::Provider(owned("provider returned an empty body")));
    }
    let t = slice(&v, a, v.len());
    assert(v@.subrange(a as int, v@.len() as int) =~= v@.skip(a as int));
    Ok(string_of(t.as_slice()))
}

pub open spec fn slash() -> spec_fn(char) -> bool {
    |c: char| c == '/'
}

fn base_without_slashes(base: &str) -> (r: Vec<char>)
    ensures
        r@ == strip_end_by(base@, slash()),
{
    let v = chars_of(base);
    let mut b = v.len();
    assert(v@.take(v@.len() as int) =~= v@);
    while b > 0 && v[b - 1] == '/'
        invariant
            b <= v.len(),
            strip_end_by(v@, slash()) == strip_end_by(v@.take(b as int), slash()),
        decreases b,
    {
        assert(v@.take(b as int).drop_last() =~= v@.take(b - 1));
        b -= 1;
    }
    assert(v@.take(v@.len() as int) =~= v@);
    let r = slice(&v, 0, b);
    assert(v@.subrange(0, b as int) =~= v@.take(b as int));
    r
}

/// The playable URL for an Xtream stream.
pub open spec fn spec_stream_url(
    base: Seq<char>,
    username: Seq<char>,
    password: Seq<char>,
    kind: MediaKind,
    stream_id: u32,
    extension: Option<Seq<char>>,
) -> Seq<char> {
    let b = strip_end_by(base, slash());
    let ext = match extension {
        Some(e) => e,
        None => "mp4"@,
    };
    match kind {
        MediaKind::Live => b + "/live/"@ + username + "/"@ + password + "/"@ + decimal(
            stream_id as nat,
        ) + ".ts"@,
        MediaKind::Movie => b + "/movie/"@ + username + "/"@ + password + "/"@ + decimal(
            stream_id as nat,
        ) + "."@ + ext,
        MediaKind::Episode => b + "/series/"@ + username + "/"@ + password + "/"@ + decimal(
            stream_id as nat,
        ) + "."@ + ext,
    }
}

/// Build the playable URL for an Xtream stream.
pub fn stream_url(
    base: &str,
    username: &str,
    password: &str,
    kind: MediaKind,
    stream_id: u32,
    extension: Option<&str>,
) -> (r: String)
    ensures
        r@ == spec_stream_url(
            base@,
            username@,
            password@,
            kind,
            stream_id,
            match extension {
                Some(e) => Some(e@),
                None => None,
            },
        ),
{
    let mut out = base_without_slashes(base);
    let segment = match kind {
        MediaKind::Live => "/live/",
        MediaKind::Movie => "/movie/",
        MediaKind::Episode => "/series/",
    };
    append_str(&mut out, segment);
    append_str(&mut out, username);
    append_str(&mut out, "/");
    append_str(&mut out, password);
    append_str(&mut out, "/");
    push_decimal(&mut out, stream_id as u64);
    match kind {
        MediaKind::Live => append_str(&mut out, ".ts"),
        _ => {
            append_str(&mut out, ".");
            match extension {
                Some(e) => append_str(&mut out, e),
                None => append_str(&mut out, "mp4"),
            }
        },
    }
    string_of(out.as_slice())
}

/// A catch-up (timeshift) URL: `start` is `YYYY-MM-DD:HH-MM`, the duration in minutes.
pub open spec fn spec_timeshift_url(
    base: Seq<char>,
    username: Seq<char>,
    password: Seq<char>,
    stream_id: u32,
    start: Seq<char>,
    duration_min: u32,
) -> Seq<char> {
    strip_end_by(base, slash()) + "/streaming/timeshift.php?username="@ + username
        + "&password="@ + password + "&stream="@ + decimal(stream_id as nat) + "&start="@ + start
        + "&duration="@ + decimal(duration_min as nat)
}

/// Build a catch-up (timeshift) URL. `start` is `YYYY-MM-DD:HH-MM`, duration in minutes.
pub fn timeshift_url(
    base: &str,
    username: &str,
    password: &str,
    stream_id: u32,
    start: &str,
    duration_min: u32,
) -> (r: String)
    ensures
        r@ == spec_timeshift_url(base@, username@, password@, stream_id, start@, duration_min),
{
    let mut out = base_without_slashes(base);
    append_str(&mut out, "/streaming/timeshift.php?username=");
    append_str(&mut out, username);
    append_str(&mut out, "&password=");
    append_str(&mut out, password);
    append_str(&mut out, "&stream=");
    push_decimal(&mut out, stream_id as u64);
    append_str(&mut out, "&start=");
    append_str(&mut out, start);
    append_str(&mut out, "&duration=");
    push_decimal(&mut out, duration_min as u64);
    string_of(out.as_slice())
}

} // verus!
