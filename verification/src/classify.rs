//! Live / movie / episode classification.
//!
//! Providers do not tell you what an entry is. Infer from URL shape, group title, and
//! name pattern, in that order of reliability.

use vstd::prelude::*;
use crate::model::MediaKind;
use crate::series::{parse_episode_marker, spec_episode_marker};
use crate::text::{ascii_lower, chars_of, contains, contains_str, ends_with, has_suffix, lower_all, slice};

verus! {

broadcast use vstd::string::group_string_axioms;

pub open spec fn movie_group_hint(g: Seq<char>) -> bool {
    contains(g, "vod"@) || contains(g, "movie"@) || contains(g, "movies"@) || contains(g, "film"@)
        || contains(g, "films"@) || contains(g, "cinema"@) || contains(g, "peliculas"@) || contains(
        g,
        "filme"@,
    ) || contains(g, "kino"@)
}

pub open spec fn series_group_hint(g: Seq<char>) -> bool {
    contains(g, "series"@) || contains(g, "serie"@) || contains(g, "tv show"@) || contains(
        g,
        "tvshow"@,
    ) || contains(g, "shows"@) || contains(g, "staffel"@) || contains(g, "temporada"@) || contains(
        g,
        "saison"@,
    )
}

pub open spec fn video_ext(p: Seq<char>) -> bool {
    ends_with(p, ".mkv"@) || ends_with(p, ".mp4"@) || ends_with(p, ".avi"@) || ends_with(p, ".mov"@)
        || ends_with(p, ".m4v"@) || ends_with(p, ".flv"@) || ends_with(p, ".wmv"@) || ends_with(
        p,
        ".mpg"@,
    )
}

/// Where the path of a URL ends: at the first `?` or `#`, or the end.
pub open spec fn path_end(s: Seq<char>) -> int
    decreases s.len(),
{
    if s.len() == 0 || s[0] == '?' || s[0] == '#' {
        0
    } else {
        1 + path_end(s.drop_first())
    }
}

pub proof fn lemma_path_end(s: Seq<char>, i: int)
    requires
        0 <= i <= s.len(),
        forall|k: int| 0 <= k < i ==> s[k] != '?' && s[k] != '#',
        i == s.len() || s[i] == '?' || s[i] == '#',
    ensures
        path_end(s) == i,
    decreases i,
{
    if i > 0 {
        lemma_path_end(s.drop_first(), i - 1);
    }
}

/// What an entry is, from the strongest evidence present: an Xtream path segment in the
/// URL, then an episode marker in the name, then hints in the group title, then a video
/// file extension on the URL's path; live when nothing says otherwise.
pub open spec fn spec_classify(name: Seq<char>, url: Seq<char>, group: Option<Seq<char>>) -> MediaKind {
    let lu = ascii_lower(url);
    if contains(lu, "/series/"@) {
        MediaKind::Episode
    } else if contains(lu, "/movie/"@) || contains(lu, "/movies/"@) {
        MediaKind::Movie
    } else if contains(lu, "/live/"@) {
        MediaKind::Live
    } else if spec_episode_marker(name) is Some {
        MediaKind::Episode
    } else if group is Some && series_group_hint(ascii_lower(group->0)) {
        MediaKind::Episode
    } else if group is Some && movie_group_hint(ascii_lower(group->0)) {
        MediaKind::Movie
    } else if video_ext(lu.take(path_end(lu))) {
        MediaKind::Movie
    } else {
        MediaKind::Live
    }
}

fn movie_hint(g: &Vec<char>) -> (r: bool)
    ensures
        r == movie_group_hint(g@),
{
    contains_str(g, "vod") || contains_str(g, "movie") || contains_str(g, "movies")
        || contains_str(g, "film") || contains_str(g, "films") || contains_str(g, "cinema")
        || contains_str(g, "peliculas") || contains_str(g, "filme") || contains_str(g, "kino")
}

fn series_hint(g: &Vec<char>) -> (r: bool)
    ensures
        r == series_group_hint(g@),
{
    contains_str(g, "series") || contains_str(g, "serie") || contains_str(g, "tv show")
        || contains_str(g, "tvshow") || contains_str(g, "shows") || contains_str(g, "staffel")
        || contains_str(g, "temporada") || contains_str(g, "saison")
}

fn has_video_ext(p: &Vec<char>) -> (r: bool)
    ensures
        r == video_ext(p@),
{
    has_suffix(p, ".mkv") || has_suffix(p, ".mp4") || has_suffix(p, ".avi") || has_suffix(p, ".mov")
        || has_suffix(p, ".m4v") || has_suffix(p, ".flv") || has_suffix(p, ".wmv") || has_suffix(
        p,
        ".mpg",
    )
}

pub fn classify(name: &str, url: &str, group: Option<&str>) -> (r: MediaKind)
    ensures
        r == spec_classify(
            name@,
            url@,
            match group {
                Some(g) => Some(g@),
                None => None,
            },
        ),
{
    let uv = chars_of(url);
    let lu = lower_all(&uv);
    if contains_str(&lu, "/series/") {
        return MediaKind::Episode;
    }
    if contains_str(&lu, "/movie/") || contains_str(&lu, "/movies/") {
        return MediaKind::Movie;
    }
    if contains_str(&lu, "/live/") {
        return MediaKind::Live;
    }
    if parse_episode_marker(name).is_some() {
        return MediaKind::Episode;
    }
    if let Some(g) = group {
        let gv = chars_of(g);
        let gl = lower_all(&gv);
        if series_hint(&gl) {
            return MediaKind::Episode;
        }
        if movie_hint(&gl) {
            return MediaKind::Movie;
        }
    }
    let mut end: usize = 0;
    while end < lu.len() && lu[end] != '?' && lu[end] != '#'
        invariant
            end <= lu.len(),
            forall|k: int| 0 <= k < end ==> lu@[k] != '?' && lu@[k] != '#',
        decreases lu.len() - end,
    {
        end += 1;
    }
    proof {
        lemma_path_end(lu@, end as int);
    }
    let path = slice(&lu, 0, end);
    assert(lu@.subrange(0, end as int) =~= lu@.take(end as int));
    if has_video_ext(&path) {
        return MediaKind::Movie;
    }
    MediaKind::Live
}

} // verus!
