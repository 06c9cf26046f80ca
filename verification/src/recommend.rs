//! The vocabulary of recommendations: what can be recommended, why, and how a genre
//! reads on a rail. The scoring that picks titles is fractional arithmetic and lives
//! with the caller.

use vstd::prelude::*;
use crate::pattern::{to_lowercase, to_uppercase, unicode_lowercase, unicode_uppercase};
use crate::text::{
    append, append_str, chars_of, owned, push_signed, signed_decimal, slice, split_bounds, split_on,
    string_of, trim, trimmed,
};
use crate::words::join;

verus! {

broadcast use vstd::string::group_string_axioms;

/// The two things that can be recommended. Channels cannot: live TV is a schedule
/// rather than a catalogue.
#[derive(Debug, Clone, Copy, PartialEq, Eq, Hash, PartialOrd, Ord)]
pub enum Kind {
    Movie,
    Series,
}

impl Kind {
    pub fn as_str(self) -> (r: &'static str)
        ensures
            r@ == match self {
                Kind::Movie => "movie"@,
                Kind::Series => "series"@,
            },
    {
        match self {
            Kind::Movie => "movie",
            Kind::Series => "series",
        }
    }
}

/// Why something was recommended, in the viewer's terms.
#[derive(Debug, Clone, PartialEq, Eq)]
pub enum Reason {
    /// Shares its strongest genre with something they watched.
    Because { title: String },
    /// Matches their taste in genre, without one title standing out.
    Genre { genre: String },
    /// Rated highly, in a library they have not told us much about yet.
    HighlyRated,
    /// Recently added.
    JustAdded,
}

/// The line a rail puts under a poster.
pub open spec fn reason_label(r: Reason) -> Seq<char> {
    match r {
        Reason::Because { title } => "Because you watched "@ + title@,
        Reason::Genre { genre } => "More "@ + genre@,
        Reason::HighlyRated => "Highly rated"@,
        Reason::JustAdded => "Just added"@,
    }
}

impl Reason {
    /// The line a rail puts under a poster.
    pub fn label(&self) -> (r: String)
        ensures
            r@ == reason_label(*self),
    {
        match self {
            Reason::Because { title } => {
                let mut out: Vec<char> = Vec::new();
                append_str(&mut out, "Because you watched ");
                append_str(&mut out, title.as_str());
                string_of(out.as_slice())
            },
            Reason::Genre { genre } => {
                let mut out: Vec<char> = Vec::new();
                append_str(&mut out, "More ");
                append_str(&mut out, genre.as_str());
                string_of(out.as_slice())
            },
            Reason::HighlyRated => owned("Highly rated"),
            Reason::JustAdded => owned("Just added"),
        }
    }
}

/// A word with its first character upper-cased (which may give more than one).
pub open spec fn capitalised(w: Seq<char>) -> Seq<char> {
    if w.len() == 0 {
        w
    } else {
        unicode_uppercase(seq![w[0]]) + w.drop_first()
    }
}

/// A normalised genre as a rail prints it: each space-separated word capitalised.
pub open spec fn genre_display(g: Seq<char>) -> Seq<char> {
    join(split_on(g, ' ').map_values(|w: Seq<char>| capitalised(w)), " "@)
}

/// Print a normalised (lower-case) genre for a rail: `science fiction` reads
/// `Science Fiction`.
pub fn display_genre(normalised: &str) -> (r: String)
    ensures
        r@ == genre_display(normalised@),
{
    let v = chars_of(normalised);
    let parts = split_bounds(&v, 0, v.len(), ' ');
    assert(v@.subrange(0, v@.len() as int) =~= v@);
    let ghost pieces = split_on(v@, ' ');
    let ghost caps = pieces.map_values(|w: Seq<char>| capitalised(w));
    let mut out: Vec<char> = Vec::new();
    let mut k: usize = 0;
    while k < parts.len()
        invariant
            k <= parts.len() == pieces.len(),
            pieces == split_on(v@, ' '),
            caps == pieces.map_values(|w: Seq<char>| capitalised(w)),
            forall|j: int|
                0 <= j < parts@.len() ==> {
                    &&& (#[trigger] parts@[j]).0 <= parts@[j].1 <= v.len()
                    &&& v@.subrange(parts@[j].0 as int, parts@[j].1 as int) == pieces[j]
                },
            out@ == join(caps.take(k as int), " "@),
        decreases parts.len() - k,
    {
        let (a, b) = parts[k];
        assert(caps.take(k + 1).drop_last() =~= caps.take(k as int));
        assert(caps.take(k + 1).last() == capitalised(pieces[k as int]));
        let ghost before = out@;
        if k > 0 {
            out.push(' ');
        }
        if a < b {
            let first = slice(&v, a, a + 1);
            let fs = string_of(first.as_slice());
            let up = to_uppercase(fs.as_str());
            append_str(&mut out, up.as_str());
            let rest = slice(&v, a + 1, b);
            append(&mut out, &rest);
            assert(first@ =~= seq![pieces[k as int][0]]);
            assert(rest@ =~= pieces[k as int].drop_first());
        }
        proof {
            if k > 0 {
                assert(join(caps.take(k + 1), " "@) == join(caps.take(k as int), " "@) + " "@
                    + caps[k as int]);
            } else {
                assert(join(caps.take(1), " "@) == caps[0]);
            }
            reveal_strlit(" ");
        }
        assert(out@ =~= join(caps.take(k + 1), " "@));
        k += 1;
    }
    assert(caps.take(caps.len() as int) =~= caps);
    string_of(out.as_slice())
}

/// The heading a recommendation rail gets: named after the viewer's own strongest
/// genres where there is a history to name them from.
pub open spec fn rail_heading(personalised: bool, top_genres: Seq<String>) -> Seq<char> {
    if !personalised {
        "Worth a look"@
    } else if top_genres.len() == 0 {
        "Recommended for you"@
    } else if top_genres.len() == 1 {
        "More "@ + genre_display(top_genres[0]@)
    } else {
        "More "@ + genre_display(top_genres[0]@) + " and "@ + genre_display(top_genres[1]@)
    }
}

/// The heading for a rail of picks. `personalised` says whether the picks came from a
/// known taste; `top_genres` are that taste's genres, strongest first. A cold start
/// never claims to know the viewer, whatever genres it is handed.
pub fn heading(personalised: bool, top_genres: &[String]) -> (r: String)
    ensures
        r@ == rail_heading(personalised, top_genres@),
{
    if !personalised {
        return owned("Worth a look");
    }
    if top_genres.len() == 0 {
        return owned("Recommended for you");
    }
    let mut out: Vec<char> = Vec::new();
    append_str(&mut out, "More ");
    let first = display_genre(top_genres[0].as_str());
    append_str(&mut out, first.as_str());
    if top_genres.len() >= 2 {
        append_str(&mut out, " and ");
        let second = display_genre(top_genres[1].as_str());
        append_str(&mut out, second.as_str());
    }
    string_of(out.as_slice())
}

pub open spec fn kind_name(k: Kind) -> Seq<char> {
    match k {
        Kind::Movie => "movie"@,
        Kind::Series => "series"@,
    }
}

/// How a rail keys an item, the same way it keys progress: `movie:12`, `series:7`.
pub fn key(kind: Kind, id: i64) -> (r: String)
    ensures
        r@ == kind_name(kind) + ":"@ + signed_decimal(id as int),
{
    let mut out: Vec<char> = Vec::new();
    append_str(&mut out, kind.as_str());
    append_str(&mut out, ":");
    push_signed(&mut out, id);
    string_of(out.as_slice())
}

/// A genre as matching sees it: the same one arrives as "Sci-Fi", "sci-fi" and
/// "SCI-FI ", so it is trimmed and lower-cased.
pub fn normalise(genre: &str) -> (r: String)
    ensures
        r@ == unicode_lowercase(trim(genre@)),
{
    let v = chars_of(genre);
    let t = trimmed(&v);
    let ts = string_of(t.as_slice());
    to_lowercase(ts.as_str())
}

/// The decade a year falls in: 1994 is in the 1990s, -5 in the -10s.
pub fn decade(year: i32) -> (r: i32)
    requires
        i32::MIN <= year - year % 10,
    ensures
        r == year - year % 10,
{
    let shifted: i64 = year as i64 + 10_000_000_000;
    let rem = (shifted % 10) as i32;
    assert(shifted % 10 == year % 10) by {
        vstd::arithmetic::div_mod::lemma_mod_multiples_vanish(1_000_000_000, year as int, 10);
    }
    year - rem
}

} // verus!
