//! Skip markers: intro, recap, and credits regions within an episode, and where a
//! marker came from.

use vstd::prelude::*;
use crate::text::{append, ascii_lower, chars_of, lower_all, slice, str_eq};
use crate::words::{alnum_pieces, not_alnum, split_by};

verus! {

broadcast use vstd::string::group_string_axioms;

#[derive(Debug, Clone, Copy, PartialEq, Eq, Hash)]
pub enum MarkerKind {
    Intro,
    Recap,
    Credits,
}

pub open spec fn kind_name(k: MarkerKind) -> Seq<char> {
    match k {
        MarkerKind::Intro => "intro"@,
        MarkerKind::Recap => "recap"@,
        MarkerKind::Credits => "credits"@,
    }
}

impl MarkerKind {
    pub fn as_str(self) -> (r: &'static str)
        ensures
            r@ == kind_name(self),
    {
        match self {
            MarkerKind::Intro => "intro",
            MarkerKind::Recap => "recap",
            MarkerKind::Credits => "credits",
        }
    }

    pub fn parse(s: &str) -> (r: Option<Self>)
        ensures
            r == if s@ == "intro"@ {
                Some(MarkerKind::Intro)
            } else if s@ == "recap"@ {
                Some(MarkerKind::Recap)
            } else if s@ == "credits"@ {
                Some(MarkerKind::Credits)
            } else {
                None
            },
    {
        let v = chars_of(s);
        if str_eq(&v, "intro") {
            Some(MarkerKind::Intro)
        } else if str_eq(&v, "recap") {
            Some(MarkerKind::Recap)
        } else if str_eq(&v, "credits") {
            Some(MarkerKind::Credits)
        } else {
            None
        }
    }

    /// The button label the UI shows.
    pub fn label(self) -> (r: &'static str)
        ensures
            r@ == match self {
                MarkerKind::Intro => "Skip Intro"@,
                MarkerKind::Recap => "Skip Recap"@,
                MarkerKind::Credits => "Skip Credits"@,
            },
    {
        match self {
            MarkerKind::Intro => "Skip Intro",
            MarkerKind::Recap => "Skip Recap",
            MarkerKind::Credits => "Skip Credits",
        }
    }
}

/// Where a marker came from, so a chapter-derived marker is never overwritten by a
/// fuzzier source.
#[derive(Debug, Clone, Copy, PartialEq, Eq)]
pub enum MarkerSource {
    Chapters,
    User,
    Learned,
}

pub open spec fn source_name(s: MarkerSource) -> Seq<char> {
    match s {
        MarkerSource::Chapters => "chapters"@,
        MarkerSource::User => "user"@,
        MarkerSource::Learned => "learned"@,
    }
}

impl MarkerSource {
    pub fn as_str(self) -> (r: &'static str)
        ensures
            r@ == source_name(self),
    {
        match self {
            MarkerSource::Chapters => "chapters",
            MarkerSource::User => "user",
            MarkerSource::Learned => "learned",
        }
    }

    pub fn parse(s: &str) -> (r: Option<Self>)
        ensures
            r == if s@ == "chapters"@ {
                Some(MarkerSource::Chapters)
            } else if s@ == "user"@ {
                Some(MarkerSource::User)
            } else if s@ == "learned"@ {
                Some(MarkerSource::Learned)
            } else {
                None
            },
    {
        let v = chars_of(s);
        if str_eq(&v, "chapters") {
            Some(MarkerSource::Chapters)
        } else if str_eq(&v, "user") {
            Some(MarkerSource::User)
        } else if str_eq(&v, "learned") {
            Some(MarkerSource::Learned)
        } else {
            None
        }
    }

    /// Higher wins when two sources describe the same region.
    pub fn trust(self) -> (r: u8)
        ensures
            r == match self {
                MarkerSource::Chapters => 3u8,
                MarkerSource::User => 2u8,
                MarkerSource::Learned => 1u8,
            },
    {
        match self {
            MarkerSource::Chapters => 3,
            MarkerSource::User => 2,
            MarkerSource::Learned => 1,
        }
    }
}

/// Every kind's name reads back as that kind.
pub proof fn lemma_kind_round_trips(k: MarkerKind)
    ensures
        (if kind_name(k) == "intro"@ {
            Some(MarkerKind::Intro)
        } else if kind_name(k) == "recap"@ {
            Some(MarkerKind::Recap)
        } else if kind_name(k) == "credits"@ {
            Some(MarkerKind::Credits)
        } else {
            None
        }) == Some(k),
{
    reveal_strlit("intro");
    reveal_strlit("recap");
    reveal_strlit("credits");
    assert("intro"@ != "recap"@) by {
        assert("intro"@[0] != "recap"@[0]);
    }
    assert("intro"@ != "credits"@) by {
        assert("intro"@[0] != "credits"@[0]);
    }
    assert("recap"@ != "credits"@) by {
        assert("recap"@[0] != "credits"@[0]);
    }
}

/// Every source's name reads back as that source.
pub proof fn lemma_source_round_trips(s: MarkerSource)
    ensures
        (if source_name(s) == "chapters"@ {
            Some(MarkerSource::Chapters)
        } else if source_name(s) == "user"@ {
            Some(MarkerSource::User)
        } else if source_name(s) == "learned"@ {
            Some(MarkerSource::Learned)
        } else {
            None
        }) == Some(s),
{
    reveal_strlit("chapters");
    reveal_strlit("user");
    reveal_strlit("learned");
    assert("chapters"@ != "user"@) by {
        assert("chapters"@[0] != "user"@[0]);
    }
    assert("chapters"@ != "learned"@) by {
        assert("chapters"@[0] != "learned"@[0]);
    }
    assert("user"@ != "learned"@) by {
        assert("user"@[0] != "learned"@[0]);
    }
}

// ---------------------------------------------------------------------------------------
// Reading a chapter's title.
// ---------------------------------------------------------------------------------------

/// The views of a list of string slices.
pub open spec fn strs_view(v: Seq<&str>) -> Seq<Seq<char>> {
    v.map_values(|s: &str| s@)
}

/// Whole words that name each kind of region. Whole words, because matching on
/// substrings would read "Introduction to the Case", a real episode title, as an intro.
pub open spec fn intro_words() -> Seq<Seq<char>> {
    seq!["intro"@, "opening"@, "op"@, "titles"@, "theme"@, "maintitles"@]
}

pub open spec fn recap_words() -> Seq<Seq<char>> {
    seq!["recap"@, "previously"@, "previouslyon"@, "resume"@]
}

pub open spec fn credits_words() -> Seq<Seq<char>> {
    seq!["credits"@, "endcredits"@, "ending"@, "ed"@, "outro"@, "closing"@]
}

/// The words of a title: its runs of letters and digits, ASCII-lower-cased.
pub open spec fn title_words(pieces: Seq<Seq<char>>) -> Seq<Seq<char>>
    decreases pieces.len(),
{
    if pieces.len() == 0 {
        Seq::empty()
    } else {
        let rest = title_words(pieces.drop_last());
        if pieces.last().len() > 0 {
            rest.push(ascii_lower(pieces.last()))
        } else {
            rest
        }
    }
}

/// The words run together, so "Previously On" also reads as "previouslyon".
pub open spec fn run_together(ws: Seq<Seq<char>>) -> Seq<char>
    decreases ws.len(),
{
    if ws.len() == 0 {
        Seq::empty()
    } else {
        run_together(ws.drop_last()) + ws.last()
    }
}

/// One of the words, or all of them run together, is in `set`.
pub open spec fn names_any(ws: Seq<Seq<char>>, set: Seq<Seq<char>>) -> bool {
    (exists|i: int| 0 <= i < ws.len() && set.contains(#[trigger] ws[i])) || set.contains(
        run_together(ws),
    )
}

/// What a chapter titled `title` marks: a recap before an intro before credits, since
/// "Previously / Opening" style titles read as a recap; nothing for a title with no
/// words or none of the known ones.
pub open spec fn spec_classify_title(title: Seq<char>) -> Option<MarkerKind> {
    let ws = title_words(split_by(title, not_alnum()));
    if ws.len() == 0 {
        None
    } else if names_any(ws, recap_words()) {
        Some(MarkerKind::Recap)
    } else if names_any(ws, intro_words()) {
        Some(MarkerKind::Intro)
    } else if names_any(ws, credits_words()) {
        Some(MarkerKind::Credits)
    } else {
        None
    }
}

fn word_set(kind: MarkerKind) -> (r: Vec<&'static str>)
    ensures
        strs_view(r@) == match kind {
            MarkerKind::Intro => intro_words(),
            MarkerKind::Recap => recap_words(),
            MarkerKind::Credits => credits_words(),
        },
{
    let mut v: Vec<&'static str> = Vec::new();
    match kind {
        MarkerKind::Intro => {
            v.push("intro");
            v.push("opening");
            v.push("op");
            v.push("titles");
            v.push("theme");
            v.push("maintitles");
        },
        MarkerKind::Recap => {
            v.push("recap");
            v.push("previously");
            v.push("previouslyon");
            v.push("resume");
        },
        MarkerKind::Credits => {
            v.push("credits");
            v.push("endcredits");
            v.push("ending");
            v.push("ed");
            v.push("outro");
            v.push("closing");
        },
    }
    assert(strs_view(v@) =~= match kind {
        MarkerKind::Intro => intro_words(),
        MarkerKind::Recap => recap_words(),
        MarkerKind::Credits => credits_words(),
    });
    v
}

fn in_set(w: &Vec<char>, set: &Vec<&'static str>) -> (r: bool)
    ensures
        r == strs_view(set@).contains(w@),
{
    let mut i: usize = 0;
    while i < set.len()
        invariant
            i <= set.len(),
            forall|j: int| 0 <= j < i ==> strs_view(set@)[j] != w@,
        decreases set.len() - i,
    {
        if str_eq(w, set[i]) {
            assert(strs_view(set@)[i as int] == w@);
            return true;
        }
        i += 1;
    }
    false
}

pub open spec fn set_of(kind: MarkerKind) -> Seq<Seq<char>> {
    match kind {
        MarkerKind::Intro => intro_words(),
        MarkerKind::Recap => recap_words(),
        MarkerKind::Credits => credits_words(),
    }
}

pub open spec fn vecs_view(v: Seq<Vec<char>>) -> Seq<Seq<char>> {
    v.map_values(|w: Vec<char>| w@)
}

fn names_any_of(ws: &Vec<Vec<char>>, joined: &Vec<char>, kind: MarkerKind) -> (r: bool)
    requires
        joined@ == run_together(vecs_view(ws@)),
    ensures
        r == names_any(vecs_view(ws@), set_of(kind)),
{
    let set = word_set(kind);
    let ghost words = vecs_view(ws@);
    let mut i: usize = 0;
    while i < ws.len()
        invariant
            i <= ws.len(),
            words == vecs_view(ws@),
            strs_view(set@) == set_of(kind),
            forall|j: int| 0 <= j < i ==> !set_of(kind).contains(#[trigger] words[j]),
        decreases ws.len() - i,
    {
        if in_set(&ws[i], &set) {
            assert(words[i as int] == ws@[i as int]@);
            return true;
        }
        i += 1;
    }
    in_set(joined, &set)
}

/// What kind of region a chapter titled `title` marks, if any.
pub fn classify_title(title: &str) -> (r: Option<MarkerKind>)
    ensures
        r == spec_classify_title(title@),
{
    let v = chars_of(title);
    let ps = alnum_pieces(&v);
    let ghost pieces = split_by(v@, not_alnum());
    let mut ws: Vec<Vec<char>> = Vec::new();
    let mut joined: Vec<char> = Vec::new();
    let mut k: usize = 0;
    while k < ps.len()
        invariant
            k <= ps.len() == pieces.len(),
            pieces == split_by(v@, not_alnum()),
            forall|j: int|
                0 <= j < ps@.len() ==> {
                    &&& (#[trigger] ps@[j]).0 <= ps@[j].1 <= v.len()
                    &&& v@.subrange(ps@[j].0 as int, ps@[j].1 as int) == pieces[j]
                },
            vecs_view(ws@) == title_words(pieces.take(k as int)),
            joined@ == run_together(vecs_view(ws@)),
        decreases ps.len() - k,
    {
        let (a, b) = ps[k];
        assert(pieces.take(k + 1).drop_last() =~= pieces.take(k as int));
        assert(pieces.take(k + 1).last() == pieces[k as int]);
        if a < b {
            let w = lower_all(&slice(&v, a, b));
            let ghost before = vecs_view(ws@);
            append(&mut joined, &w);
            ws.push(w);
            assert(vecs_view(ws@) =~= before.push(w@));
            assert(vecs_view(ws@).drop_last() =~= before);
        }
        k += 1;
    }
    assert(pieces.take(pieces.len() as int) =~= pieces);
    if ws.len() == 0 {
        None
    } else if names_any_of(&ws, &joined, MarkerKind::Recap) {
        Some(MarkerKind::Recap)
    } else if names_any_of(&ws, &joined, MarkerKind::Intro) {
        Some(MarkerKind::Intro)
    } else if names_any_of(&ws, &joined, MarkerKind::Credits) {
        Some(MarkerKind::Credits)
    } else {
        None
    }
}

} // verus!
