//! Metadata lookups: the query a library title makes, and the people a title credits.
//!
//! Scoring candidates against a query is fractional arithmetic and lives with the
//! caller; what is decided here is the query itself and the order credits are shown in.

use vstd::prelude::*;
use crate::text::{ascii_lower, chars_of, lower_all, owned, seq_eq};
use crate::title::{clean_movie_title, spec_clean_title};

verus! {

broadcast use vstd::string::group_string_axioms;

/// What we know about the local title we are trying to identify.
#[derive(Debug, Clone, PartialEq, Eq)]
pub struct Query {
    pub title: String,
    pub year: Option<i32>,
}

impl Query {
    pub fn new(title: &str, year: Option<i32>) -> (r: Self)
        ensures
            r.title@ == title@,
            r.year == year,
    {
        Query { title: owned(title), year }
    }

    /// Build a query from a raw VOD stream name, with the scene-name cleaner.
    pub fn from_stream_name(raw: &str) -> (r: Self)
        ensures
            r.title@ == spec_clean_title(raw@).0,
            r.year == spec_clean_title(raw@).1,
    {
        let clean = clean_movie_title(raw);
        Query { title: clean.title, year: clean.year }
    }
}

/// A person on a title's cast or crew list.
#[derive(Debug, Clone, PartialEq, Eq)]
pub struct Person {
    pub tmdb_id: i64,
    pub name: String,
    pub profile_path: Option<String>,
}

/// One person's involvement in one title.
#[derive(Debug, Clone, PartialEq, Eq)]
pub struct Credit {
    pub person: Person,
    /// Character name for cast, job title for crew.
    pub role: Option<String>,
    pub is_cast: bool,
    /// Billing position; lower is more prominent.
    pub order: u16,
}

/// Credit `i` is billed before credit `j`: a lower billing position, or the same one and
/// listed earlier.
pub open spec fn billed_before(cs: Seq<Credit>, i: int, j: int) -> bool {
    cs[i].order < cs[j].order || (cs[i].order == cs[j].order && i < j)
}

/// `r` lists, in billing order, exactly the positions of the credits that `keep` holds
/// for, each once.
pub open spec fn in_billing_order(cs: Seq<Credit>, keep: spec_fn(Credit) -> bool, r: Seq<usize>) -> bool {
    &&& forall|k: int| 0 <= k < r.len() ==> (#[trigger] r[k]) < cs.len() && keep(cs[r[k] as int])
    &&& forall|i: int| 0 <= i < cs.len() && keep(cs[i]) ==> r.contains(i as usize)
    &&& forall|a: int, b: int| 0 <= a < b < r.len() ==> billed_before(cs, #[trigger] r[a] as int, #[trigger] r[b] as int)
}

pub open spec fn is_cast_credit() -> spec_fn(Credit) -> bool {
    |c: Credit| c.is_cast
}

/// A crew credit whose job is `job`, ignoring ASCII case.
pub open spec fn has_job(job: Seq<char>) -> spec_fn(Credit) -> bool {
    |c: Credit|
        !c.is_cast && match c.role {
            Some(r) => ascii_lower(r@) == ascii_lower(job),
            None => false,
        }
}

/// Insert position `i` into `out`, which lists earlier positions in billing order.
fn insert_billed(cs: &[Credit], out: &mut Vec<usize>, i: usize, keep: Ghost<spec_fn(Credit) -> bool>)
    requires
        i < cs@.len(),
        keep@(cs@[i as int]),
        forall|k: int| 0 <= k < old(out)@.len() ==> (#[trigger] old(out)@[k]) < i && keep@(cs@[old(out)@[k] as int]),
        forall|a: int, b: int| 0 <= a < b < old(out)@.len() ==> billed_before(cs@, #[trigger] old(out)@[a] as int, #[trigger] old(out)@[b] as int),
    ensures
        final(out)@.len() == old(out)@.len() + 1,
        forall|k: int| 0 <= k < final(out)@.len() ==> (#[trigger] final(out)@[k]) <= i && keep@(cs@[final(out)@[k] as int]),
        forall|a: int, b: int| 0 <= a < b < final(out)@.len() ==> billed_before(cs@, #[trigger] final(out)@[a] as int, #[trigger] final(out)@[b] as int),
        forall|x: usize| #[trigger] final(out)@.contains(x) <==> (old(out)@.contains(x) || x == i),
{
    let mut pos = out.len();
    while pos > 0 && cs[out[pos - 1]].order > cs[i].order
        invariant
            pos <= out@.len(),
            out@ == old(out)@,
            i < cs@.len(),
            forall|k: int| 0 <= k < out@.len() ==> (#[trigger] out@[k]) < i,
            forall|q: int| pos <= q < out@.len() ==> cs@[(#[trigger] out@[q]) as int].order > cs@[i as int].order,
        decreases pos,
    {
        pos -= 1;
    }
    let ghost before = out@;
    proof {
        if pos > 0 {
            assert(cs@[before[pos - 1] as int].order <= cs@[i as int].order);
            assert forall|q: int| 0 <= q < pos implies cs@[(#[trigger] before[q]) as int].order <= cs@[i as int].order by {
                if q < pos - 1 {
                    assert(billed_before(cs@, before[q] as int, before[pos - 1] as int));
                }
            }
        }
    }
    out.insert(pos, i);
    assert(out@ == before.insert(pos as int, i));
    assert forall|a: int, b: int| 0 <= a < b < out@.len() implies billed_before(cs@, #[trigger] out@[a] as int, #[trigger] out@[b] as int) by {
        if b < pos {
            assert(out@[a] == before[a] && out@[b] == before[b]);
        } else if b == pos {
            assert(out@[a] == before[a]);
        } else if a == pos {
            assert(out@[b] == before[b - 1]);
        } else if a < pos {
            assert(out@[a] == before[a] && out@[b] == before[b - 1]);
        } else {
            assert(out@[a] == before[a - 1] && out@[b] == before[b - 1]);
        }
    }
    assert(before == old(out)@);
    assert forall|x: usize| #[trigger] out@.contains(x) <==> (before.contains(x) || x == i) by {
        if out@.contains(x) {
            let k = choose|k: int| 0 <= k < out@.len() && out@[k] == x;
            if k < pos {
                assert(before[k] == x);
            } else if k > pos {
                assert(before[k - 1] == x);
            }
        }
        if before.contains(x) {
            let k = choose|k: int| 0 <= k < before.len() && before[k] == x;
            if k < pos {
                assert(out@[k] == x);
            } else {
                assert(out@[k + 1] == x);
            }
        }
        if x == i {
            assert(out@[pos as int] == x);
        }
    }
}

fn credits_in_billing_order(cs: &[Credit], job: Option<&str>) -> (r: Vec<usize>)
    ensures
        in_billing_order(
            cs@,
            match job {
                Some(j) => has_job(j@),
                None => is_cast_credit(),
            },
            r@,
        ),
{
    let ghost keep = match job {
        Some(j) => has_job(j@),
        None => is_cast_credit(),
    };
    let job_lower: Vec<char> = match job {
        Some(j) => lower_all(&chars_of(j)),
        None => Vec::new(),
    };
    let mut out: Vec<usize> = Vec::new();
    let mut i: usize = 0;
    while i < cs.len()
        invariant
            i <= cs@.len(),
            keep == (match job {
                Some(j) => has_job(j@),
                None => is_cast_credit(),
            }),
            job matches Some(j) ==> job_lower@ == ascii_lower(j@),
            forall|k: int| 0 <= k < out@.len() ==> (#[trigger] out@[k]) < i && keep(cs@[out@[k] as int]),
            forall|x: int| 0 <= x < i && keep(cs@[x]) ==> out@.contains(x as usize),
            forall|a: int, b: int| 0 <= a < b < out@.len() ==> billed_before(cs@, #[trigger] out@[a] as int, #[trigger] out@[b] as int),
        decreases cs@.len() - i,
    {
        let c = &cs[i];
        let wanted = match job {
            None => c.is_cast,
            Some(_) => !c.is_cast && match &c.role {
                Some(role) => {
                    let rl = lower_all(&chars_of(role.as_str()));
                    seq_eq(&rl, &job_lower)
                },
                None => false,
            },
        };
        assert(wanted == keep(cs@[i as int]));
        if wanted {
            let ghost before = out@;
            insert_billed(cs, &mut out, i, Ghost(keep));
            assert forall|x: int| 0 <= x < i + 1 && keep(cs@[x]) implies out@.contains(x as usize) by {
                if x < i {
                    assert(before.contains(x as usize));
                }
            }
        }
        i += 1;
    }
    out
}

/// The billed cast, most prominent first — what a detail page lists — as positions in
/// `credits`.
pub fn cast(credits: &[Credit]) -> (r: Vec<usize>)
    ensures
        in_billing_order(credits@, is_cast_credit(), r@),
{
    credits_in_billing_order(credits, None)
}

/// Everyone credited with a given job (ignoring ASCII case), in billing order, as
/// positions in `credits`.
pub fn crew_by_job(credits: &[Credit], job: &str) -> (r: Vec<usize>)
    ensures
        in_billing_order(credits@, has_job(job@), r@),
{
    credits_in_billing_order(credits, Some(job))
}

} // verus!
