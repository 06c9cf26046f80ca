//! Version numbers, and what a change does to them.
//!
//! The third number moves for a bug fix, the middle one for a feature. That decision
//! is derived from conventional commit subjects (`fix(settings): …`, `feat(dvr): …`).

use vstd::prelude::*;
use vstd::std_specs::cmp::{PartialOrdSpec, PartialOrdSpecImpl};
use crate::text::{
    all_digits, ascii_lower, chars_of, decimal, digits_value, first_index, has_char,
    is_ascii_alpha, is_ascii_digit, lemma_decimal_roundtrip, lemma_first_index,
    lemma_split_plain, lemma_split_sep_then_plain, lower_all, parse_digits, push_decimal,
    seq_eq, slice, split_bounds, split_on, string_of, trim, trim_bounds, trim_end,
    trim_start, find_char_from,
};

verus! {

broadcast use vstd::string::group_string_axioms;

/// A plain `major.minor.patch` triple, ordered field by field.
#[derive(Debug, Clone, Copy, PartialEq, Eq, Ord, Hash)]
pub struct Version {
    pub major: u32,
    pub minor: u32,
    pub patch: u32,
}

/// `a` comes before `b`: a smaller major number, or the same major and a smaller minor,
/// or both the same and a smaller patch.
pub open spec fn version_before(a: Version, b: Version) -> bool {
    a.major < b.major || (a.major == b.major && (a.minor < b.minor || (a.minor == b.minor
        && a.patch < b.patch)))
}

/// How two versions compare, by their numbers read as numbers.
pub open spec fn version_ordering(a: Version, b: Version) -> core::cmp::Ordering {
    if version_before(a, b) {
        core::cmp::Ordering::Less
    } else if a == b {
        core::cmp::Ordering::Equal
    } else {
        core::cmp::Ordering::Greater
    }
}

impl PartialOrd for Version {
    fn partial_cmp(&self, other: &Version) -> (r: Option<core::cmp::Ordering>) {
        if self.major < other.major || (self.major == other.major && (self.minor < other.minor
            || (self.minor == other.minor && self.patch < other.patch))) {
            Some(core::cmp::Ordering::Less)
        } else if self.major == other.major && self.minor == other.minor && self.patch
            == other.patch {
            Some(core::cmp::Ordering::Equal)
        } else {
            Some(core::cmp::Ordering::Greater)
        }
    }
}

impl PartialOrdSpecImpl for Version {
    open spec fn obeys_partial_cmp_spec() -> bool {
        true
    }

    open spec fn partial_cmp_spec(&self, other: &Version) -> Option<core::cmp::Ordering> {
        Some(version_ordering(*self, *other))
    }
}

/// How far a release moves the number. There is deliberately no `Major`.
#[derive(Debug, Clone, Copy, PartialEq, Eq)]
pub enum Bump {
    Minor,
    Patch,
}

/// The text a version is read from: trimmed, and without one leading `v` or `V`.
pub open spec fn version_text(raw: Seq<char>) -> Seq<char> {
    let t = trim(raw);
    if t.len() > 0 && (t[0] == 'v' || t[0] == 'V') {
        t.drop_first()
    } else {
        t
    }
}

/// Digits only, and small enough for a `u32`.
pub open spec fn spec_number(text: Seq<char>) -> Option<u32> {
    if text.len() > 0 && all_digits(text) && digits_value(text) <= u32::MAX {
        Some(digits_value(text) as u32)
    } else {
        None
    }
}

/// `1.2.3`: exactly three dot-separated numbers.
pub open spec fn spec_parse(raw: Seq<char>) -> Option<Version> {
    let parts = split_on(version_text(raw), '.');
    if parts.len() == 3 && spec_number(parts[0]) is Some && spec_number(parts[1]) is Some
        && spec_number(parts[2]) is Some {
        Some(
            Version {
                major: spec_number(parts[0])->0,
                minor: spec_number(parts[1])->0,
                patch: spec_number(parts[2])->0,
            },
        )
    } else {
        None
    }
}

/// How a version prints: `major.minor.patch`.
pub open spec fn spec_display(v: Version) -> Seq<char> {
    decimal(v.major as nat) + seq!['.'] + decimal(v.minor as nat) + seq!['.'] + decimal(
        v.patch as nat,
    )
}

pub open spec fn spec_bumped(v: Version, bump: Bump) -> Version {
    match bump {
        Bump::Minor => Version { major: v.major, minor: (v.minor + 1) as u32, patch: 0 },
        Bump::Patch => Version { major: v.major, minor: v.minor, patch: (v.patch + 1) as u32 },
    }
}

/// Digits only. `u32::from_str_radix` would accept a leading `+`.
fn number(s: &Vec<char>, lo: usize, hi: usize) -> (r: Option<u32>)
    requires
        lo <= hi <= s.len(),
    ensures
        r == spec_number(s@.subrange(lo as int, hi as int)),
{
    match parse_digits(s, lo, hi, 4294967295u64) {
        Some(v) => Some(v as u32),
        None => None,
    }
}

impl Version {
    pub fn new(major: u32, minor: u32, patch: u32) -> (r: Self)
        ensures
            r == (Version { major, minor, patch }),
    {
        Self { major, minor, patch }
    }

    /// Parse `1.2.3`, tolerating a leading `v` and surrounding whitespace.
    ///
    /// Anything else is `None`, including a pre-release suffix like `0.2.0-rc1`.
    pub fn parse(raw: &str) -> (r: Option<Self>)
        ensures
            r == spec_parse(raw@),
    {
        let s = chars_of(raw);
        let (mut lo, hi) = trim_bounds(&s, 0, s.len());
        assert(s@.subrange(0, s@.len() as int) =~= s@);
        if lo < hi && (s[lo] == 'v' || s[lo] == 'V') {
            assert(s@.subrange(lo + 1, hi as int) =~= s@.subrange(lo as int, hi as int).drop_first());
            lo = lo + 1;
        }
        assert(s@.subrange(lo as int, hi as int) == version_text(raw@));
        let parts = split_bounds(&s, lo, hi, '.');
        if parts.len() != 3 {
            return None;
        }
        let major = number(&s, parts[0].0, parts[0].1);
        let minor = number(&s, parts[1].0, parts[1].1);
        let patch = number(&s, parts[2].0, parts[2].1);
        match (major, minor, patch) {
            (Some(major), Some(minor), Some(patch)) => Some(Self::new(major, minor, patch)),
            _ => None,
        }
    }

    /// The version this one becomes after `bump`. A minor bump resets the patch.
    pub fn bumped(self, bump: Bump) -> (r: Self)
        requires
            bump == Bump::Minor ==> self.minor < u32::MAX,
            bump == Bump::Patch ==> self.patch < u32::MAX,
        ensures
            r == spec_bumped(self, bump),
    {
        match bump {
            Bump::Minor => Self::new(self.major, self.minor + 1, 0),
            Bump::Patch => Self::new(self.major, self.minor, self.patch + 1),
        }
    }

    /// `major.minor.patch`, as the version is shown and sent over the wire.
    pub fn to_string(&self) -> (r: String)
        ensures
            r@ == spec_display(*self),
    {
        let mut out: Vec<char> = Vec::new();
        push_decimal(&mut out, self.major as u64);
        out.push('.');
        push_decimal(&mut out, self.minor as u64);
        out.push('.');
        push_decimal(&mut out, self.patch as u64);
        assert(out@ =~= spec_display(*self));
        string_of(out.as_slice())
    }
}

proof fn lemma_decimal_plain(n: nat)
    ensures
        !has_char(decimal(n), '.'),
        decimal(n).len() > 0,
        all_digits(decimal(n)),
        digits_value(decimal(n)) == n,
{
    lemma_decimal_roundtrip(n);
    if has_char(decimal(n), '.') {
        let i = choose|i: int| 0 <= i < decimal(n).len() && decimal(n)[i] == '.';
        assert(is_ascii_digit(decimal(n)[i]));
    }
}

/// Printing a version and reading it back gives the same version.
pub proof fn lemma_display_round_trips(v: Version)
    ensures
        spec_parse(spec_display(v)) == Some(v),
{
    let a = decimal(v.major as nat);
    let b = decimal(v.minor as nat);
    let c = decimal(v.patch as nat);
    lemma_decimal_plain(v.major as nat);
    lemma_decimal_plain(v.minor as nat);
    lemma_decimal_plain(v.patch as nat);
    let d = spec_display(v);
    assert(d.len() > 0);
    assert(d[0] == a[0]);
    assert(is_ascii_digit(a[0]));
    assert(d.last() == c.last()) by {
        assert(d[d.len() - 1] == c[c.len() - 1]);
    }
    assert(is_ascii_digit(c[c.len() - 1]));
    assert(trim_start(d) == d);
    assert(trim_end(d) == d);
    assert(version_text(d) == d);
    lemma_split_plain(a, '.');
    lemma_split_sep_then_plain(a, b, '.');
    assert(a.push('.') + b =~= a + seq!['.'] + b);
    lemma_split_sep_then_plain(a + seq!['.'] + b, c, '.');
    assert((a + seq!['.'] + b).push('.') + c =~= d);
    let parts = split_on(d, '.');
    assert(parts == seq![a, b, c]);
}

pub open spec fn all_ascii_alpha(s: Seq<char>) -> bool {
    forall|i: int| 0 <= i < s.len() ==> is_ascii_alpha(#[trigger] s[i])
}

/// The conventional-commit type of a subject line: `feat(dvr)!: …` is `("feat", true)`.
pub open spec fn spec_commit_type(subject: Seq<char>) -> Option<(Seq<char>, bool)> {
    if !has_char(subject, ':') {
        None
    } else {
        let colon = first_index(subject, ':');
        let head0 = trim(subject.take(colon));
        let breaking = head0.len() > 0 && head0.last() == '!';
        let head = if breaking {
            head0.drop_last()
        } else {
            head0
        };
        let ty = if has_char(head, '(') {
            head.take(first_index(head, '('))
        } else {
            head
        };
        if has_char(head, '(') && !(head.len() > 0 && head.last() == ')') {
            None
        } else if ty.len() == 0 || !all_ascii_alpha(ty) {
            None
        } else {
            Some((ty, breaking))
        }
    }
}

/// A subject that makes its release a feature release: a breaking marker, or the
/// type `feat` in any case.
pub open spec fn is_feature(subject: Seq<char>) -> bool {
    match spec_commit_type(subject) {
        Some((ty, breaking)) => breaking || ascii_lower(ty) == seq!['f', 'e', 'a', 't'],
        None => false,
    }
}

/// One `feat` anywhere in the batch makes the whole release a feature release;
/// anything else, including no commits at all, is a patch.
pub open spec fn spec_bump_for(subjects: Seq<Seq<char>>) -> Bump {
    if exists|i: int| 0 <= i < subjects.len() && is_feature(#[trigger] subjects[i]) {
        Bump::Minor
    } else {
        Bump::Patch
    }
}

fn all_alpha(v: &Vec<char>) -> (r: bool)
    ensures
        r == all_ascii_alpha(v@),
{
    let mut i: usize = 0;
    while i < v.len()
        invariant
            i <= v.len(),
            forall|j: int| 0 <= j < i ==> is_ascii_alpha(#[trigger] v@[j]),
        decreases v.len() - i,
    {
        let c = v[i];
        if !(('a' <= c && c <= 'z') || ('A' <= c && c <= 'Z')) {
            assert(!is_ascii_alpha(v@[i as int]));
            return false;
        }
        i += 1;
    }
    true
}

fn commit_type(subject: &Vec<char>) -> (r: Option<(Vec<char>, bool)>)
    ensures
        match (r, spec_commit_type(subject@)) {
            (Some((ty, b)), Some((sty, sb))) => ty@ == sty && b == sb,
            (None, None) => true,
            _ => false,
        },
{
    let colon = match find_char_from(subject, ':', 0) {
        Some(c) => c,
        None => {
            return None;
        },
    };
    proof {
        lemma_first_index(subject@, ':', colon as int);
    }
    let (hs, he) = trim_bounds(subject, 0, colon);
    assert(subject@.take(colon as int) =~= subject@.subrange(0, colon as int));
    let mut he2 = he;
    let breaking = hs < he && subject[he - 1] == '!';
    if breaking {
        he2 = he - 1;
        assert(subject@.subrange(hs as int, he2 as int) =~= subject@.subrange(hs as int, he as int).drop_last());
    }
    let head = slice(subject, hs, he2);
    let ty_end = match find_char_from(&head, '(', 0) {
        Some(open) => {
            proof {
                lemma_first_index(head@, '(', open as int);
            }
            if !(head.len() > 0 && head[head.len() - 1] == ')') {
                return None;
            }
            open
        },
        None => head.len(),
    };
    assert(head@.take(ty_end as int) =~= head@.subrange(0, ty_end as int));
    let ty = slice(&head, 0, ty_end);
    if ty.len() == 0 {
        return None;
    }
    let ghost sty = if has_char(head@, '(') {
        head@.take(first_index(head@, '('))
    } else {
        head@
    };
    assert(head@.take(head@.len() as int) =~= head@);
    assert(sty == ty@);
    if !all_alpha(&ty) {
        return None;
    }
    assert(head@.take(head@.len() as int) =~= head@);
    Some((ty, breaking))
}

/// What the given commit subjects add up to.
pub fn bump_for(subjects: &[&str]) -> (r: Bump)
    ensures
        r == spec_bump_for(subjects@.map_values(|s: &str| s@)),
{
    let ghost views = subjects@.map_values(|s: &str| s@);
    let mut i: usize = 0;
    while i < subjects.len()
        invariant
            i <= subjects.len(),
            views == subjects@.map_values(|s: &str| s@),
            forall|j: int| 0 <= j < i ==> !is_feature(#[trigger] views[j]),
        decreases subjects.len() - i,
    {
        let subject = chars_of(subjects[i]);
        match commit_type(&subject) {
            Some((ty, breaking)) => {
                let lower = lower_all(&ty);
                let feat = chars_of("feat");
                proof {
                    reveal_strlit("feat");
                }
                assert(feat@ =~= seq!['f', 'e', 'a', 't']);
                if breaking || seq_eq(&lower, &feat) {
                    assert(is_feature(views[i as int]));
                    return Bump::Minor;
                }
            },
            None => {},
        }
        i += 1;
    }
    Bump::Patch
}


/// The part of a subject before its first `:`, trimmed, with one trailing `!` taken off,
/// and whether that `!` was there.
pub open spec fn commit_head(subject: Seq<char>) -> (Seq<char>, bool) {
    let head0 = trim(subject.take(first_index(subject, ':')));
    if head0.len() > 0 && head0.last() == '!' {
        (head0.drop_last(), true)
    } else {
        (head0, false)
    }
}

proof fn lemma_first_index_found(s: Seq<char>, c: char)
    requires
        has_char(s, c),
    ensures
        0 <= first_index(s, c) < s.len(),
        s[first_index(s, c)] == c,
        forall|j: int| 0 <= j < first_index(s, c) ==> s[j] != c,
    decreases s.len(),
{
    if s[0] != c {
        let i = choose|i: int| 0 <= i < s.len() && s[i] == c;
        assert(s.drop_first()[i - 1] == c);
        lemma_first_index_found(s.drop_first(), c);
        assert forall|j: int| 0 <= j < first_index(s, c) implies s[j] != c by {
            if j > 0 {
                assert(s[j] == s.drop_first()[j - 1]);
            }
        }
    }
}

/// `head` is a conventional type of ASCII letters, alone or followed by a bracketed
/// scope, that marks a feature: breaking, or `feat` in any case.
pub open spec fn feature_head(head: Seq<char>, breaking: bool, ty: Seq<char>, scope: Seq<char>) -> bool {
    &&& ty.len() > 0
    &&& all_ascii_alpha(ty)
    &&& (head == ty || head == ty + seq!['('] + scope + seq![')'])
    &&& (breaking || ascii_lower(ty) == seq!['f', 'e', 'a', 't'])
}

/// A subject makes its release a feature release exactly when it has a `:`, and before
/// it stands a type of ASCII letters — alone, or followed by a scope in brackets — with a
/// breaking `!` after it, or the type is `feat` in any case.
pub proof fn lemma_feature_subjects(subject: Seq<char>)
    ensures
        is_feature(subject) <==> (has_char(subject, ':') && exists|ty: Seq<char>, scope: Seq<char>|
            #[trigger] feature_head(commit_head(subject).0, commit_head(subject).1, ty, scope)),
{
    let head = commit_head(subject).0;
    let breaking = commit_head(subject).1;
    if has_char(subject, ':') {
        if is_feature(subject) {
            let (ty, _b) = spec_commit_type(subject)->0;
            if has_char(head, '(') {
                lemma_first_index_found(head, '(');
                let f = first_index(head, '(');
                let scope = head.subrange(f + 1, head.len() - 1);
                assert(head =~= ty + seq!['('] + scope + seq![')']);
                assert(feature_head(head, breaking, ty, scope));
            } else {
                assert(ty == head);
                assert(feature_head(head, breaking, ty, ty));
            }
        }
        if exists|ty: Seq<char>, scope: Seq<char>| #[trigger] feature_head(head, breaking, ty, scope) {
            let (ty, scope) = choose|ty: Seq<char>, scope: Seq<char>|
                #[trigger] feature_head(head, breaking, ty, scope);
            assert forall|j: int| 0 <= j < ty.len() implies #[trigger] ty[j] != '(' by {
                assert(is_ascii_alpha(ty[j]));
            }
            if head == ty {
                if has_char(head, '(') {
                    let j = choose|j: int| 0 <= j < head.len() && head[j] == '(';
                    assert(ty[j] != '(');
                }
                assert(spec_commit_type(subject) == Some((ty, breaking)));
            } else {
                assert(head[ty.len() as int] == '(');
                assert forall|j: int| 0 <= j < ty.len() implies head[j] != '(' by {
                    assert(head[j] == ty[j]);
                }
                lemma_first_index(head, '(', ty.len() as int);
                assert(head.take(ty.len() as int) =~= ty);
                assert(head.last() == ')');
                assert(spec_commit_type(subject) == Some((ty, breaking)));
            }
        }
    }
}

/// One feature subject anywhere makes the release a feature release; any other batch,
/// the empty one included, is a patch.
pub proof fn lemma_bump_is_minor_iff_a_feature(subjects: Seq<Seq<char>>)
    ensures
        (spec_bump_for(subjects) == Bump::Minor) <==> exists|i: int|
            0 <= i < subjects.len() && is_feature(#[trigger] subjects[i]),
        subjects.len() == 0 ==> spec_bump_for(subjects) == Bump::Patch,
{
}


/// Versions order by their numbers read as numbers, major first, then minor, then
/// patch — so `0.10.0` comes after `0.9.0` — and a version that does not parse comes
/// before every one that does.
pub proof fn lemma_parsed_versions_order_by_numbers(a: Seq<char>, b: Seq<char>)
    ensures
        spec_parse(a) matches Some(va) ==> (spec_parse(b) matches Some(vb) ==> {
            &&& (PartialOrdSpec::partial_cmp_spec(&spec_parse(a), &spec_parse(b)) == Some(core::cmp::Ordering::Less))
                <==> version_before(va, vb)
            &&& (PartialOrdSpec::partial_cmp_spec(&spec_parse(a), &spec_parse(b)) == Some(core::cmp::Ordering::Equal))
                <==> va == vb
            &&& (PartialOrdSpec::partial_cmp_spec(&spec_parse(a), &spec_parse(b)) == Some(
                core::cmp::Ordering::Greater,
            )) <==> version_before(vb, va)
        }),
        spec_parse(a) is None && spec_parse(b) is Some ==> PartialOrdSpec::partial_cmp_spec(&spec_parse(a), &spec_parse(b)) == Some(core::cmp::Ordering::Less),
{
}

} // verus!
