//! Content-rating comparison for parental controls.
//!
//! Providers label content with whatever certification system their market uses, and
//! rarely consistently. Everything is therefore mapped onto a *minimum age*, which is
//! the only thing the systems have in common and the only thing a parent actually
//! wants to reason about.

use vstd::prelude::*;
use crate::text::{
    all_digits, digit_value, is_ascii_digit, ascii_lower, ascii_upper, chars_of, contains, contains_str, digit_prefix,
    digit_prefix_len, digits_value, lemma_digit_prefix, lower_all, parse_digits, replace_all,
    replace_str, seq_eq, slice, str_eq, strip_all_prefix, strip_prefixes, trim, trimmed,
    upper_all,
};

verus! {

broadcast use vstd::string::group_string_axioms;

/// A ceiling on what a profile may watch, expressed as a minimum age.
#[derive(Debug, Clone, Copy, PartialEq, Eq, PartialOrd, Ord)]
pub struct AgeLimit(pub u8);

impl AgeLimit {
    /// Suitable for everyone.
    pub fn everyone() -> (r: AgeLimit)
        ensures
            r.0 == 0,
    {
        AgeLimit(0)
    }

    /// Adults only.
    pub fn adult() -> (r: AgeLimit)
        ensures
            r.0 == 18,
    {
        AgeLimit(18)
    }
}

/// `true` when `c` is one of `options`.
pub open spec fn one_of(c: Seq<char>, options: Seq<&str>) -> bool {
    exists|i: int| 0 <= i < options.len() && c == (#[trigger] options[i])@
}

fn is_one_of(c: &Vec<char>, options: &[&str]) -> (r: bool)
    ensures
        r == one_of(c@, options@),
{
    let mut i: usize = 0;
    while i < options.len()
        invariant
            i <= options.len(),
            forall|j: int| 0 <= j < i ==> c@ != (#[trigger] options@[j])@,
        decreases options.len() - i,
    {
        if str_eq(c, options[i]) {
            return true;
        }
        i += 1;
    }
    false
}

/// A certification as it is compared: trimmed, upper-cased, any leading `RATED ` and
/// then `RATING ` prefixes dropped, `_` and `-` removed, a double space made single,
/// trimmed again.
pub open spec fn normalized_certification(raw: Seq<char>) -> Seq<char> {
    let c = ascii_upper(trim(raw));
    let c = strip_all_prefix(strip_all_prefix(c, "RATED "@), "RATING "@);
    let c = c.filter(|x: char| x != '_' && x != '-');
    trim(replace_all(c, "  "@, " "@))
}

pub open spec fn rating_everyone() -> Seq<&'static str> {
    seq!["U", "G", "TVY", "TVG", "ALL", "AL", "E", "0", "0+", "EVERYONE"]
}

pub open spec fn rating_guidance() -> Seq<&'static str> {
    seq!["PG", "TVPG", "TVY7", "6", "6+", "7", "7+", "FSK6"]
}

pub open spec fn rating_twelve() -> Seq<&'static str> {
    seq!["PG13", "12A", "12", "TV14", "FSK12", "M"]
}

pub open spec fn rating_thirteen() -> Seq<&'static str> {
    seq!["13", "13+", "TEEN"]
}

pub open spec fn rating_fourteen() -> Seq<&'static str> {
    seq!["14", "14+"]
}

pub open spec fn rating_sixteen() -> Seq<&'static str> {
    seq!["MA15", "FSK16", "16", "16+"]
}

pub open spec fn rating_seventeen() -> Seq<&'static str> {
    seq!["R", "TVMA", "MA", "17", "17+", "NC17"]
}

pub open spec fn rating_adult() -> Seq<&'static str> {
    seq!["18", "18+", "X", "XXX", "FSK18", "R18", "ADULT", "AO"]
}

/// The minimum age a normalized certification implies, by the table of known systems.
pub open spec fn table_age(c: Seq<char>) -> Option<u8> {
    if one_of(c, rating_everyone()) {
        Some(0u8)
    } else if one_of(c, rating_guidance()) {
        Some(6u8)
    } else if one_of(c, rating_twelve()) {
        Some(12u8)
    } else if one_of(c, rating_thirteen()) {
        Some(13u8)
    } else if one_of(c, rating_fourteen()) {
        Some(14u8)
    } else if c == "15"@ {
        Some(15u8)
    } else if one_of(c, rating_sixteen()) {
        Some(16u8)
    } else if one_of(c, rating_seventeen()) {
        Some(17u8)
    } else if one_of(c, rating_adult()) {
        Some(18u8)
    } else {
        None
    }
}

/// What `min_age` answers: a bare number of one or two digits (alone, or followed by
/// `+`) is the age itself; otherwise the table decides, and anything it does not know
/// is `None`.
pub open spec fn spec_min_age(certification: Seq<char>) -> Option<u8> {
    let c = normalized_certification(certification);
    let n = digit_prefix_len(c);
    let digits = c.take(n);
    if 0 < n <= 2 && (c == digits || c == digits + "+"@ || c == "AGE "@ + digits) {
        Some(digits_value(digits) as u8)
    } else {
        table_age(c)
    }
}

fn without_dashes(c: &Vec<char>) -> (r: Vec<char>)
    ensures
        r@ == c@.filter(|x: char| x != '_' && x != '-'),
{
    let ghost pred = |x: char| x != '_' && x != '-';
    let mut r: Vec<char> = Vec::new();
    let mut i: usize = 0;
    while i < c.len()
        invariant
            i <= c.len(),
            pred == (|x: char| x != '_' && x != '-'),
            r@ == c@.take(i as int).filter(pred),
        decreases c.len() - i,
    {
        proof {
            c@.take(i as int).lemma_filter_push(c@[i as int], pred);
            assert(c@.take(i + 1) =~= c@.take(i as int).push(c@[i as int]));
        }
        if c[i] != '_' && c[i] != '-' {
            r.push(c[i]);
        }
        i += 1;
    }
    assert(c@.take(c.len() as int) =~= c@);
    r
}

/// Map a certification string onto the minimum age it implies.
///
/// Covers US film and TV, UK, Ireland, Germany (FSK), France, the Netherlands,
/// Australia, and bare numbers. Returns `None` for anything unrecognised — which the
/// caller must treat as *unknown*, not as *safe*.
pub fn min_age(certification: &str) -> (r: Option<u8>)
    ensures
        r == spec_min_age(certification@),
{
    let raw = chars_of(certification);
    let t = trimmed(&raw);
    let up = upper_all(&t);
    let a = strip_prefixes(&up, "RATED ");
    let b = strip_prefixes(&a, "RATING ");
    let d = without_dashes(&b);
    let two = chars_of("  ");
    let one = chars_of(" ");
    let e = replace_str(&d, &two, &one);
    let c = trimmed(&e);
    assert(c@ == normalized_certification(certification@));

    // A bare number, or a number with a suffix like "16+".
    let n = digit_prefix(&c, 0);
    assert(c@.skip(0) =~= c@);
    proof {
        lemma_digit_prefix(c@);
    }
    if n > 0 && n <= 2 {
        let digits = slice(&c, 0, n);
        assert(digits@ =~= c@.take(n as int));
        let mut plus = digits.clone();
        plus.push('+');
        let mut age = chars_of("AGE ");
        crate::text::append(&mut age, &digits);
        let plus_lit = chars_of("+");
        proof {
            reveal_strlit("+");
        }
        assert(plus@ =~= digits@ + "+"@);
        if seq_eq(&c, &digits) || seq_eq(&c, &plus) || seq_eq(&c, &age) {
            let v = parse_digits(&c, 0, n, 255u64);
            assert(c@.subrange(0, n as int) =~= digits@);
            proof {
                assert(digits_value(digits@) <= 99) by {
                    lemma_two_digits(digits@);
                }
            }
            match v {
                Some(v) => {
                    return Some(v as u8);
                },
                None => {
                    return None;
                },
            }
        }
    }
    let everyone: [&str; 10] = ["U", "G", "TVY", "TVG", "ALL", "AL", "E", "0", "0+", "EVERYONE"];
    let guidance: [&str; 8] = ["PG", "TVPG", "TVY7", "6", "6+", "7", "7+", "FSK6"];
    let twelve: [&str; 6] = ["PG13", "12A", "12", "TV14", "FSK12", "M"];
    let thirteen: [&str; 3] = ["13", "13+", "TEEN"];
    let fourteen: [&str; 2] = ["14", "14+"];
    let sixteen: [&str; 4] = ["MA15", "FSK16", "16", "16+"];
    let seventeen: [&str; 6] = ["R", "TVMA", "MA", "17", "17+", "NC17"];
    let adult: [&str; 8] = ["18", "18+", "X", "XXX", "FSK18", "R18", "ADULT", "AO"];
    assert(everyone@ =~= rating_everyone());
    assert(guidance@ =~= rating_guidance());
    assert(twelve@ =~= rating_twelve());
    assert(thirteen@ =~= rating_thirteen());
    assert(fourteen@ =~= rating_fourteen());
    assert(sixteen@ =~= rating_sixteen());
    assert(seventeen@ =~= rating_seventeen());
    assert(adult@ =~= rating_adult());
    if is_one_of(&c, &everyone) {
        Some(0)
    } else if is_one_of(&c, &guidance) {
        Some(6)
    } else if is_one_of(&c, &twelve) {
        Some(12)
    } else if is_one_of(&c, &thirteen) {
        Some(13)
    } else if is_one_of(&c, &fourteen) {
        Some(14)
    } else if str_eq(&c, "15") {
        Some(15)
    } else if is_one_of(&c, &sixteen) {
        Some(16)
    } else if is_one_of(&c, &seventeen) {
        Some(17)
    } else if is_one_of(&c, &adult) {
        Some(18)
    } else {
        None
    }
}

proof fn lemma_two_digits(d: Seq<char>)
    requires
        d.len() <= 2,
        all_digits(d),
    ensures
        digits_value(d) <= 99,
{
    if d.len() == 2 {
        let d1 = d.drop_last();
        assert(d1.drop_last() =~= Seq::<char>::empty());
        assert(d1[0] == d[0]);
        assert(is_ascii_digit(d[0]) && is_ascii_digit(d[1]));
        assert(digits_value(d1) == digits_value(d1.drop_last()) * 10 + digit_value(d1.last()));
        assert(digits_value(d1) == digit_value(d[0]));
        assert(digits_value(d) == digits_value(d1) * 10 + digit_value(d[1]));
    } else if d.len() == 1 {
        assert(d.drop_last() =~= Seq::<char>::empty());
        assert(is_ascii_digit(d[0]));
        assert(digits_value(d) == digits_value(d.drop_last()) * 10 + digit_value(d.last()));
    } else {
        assert(digits_value(d) == 0);
    }
}

/// Whether a profile limited to `limit` may watch content certified `certification`:
/// no limit allows everything; a known age is allowed up to the limit; an unknown one
/// is allowed only if `allow_unrated`.
pub open spec fn spec_is_allowed(
    certification: Option<Seq<char>>,
    limit: Option<AgeLimit>,
    allow_unrated: bool,
) -> bool {
    match limit {
        None => true,
        Some(limit) => match certification {
            Some(c) => match spec_min_age(c) {
                Some(age) => age <= limit.0,
                None => allow_unrated,
            },
            None => allow_unrated,
        },
    }
}

pub open spec fn opt_view(o: Option<&str>) -> Option<Seq<char>> {
    match o {
        Some(s) => Some(s@),
        None => None,
    }
}

/// Whether a profile limited to `limit` may watch content certified `certification`.
///
/// `allow_unrated` decides the unknown case: IPTV metadata is patchy, and "no rating"
/// is far more often missing data than genuinely child-safe content.
pub fn is_allowed(certification: Option<&str>, limit: Option<AgeLimit>, allow_unrated: bool) -> (r:
    bool)
    ensures
        r == spec_is_allowed(opt_view(certification), limit, allow_unrated),
{
    let limit = match limit {
        Some(l) => l,
        None => {
            return true;
        },
    };
    let age = match certification {
        Some(c) => min_age(c),
        None => None,
    };
    match age {
        Some(age) => age <= limit.0,
        None => allow_unrated,
    }
}

/// Raising a profile's limit never blocks something it allowed.
pub proof fn lemma_raising_the_limit_never_blocks(
    certification: Option<Seq<char>>,
    lower: AgeLimit,
    higher: AgeLimit,
    allow_unrated: bool,
)
    requires
        lower.0 <= higher.0,
        spec_is_allowed(certification, Some(lower), allow_unrated),
    ensures
        spec_is_allowed(certification, Some(higher), allow_unrated),
{
}

/// Under any limit, content whose rating is unknown is allowed exactly when unrated
/// content is: unknown is never treated as safe by itself.
pub proof fn lemma_unknown_is_not_safe(certification: Option<Seq<char>>, limit: AgeLimit)
    requires
        certification matches Some(c) ==> spec_min_age(c) is None,
    ensures
        !spec_is_allowed(certification, Some(limit), false),
{
}

/// Group names that mark adult categories.
pub open spec fn adult_markers() -> Seq<&'static str> {
    seq!["adult", "xxx", "porn", "erotic", "18+", "for adults"]
}

pub open spec fn spec_looks_adult(group: Option<Seq<char>>) -> bool {
    match group {
        None => false,
        Some(g) => exists|i: int|
            0 <= i < adult_markers().len() && contains(ascii_lower(g), (#[trigger] adult_markers()[i])@),
    }
}

/// Categories hidden unless the user explicitly opts in: adult content is hidden by
/// default on a fresh install.
pub fn looks_adult(group: Option<&str>) -> (r: bool)
    ensures
        r == spec_looks_adult(opt_view(group)),
{
    let text = match group {
        Some(g) => g,
        None => {
            return false;
        },
    };
    let g = lower_all(&chars_of(text));
    let markers: [&str; 6] = ["adult", "xxx", "porn", "erotic", "18+", "for adults"];
    assert(markers@ =~= adult_markers());
    let mut i: usize = 0;
    while i < 6
        invariant
            i <= 6,
            group == Some(text),
            markers@ == adult_markers(),
            g@ == ascii_lower(text@),
            forall|j: int| 0 <= j < i ==> !contains(g@, (#[trigger] adult_markers()[j])@),
        decreases 6 - i,
    {
        if contains_str(&g, markers[i]) {
            assert(contains(ascii_lower(text@), (adult_markers()[i as int])@));
            return true;
        }
        i += 1;
    }
    false
}


proof fn lemma_not_one_of(c: Seq<char>, options: Seq<&str>)
    requires
        forall|i: int| 0 <= i < options.len() ==> (#[trigger] options[i])@ != c,
    ensures
        !one_of(c, options),
{
}

proof fn lemma_label_u(c: Seq<char>)
    requires
        c == "U"@,
    ensures
        table_age(c) == Some(0u8),
        digit_prefix_len(c) == 0 || (digit_prefix_len(c) == 2 && c != c.take(2) && c != c.take(2) + "+"@
            && c != "AGE "@ + c.take(2)),
{
    reveal_strlit("15");
    reveal_strlit("U");
    assert(digit_prefix_len(c) == 0);
    assert(rating_everyone()[0]@ == c);
}

proof fn lemma_label_g(c: Seq<char>)
    requires
        c == "G"@,
    ensures
        table_age(c) == Some(0u8),
        digit_prefix_len(c) == 0 || (digit_prefix_len(c) == 2 && c != c.take(2) && c != c.take(2) + "+"@
            && c != "AGE "@ + c.take(2)),
{
    reveal_strlit("15");
    reveal_strlit("G");
    assert(digit_prefix_len(c) == 0);
    assert(rating_everyone()[1]@ == c);
}

proof fn lemma_label_tvy(c: Seq<char>)
    requires
        c == "TVY"@,
    ensures
        table_age(c) == Some(0u8),
        digit_prefix_len(c) == 0 || (digit_prefix_len(c) == 2 && c != c.take(2) && c != c.take(2) + "+"@
            && c != "AGE "@ + c.take(2)),
{
    reveal_strlit("15");
    reveal_strlit("TVY");
    assert(digit_prefix_len(c) == 0);
    assert(rating_everyone()[2]@ == c);
}

proof fn lemma_label_tvg(c: Seq<char>)
    requires
        c == "TVG"@,
    ensures
        table_age(c) == Some(0u8),
        digit_prefix_len(c) == 0 || (digit_prefix_len(c) == 2 && c != c.take(2) && c != c.take(2) + "+"@
            && c != "AGE "@ + c.take(2)),
{
    reveal_strlit("15");
    reveal_strlit("TVG");
    assert(digit_prefix_len(c) == 0);
    assert(rating_everyone()[3]@ == c);
}

proof fn lemma_label_all(c: Seq<char>)
    requires
        c == "ALL"@,
    ensures
        table_age(c) == Some(0u8),
        digit_prefix_len(c) == 0 || (digit_prefix_len(c) == 2 && c != c.take(2) && c != c.take(2) + "+"@
            && c != "AGE "@ + c.take(2)),
{
    reveal_strlit("15");
    reveal_strlit("ALL");
    assert(digit_prefix_len(c) == 0);
    assert(rating_everyone()[4]@ == c);
}

proof fn lemma_label_al(c: Seq<char>)
    requires
        c == "AL"@,
    ensures
        table_age(c) == Some(0u8),
        digit_prefix_len(c) == 0 || (digit_prefix_len(c) == 2 && c != c.take(2) && c != c.take(2) + "+"@
            && c != "AGE "@ + c.take(2)),
{
    reveal_strlit("15");
    reveal_strlit("AL");
    assert(digit_prefix_len(c) == 0);
    assert(rating_everyone()[5]@ == c);
}

proof fn lemma_label_e(c: Seq<char>)
    requires
        c == "E"@,
    ensures
        table_age(c) == Some(0u8),
        digit_prefix_len(c) == 0 || (digit_prefix_len(c) == 2 && c != c.take(2) && c != c.take(2) + "+"@
            && c != "AGE "@ + c.take(2)),
{
    reveal_strlit("15");
    reveal_strlit("E");
    assert(digit_prefix_len(c) == 0);
    assert(rating_everyone()[6]@ == c);
}

proof fn lemma_label_everyone(c: Seq<char>)
    requires
        c == "EVERYONE"@,
    ensures
        table_age(c) == Some(0u8),
        digit_prefix_len(c) == 0 || (digit_prefix_len(c) == 2 && c != c.take(2) && c != c.take(2) + "+"@
            && c != "AGE "@ + c.take(2)),
{
    reveal_strlit("15");
    reveal_strlit("EVERYONE");
    assert(digit_prefix_len(c) == 0);
    assert(rating_everyone()[9]@ == c);
}

/// Every label of the age-0 group, however it was written (case, a `RATED`/`RATING`
/// prefix, dashes, spacing), means minimum age 0: allowed under every limit.
pub proof fn lemma_rated_everyone(raw: Seq<char>, limit: AgeLimit, allow_unrated: bool)
    requires
        ({
            let c = normalized_certification(raw);
            c == "U"@ || c == "G"@ || c == "TVY"@ || c == "TVG"@ || c == "ALL"@ || c == "AL"@ || c == "E"@ || c == "EVERYONE"@
        }),
    ensures
        spec_min_age(raw) == Some(0u8),
        spec_is_allowed(Some(raw), Some(limit), allow_unrated) == (0 <= limit.0),
{
    let c = normalized_certification(raw);
    if c == "U"@ {
        lemma_label_u(c);
    }
    if c == "G"@ {
        lemma_label_g(c);
    }
    if c == "TVY"@ {
        lemma_label_tvy(c);
    }
    if c == "TVG"@ {
        lemma_label_tvg(c);
    }
    if c == "ALL"@ {
        lemma_label_all(c);
    }
    if c == "AL"@ {
        lemma_label_al(c);
    }
    if c == "E"@ {
        lemma_label_e(c);
    }
    if c == "EVERYONE"@ {
        lemma_label_everyone(c);
    }
}

proof fn lemma_label_pg(c: Seq<char>)
    requires
        c == "PG"@,
    ensures
        table_age(c) == Some(6u8),
        digit_prefix_len(c) == 0 || (digit_prefix_len(c) == 2 && c != c.take(2) && c != c.take(2) + "+"@
            && c != "AGE "@ + c.take(2)),
{
    reveal_strlit("0");
    reveal_strlit("0+");
    reveal_strlit("15");
    reveal_strlit("AL");
    reveal_strlit("ALL");
    reveal_strlit("E");
    reveal_strlit("EVERYONE");
    reveal_strlit("G");
    reveal_strlit("PG");
    reveal_strlit("TVG");
    reveal_strlit("TVY");
    reveal_strlit("U");
    assert(digit_prefix_len(c) == 0);
    assert forall|i: int| 0 <= i < rating_everyone().len() implies (#[trigger] rating_everyone()[i])@ != c by {
        if i == 0 { assert(rating_everyone()[0]@ == "U"@); assert(c.len() != rating_everyone()[0]@.len()); }
        else if i == 1 { assert(rating_everyone()[1]@ == "G"@); assert(c.len() != rating_everyone()[1]@.len()); }
        else if i == 2 { assert(rating_everyone()[2]@ == "TVY"@); assert(c.len() != rating_everyone()[2]@.len()); }
        else if i == 3 { assert(rating_everyone()[3]@ == "TVG"@); assert(c.len() != rating_everyone()[3]@.len()); }
        else if i == 4 { assert(rating_everyone()[4]@ == "ALL"@); assert(c.len() != rating_everyone()[4]@.len()); }
        else if i == 5 { assert(rating_everyone()[5]@ == "AL"@); assert(c[0] != rating_everyone()[i]@[0]); }
        else if i == 6 { assert(rating_everyone()[6]@ == "E"@); assert(c.len() != rating_everyone()[6]@.len()); }
        else if i == 7 { assert(rating_everyone()[7]@ == "0"@); assert(c.len() != rating_everyone()[7]@.len()); }
        else if i == 8 { assert(rating_everyone()[8]@ == "0+"@); assert(c[0] != rating_everyone()[i]@[0]); }
        else if i == 9 { assert(rating_everyone()[9]@ == "EVERYONE"@); assert(c.len() != rating_everyone()[9]@.len()); }
    }
    lemma_not_one_of(c, rating_everyone());
    assert(rating_guidance()[0]@ == c);
}

proof fn lemma_label_tvpg(c: Seq<char>)
    requires
        c == "TVPG"@,
    ensures
        table_age(c) == Some(6u8),
        digit_prefix_len(c) == 0 || (digit_prefix_len(c) == 2 && c != c.take(2) && c != c.take(2) + "+"@
            && c != "AGE "@ + c.take(2)),
{
    reveal_strlit("0");
    reveal_strlit("0+");
    reveal_strlit("15");
    reveal_strlit("AL");
    reveal_strlit("ALL");
    reveal_strlit("E");
    reveal_strlit("EVERYONE");
    reveal_strlit("G");
    reveal_strlit("TVG");
    reveal_strlit("TVPG");
    reveal_strlit("TVY");
    reveal_strlit("U");
    assert(digit_prefix_len(c) == 0);
    assert forall|i: int| 0 <= i < rating_everyone().len() implies (#[trigger] rating_everyone()[i])@ != c by {
        if i == 0 { assert(rating_everyone()[0]@ == "U"@); assert(c.len() != rating_everyone()[0]@.len()); }
        else if i == 1 { assert(rating_everyone()[1]@ == "G"@); assert(c.len() != rating_everyone()[1]@.len()); }
        else if i == 2 { assert(rating_everyone()[2]@ == "TVY"@); assert(c.len() != rating_everyone()[2]@.len()); }
        else if i == 3 { assert(rating_everyone()[3]@ == "TVG"@); assert(c.len() != rating_everyone()[3]@.len()); }
        else if i == 4 { assert(rating_everyone()[4]@ == "ALL"@); assert(c.len() != rating_everyone()[4]@.len()); }
        else if i == 5 { assert(rating_everyone()[5]@ == "AL"@); assert(c.len() != rating_everyone()[5]@.len()); }
        else if i == 6 { assert(rating_everyone()[6]@ == "E"@); assert(c.len() != rating_everyone()[6]@.len()); }
        else if i == 7 { assert(rating_everyone()[7]@ == "0"@); assert(c.len() != rating_everyone()[7]@.len()); }
        else if i == 8 { assert(rating_everyone()[8]@ == "0+"@); assert(c.len() != rating_everyone()[8]@.len()); }
        else if i == 9 { assert(rating_everyone()[9]@ == "EVERYONE"@); assert(c.len() != rating_everyone()[9]@.len()); }
    }
    lemma_not_one_of(c, rating_everyone());
    assert(rating_guidance()[1]@ == c);
}

proof fn lemma_label_tvy7(c: Seq<char>)
    requires
        c == "TVY7"@,
    ensures
        table_age(c) == Some(6u8),
        digit_prefix_len(c) == 0 || (digit_prefix_len(c) == 2 && c != c.take(2) && c != c.take(2) + "+"@
            && c != "AGE "@ + c.take(2)),
{
    reveal_strlit("0");
    reveal_strlit("0+");
    reveal_strlit("15");
    reveal_strlit("AL");
    reveal_strlit("ALL");
    reveal_strlit("E");
    reveal_strlit("EVERYONE");
    reveal_strlit("G");
    reveal_strlit("TVG");
    reveal_strlit("TVY");
    reveal_strlit("TVY7");
    reveal_strlit("U");
    assert(digit_prefix_len(c) == 0);
    assert forall|i: int| 0 <= i < rating_everyone().len() implies (#[trigger] rating_everyone()[i])@ != c by {
        if i == 0 { assert(rating_everyone()[0]@ == "U"@); assert(c.len() != rating_everyone()[0]@.len()); }
        else if i == 1 { assert(rating_everyone()[1]@ == "G"@); assert(c.len() != rating_everyone()[1]@.len()); }
        else if i == 2 { assert(rating_everyone()[2]@ == "TVY"@); assert(c.len() != rating_everyone()[2]@.len()); }
        else if i == 3 { assert(rating_everyone()[3]@ == "TVG"@); assert(c.len() != rating_everyone()[3]@.len()); }
        else if i == 4 { assert(rating_everyone()[4]@ == "ALL"@); assert(c.len() != rating_everyone()[4]@.len()); }
        else if i == 5 { assert(rating_everyone()[5]@ == "AL"@); assert(c.len() != rating_everyone()[5]@.len()); }
        else if i == 6 { assert(rating_everyone()[6]@ == "E"@); assert(c.len() != rating_everyone()[6]@.len()); }
        else if i == 7 { assert(rating_everyone()[7]@ == "0"@); assert(c.len() != rating_everyone()[7]@.len()); }
        else if i == 8 { assert(rating_everyone()[8]@ == "0+"@); assert(c.len() != rating_everyone()[8]@.len()); }
        else if i == 9 { assert(rating_everyone()[9]@ == "EVERYONE"@); assert(c.len() != rating_everyone()[9]@.len()); }
    }
    lemma_not_one_of(c, rating_everyone());
    assert(rating_guidance()[2]@ == c);
}

proof fn lemma_label_fsk6(c: Seq<char>)
    requires
        c == "FSK6"@,
    ensures
        table_age(c) == Some(6u8),
        digit_prefix_len(c) == 0 || (digit_prefix_len(c) == 2 && c != c.take(2) && c != c.take(2) + "+"@
            && c != "AGE "@ + c.take(2)),
{
    reveal_strlit("0");
    reveal_strlit("0+");
    reveal_strlit("15");
    reveal_strlit("AL");
    reveal_strlit("ALL");
    reveal_strlit("E");
    reveal_strlit("EVERYONE");
    reveal_strlit("FSK6");
    reveal_strlit("G");
    reveal_strlit("TVG");
    reveal_strlit("TVY");
    reveal_strlit("U");
    assert(digit_prefix_len(c) == 0);
    assert forall|i: int| 0 <= i < rating_everyone().len() implies (#[trigger] rating_everyone()[i])@ != c by {
        if i == 0 { assert(rating_everyone()[0]@ == "U"@); assert(c.len() != rating_everyone()[0]@.len()); }
        else if i == 1 { assert(rating_everyone()[1]@ == "G"@); assert(c.len() != rating_everyone()[1]@.len()); }
        else if i == 2 { assert(rating_everyone()[2]@ == "TVY"@); assert(c.len() != rating_everyone()[2]@.len()); }
        else if i == 3 { assert(rating_everyone()[3]@ == "TVG"@); assert(c.len() != rating_everyone()[3]@.len()); }
        else if i == 4 { assert(rating_everyone()[4]@ == "ALL"@); assert(c.len() != rating_everyone()[4]@.len()); }
        else if i == 5 { assert(rating_everyone()[5]@ == "AL"@); assert(c.len() != rating_everyone()[5]@.len()); }
        else if i == 6 { assert(rating_everyone()[6]@ == "E"@); assert(c.len() != rating_everyone()[6]@.len()); }
        else if i == 7 { assert(rating_everyone()[7]@ == "0"@); assert(c.len() != rating_everyone()[7]@.len()); }
        else if i == 8 { assert(rating_everyone()[8]@ == "0+"@); assert(c.len() != rating_everyone()[8]@.len()); }
        else if i == 9 { assert(rating_everyone()[9]@ == "EVERYONE"@); assert(c.len() != rating_everyone()[9]@.len()); }
    }
    lemma_not_one_of(c, rating_everyone());
    assert(rating_guidance()[7]@ == c);
}

/// Every label of the age-6 group, however it was written (case, a `RATED`/`RATING`
/// prefix, dashes, spacing), means minimum age 6: allowed under a limit of 6 or
/// more, never under a lower one.
pub proof fn lemma_rated_six(raw: Seq<char>, limit: AgeLimit, allow_unrated: bool)
    requires
        ({
            let c = normalized_certification(raw);
            c == "PG"@ || c == "TVPG"@ || c == "TVY7"@ || c == "FSK6"@
        }),
    ensures
        spec_min_age(raw) == Some(6u8),
        spec_is_allowed(Some(raw), Some(limit), allow_unrated) == (6 <= limit.0),
{
    let c = normalized_certification(raw);
    if c == "PG"@ {
        lemma_label_pg(c);
    }
    if c == "TVPG"@ {
        lemma_label_tvpg(c);
    }
    if c == "TVY7"@ {
        lemma_label_tvy7(c);
    }
    if c == "FSK6"@ {
        lemma_label_fsk6(c);
    }
}

proof fn lemma_label_pg13(c: Seq<char>)
    requires
        c == "PG13"@,
    ensures
        table_age(c) == Some(12u8),
        digit_prefix_len(c) == 0 || (digit_prefix_len(c) == 2 && c != c.take(2) && c != c.take(2) + "+"@
            && c != "AGE "@ + c.take(2)),
{
    reveal_strlit("0");
    reveal_strlit("0+");
    reveal_strlit("15");
    reveal_strlit("6");
    reveal_strlit("6+");
    reveal_strlit("7");
    reveal_strlit("7+");
    reveal_strlit("AL");
    reveal_strlit("ALL");
    reveal_strlit("E");
    reveal_strlit("EVERYONE");
    reveal_strlit("FSK6");
    reveal_strlit("G");
    reveal_strlit("PG");
    reveal_strlit("PG13");
    reveal_strlit("TVG");
    reveal_strlit("TVPG");
    reveal_strlit("TVY");
    reveal_strlit("TVY7");
    reveal_strlit("U");
    assert(digit_prefix_len(c) == 0);
    assert forall|i: int| 0 <= i < rating_everyone().len() implies (#[trigger] rating_everyone()[i])@ != c by {
        if i == 0 { assert(rating_everyone()[0]@ == "U"@); assert(c.len() != rating_everyone()[0]@.len()); }
        else if i == 1 { assert(rating_everyone()[1]@ == "G"@); assert(c.len() != rating_everyone()[1]@.len()); }
        else if i == 2 { assert(rating_everyone()[2]@ == "TVY"@); assert(c.len() != rating_everyone()[2]@.len()); }
        else if i == 3 { assert(rating_everyone()[3]@ == "TVG"@); assert(c.len() != rating_everyone()[3]@.len()); }
        else if i == 4 { assert(rating_everyone()[4]@ == "ALL"@); assert(c.len() != rating_everyone()[4]@.len()); }
        else if i == 5 { assert(rating_everyone()[5]@ == "AL"@); assert(c.len() != rating_everyone()[5]@.len()); }
        else if i == 6 { assert(rating_everyone()[6]@ == "E"@); assert(c.len() != rating_everyone()[6]@.len()); }
        else if i == 7 { assert(rating_everyone()[7]@ == "0"@); assert(c.len() != rating_everyone()[7]@.len()); }
        else if i == 8 { assert(rating_everyone()[8]@ == "0+"@); assert(c.len() != rating_everyone()[8]@.len()); }
        else if i == 9 { assert(rating_everyone()[9]@ == "EVERYONE"@); assert(c.len() != rating_everyone()[9]@.len()); }
    }
    lemma_not_one_of(c, rating_everyone());
    assert forall|i: int| 0 <= i < rating_guidance().len() implies (#[trigger] rating_guidance()[i])@ != c by {
        if i == 0 { assert(rating_guidance()[0]@ == "PG"@); assert(c.len() != rating_guidance()[0]@.len()); }
        else if i == 1 { assert(rating_guidance()[1]@ == "TVPG"@); assert(c[0] != rating_guidance()[i]@[0]); }
        else if i == 2 { assert(rating_guidance()[2]@ == "TVY7"@); assert(c[0] != rating_guidance()[i]@[0]); }
        else if i == 3 { assert(rating_guidance()[3]@ == "6"@); assert(c.len() != rating_guidance()[3]@.len()); }
        else if i == 4 { assert(rating_guidance()[4]@ == "6+"@); assert(c.len() != rating_guidance()[4]@.len()); }
        else if i == 5 { assert(rating_guidance()[5]@ == "7"@); assert(c.len() != rating_guidance()[5]@.len()); }
        else if i == 6 { assert(rating_guidance()[6]@ == "7+"@); assert(c.len() != rating_guidance()[6]@.len()); }
        else if i == 7 { assert(rating_guidance()[7]@ == "FSK6"@); assert(c[0] != rating_guidance()[i]@[0]); }
    }
    lemma_not_one_of(c, rating_guidance());
    assert(rating_twelve()[0]@ == c);
}

proof fn lemma_label_12a(c: Seq<char>)
    requires
        c == "12A"@,
    ensures
        table_age(c) == Some(12u8),
        digit_prefix_len(c) == 0 || (digit_prefix_len(c) == 2 && c != c.take(2) && c != c.take(2) + "+"@
            && c != "AGE "@ + c.take(2)),
{
    reveal_strlit("+");
    reveal_strlit("0");
    reveal_strlit("0+");
    reveal_strlit("12A");
    reveal_strlit("15");
    reveal_strlit("6");
    reveal_strlit("6+");
    reveal_strlit("7");
    reveal_strlit("7+");
    reveal_strlit("AGE ");
    reveal_strlit("AL");
    reveal_strlit("ALL");
    reveal_strlit("E");
    reveal_strlit("EVERYONE");
    reveal_strlit("FSK6");
    reveal_strlit("G");
    reveal_strlit("PG");
    reveal_strlit("TVG");
    reveal_strlit("TVPG");
    reveal_strlit("TVY");
    reveal_strlit("TVY7");
    reveal_strlit("U");
    reveal_with_fuel(digit_prefix_len, 4);
    assert(c.drop_first().drop_first() == seq!['A']);
    assert(digit_prefix_len(c) == 2);
    reveal_strlit("12");
    assert(c.take(2) =~= "12"@);
    assert(c != c.take(2));
    assert(c != c.take(2) + "+"@) by { assert(c[2] != ("12"@ + "+"@)[2]); }
    assert(c != "AGE "@ + c.take(2)) by { assert(c.len() != ("AGE "@ + c.take(2)).len()); }
    assert forall|i: int| 0 <= i < rating_everyone().len() implies (#[trigger] rating_everyone()[i])@ != c by {
        if i == 0 { assert(rating_everyone()[0]@ == "U"@); assert(c.len() != rating_everyone()[0]@.len()); }
        else if i == 1 { assert(rating_everyone()[1]@ == "G"@); assert(c.len() != rating_everyone()[1]@.len()); }
        else if i == 2 { assert(rating_everyone()[2]@ == "TVY"@); assert(c[0] != rating_everyone()[i]@[0]); }
        else if i == 3 { assert(rating_everyone()[3]@ == "TVG"@); assert(c[0] != rating_everyone()[i]@[0]); }
        else if i == 4 { assert(rating_everyone()[4]@ == "ALL"@); assert(c[0] != rating_everyone()[i]@[0]); }
        else if i == 5 { assert(rating_everyone()[5]@ == "AL"@); assert(c.len() != rating_everyone()[5]@.len()); }
        else if i == 6 { assert(rating_everyone()[6]@ == "E"@); assert(c.len() != rating_everyone()[6]@.len()); }
        else if i == 7 { assert(rating_everyone()[7]@ == "0"@); assert(c.len() != rating_everyone()[7]@.len()); }
        else if i == 8 { assert(rating_everyone()[8]@ == "0+"@); assert(c.len() != rating_everyone()[8]@.len()); }
        else if i == 9 { assert(rating_everyone()[9]@ == "EVERYONE"@); assert(c.len() != rating_everyone()[9]@.len()); }
    }
    lemma_not_one_of(c, rating_everyone());
    assert forall|i: int| 0 <= i < rating_guidance().len() implies (#[trigger] rating_guidance()[i])@ != c by {
        if i == 0 { assert(rating_guidance()[0]@ == "PG"@); assert(c.len() != rating_guidance()[0]@.len()); }
        else if i == 1 { assert(rating_guidance()[1]@ == "TVPG"@); assert(c.len() != rating_guidance()[1]@.len()); }
        else if i == 2 { assert(rating_guidance()[2]@ == "TVY7"@); assert(c.len() != rating_guidance()[2]@.len()); }
        else if i == 3 { assert(rating_guidance()[3]@ == "6"@); assert(c.len() != rating_guidance()[3]@.len()); }
        else if i == 4 { assert(rating_guidance()[4]@ == "6+"@); assert(c.len() != rating_guidance()[4]@.len()); }
        else if i == 5 { assert(rating_guidance()[5]@ == "7"@); assert(c.len() != rating_guidance()[5]@.len()); }
        else if i == 6 { assert(rating_guidance()[6]@ == "7+"@); assert(c.len() != rating_guidance()[6]@.len()); }
        else if i == 7 { assert(rating_guidance()[7]@ == "FSK6"@); assert(c.len() != rating_guidance()[7]@.len()); }
    }
    lemma_not_one_of(c, rating_guidance());
    assert(rating_twelve()[1]@ == c);
}

proof fn lemma_label_tv14(c: Seq<char>)
    requires
        c == "TV14"@,
    ensures
        table_age(c) == Some(12u8),
        digit_prefix_len(c) == 0 || (digit_prefix_len(c) == 2 && c != c.take(2) && c != c.take(2) + "+"@
            && c != "AGE "@ + c.take(2)),
{
    reveal_strlit("0");
    reveal_strlit("0+");
    reveal_strlit("15");
    reveal_strlit("6");
    reveal_strlit("6+");
    reveal_strlit("7");
    reveal_strlit("7+");
    reveal_strlit("AL");
    reveal_strlit("ALL");
    reveal_strlit("E");
    reveal_strlit("EVERYONE");
    reveal_strlit("FSK6");
    reveal_strlit("G");
    reveal_strlit("PG");
    reveal_strlit("TV14");
    reveal_strlit("TVG");
    reveal_strlit("TVPG");
    reveal_strlit("TVY");
    reveal_strlit("TVY7");
    reveal_strlit("U");
    assert(digit_prefix_len(c) == 0);
    assert forall|i: int| 0 <= i < rating_everyone().len() implies (#[trigger] rating_everyone()[i])@ != c by {
        if i == 0 { assert(rating_everyone()[0]@ == "U"@); assert(c.len() != rating_everyone()[0]@.len()); }
        else if i == 1 { assert(rating_everyone()[1]@ == "G"@); assert(c.len() != rating_everyone()[1]@.len()); }
        else if i == 2 { assert(rating_everyone()[2]@ == "TVY"@); assert(c.len() != rating_everyone()[2]@.len()); }
        else if i == 3 { assert(rating_everyone()[3]@ == "TVG"@); assert(c.len() != rating_everyone()[3]@.len()); }
        else if i == 4 { assert(rating_everyone()[4]@ == "ALL"@); assert(c.len() != rating_everyone()[4]@.len()); }
        else if i == 5 { assert(rating_everyone()[5]@ == "AL"@); assert(c.len() != rating_everyone()[5]@.len()); }
        else if i == 6 { assert(rating_everyone()[6]@ == "E"@); assert(c.len() != rating_everyone()[6]@.len()); }
        else if i == 7 { assert(rating_everyone()[7]@ == "0"@); assert(c.len() != rating_everyone()[7]@.len()); }
        else if i == 8 { assert(rating_everyone()[8]@ == "0+"@); assert(c.len() != rating_everyone()[8]@.len()); }
        else if i == 9 { assert(rating_everyone()[9]@ == "EVERYONE"@); assert(c.len() != rating_everyone()[9]@.len()); }
    }
    lemma_not_one_of(c, rating_everyone());
    assert forall|i: int| 0 <= i < rating_guidance().len() implies (#[trigger] rating_guidance()[i])@ != c by {
        if i == 0 { assert(rating_guidance()[0]@ == "PG"@); assert(c.len() != rating_guidance()[0]@.len()); }
        else if i == 1 { assert(rating_guidance()[1]@ == "TVPG"@); assert(c[2] != rating_guidance()[i]@[2]); }
        else if i == 2 { assert(rating_guidance()[2]@ == "TVY7"@); assert(c[2] != rating_guidance()[i]@[2]); }
        else if i == 3 { assert(rating_guidance()[3]@ == "6"@); assert(c.len() != rating_guidance()[3]@.len()); }
        else if i == 4 { assert(rating_guidance()[4]@ == "6+"@); assert(c.len() != rating_guidance()[4]@.len()); }
        else if i == 5 { assert(rating_guidance()[5]@ == "7"@); assert(c.len() != rating_guidance()[5]@.len()); }
        else if i == 6 { assert(rating_guidance()[6]@ == "7+"@); assert(c.len() != rating_guidance()[6]@.len()); }
        else if i == 7 { assert(rating_guidance()[7]@ == "FSK6"@); assert(c[0] != rating_guidance()[i]@[0]); }
    }
    lemma_not_one_of(c, rating_guidance());
    assert(rating_twelve()[3]@ == c);
}

proof fn lemma_label_fsk12(c: Seq<char>)
    requires
        c == "FSK12"@,
    ensures
        table_age(c) == Some(12u8),
        digit_prefix_len(c) == 0 || (digit_prefix_len(c) == 2 && c != c.take(2) && c != c.take(2) + "+"@
            && c != "AGE "@ + c.take(2)),
{
    reveal_strlit("0");
    reveal_strlit("0+");
    reveal_strlit("15");
    reveal_strlit("6");
    reveal_strlit("6+");
    reveal_strlit("7");
    reveal_strlit("7+");
    reveal_strlit("AL");
    reveal_strlit("ALL");
    reveal_strlit("E");
    reveal_strlit("EVERYONE");
    reveal_strlit("FSK12");
    reveal_strlit("FSK6");
    reveal_strlit("G");
    reveal_strlit("PG");
    reveal_strlit("TVG");
    reveal_strlit("TVPG");
    reveal_strlit("TVY");
    reveal_strlit("TVY7");
    reveal_strlit("U");
    assert(digit_prefix_len(c) == 0);
    assert forall|i: int| 0 <= i < rating_everyone().len() implies (#[trigger] rating_everyone()[i])@ != c by {
        if i == 0 { assert(rating_everyone()[0]@ == "U"@); assert(c.len() != rating_everyone()[0]@.len()); }
        else if i == 1 { assert(rating_everyone()[1]@ == "G"@); assert(c.len() != rating_everyone()[1]@.len()); }
        else if i == 2 { assert(rating_everyone()[2]@ == "TVY"@); assert(c.len() != rating_everyone()[2]@.len()); }
        else if i == 3 { assert(rating_everyone()[3]@ == "TVG"@); assert(c.len() != rating_everyone()[3]@.len()); }
        else if i == 4 { assert(rating_everyone()[4]@ == "ALL"@); assert(c.len() != rating_everyone()[4]@.len()); }
        else if i == 5 { assert(rating_everyone()[5]@ == "AL"@); assert(c.len() != rating_everyone()[5]@.len()); }
        else if i == 6 { assert(rating_everyone()[6]@ == "E"@); assert(c.len() != rating_everyone()[6]@.len()); }
        else if i == 7 { assert(rating_everyone()[7]@ == "0"@); assert(c.len() != rating_everyone()[7]@.len()); }
        else if i == 8 { assert(rating_everyone()[8]@ == "0+"@); assert(c.len() != rating_everyone()[8]@.len()); }
        else if i == 9 { assert(rating_everyone()[9]@ == "EVERYONE"@); assert(c.len() != rating_everyone()[9]@.len()); }
    }
    lemma_not_one_of(c, rating_everyone());
    assert forall|i: int| 0 <= i < rating_guidance().len() implies (#[trigger] rating_guidance()[i])@ != c by {
        if i == 0 { assert(rating_guidance()[0]@ == "PG"@); assert(c.len() != rating_guidance()[0]@.len()); }
        else if i == 1 { assert(rating_guidance()[1]@ == "TVPG"@); assert(c.len() != rating_guidance()[1]@.len()); }
        else if i == 2 { assert(rating_guidance()[2]@ == "TVY7"@); assert(c.len() != rating_guidance()[2]@.len()); }
        else if i == 3 { assert(rating_guidance()[3]@ == "6"@); assert(c.len() != rating_guidance()[3]@.len()); }
        else if i == 4 { assert(rating_guidance()[4]@ == "6+"@); assert(c.len() != rating_guidance()[4]@.len()); }
        else if i == 5 { assert(rating_guidance()[5]@ == "7"@); assert(c.len() != rating_guidance()[5]@.len()); }
        else if i == 6 { assert(rating_guidance()[6]@ == "7+"@); assert(c.len() != rating_guidance()[6]@.len()); }
        else if i == 7 { assert(rating_guidance()[7]@ == "FSK6"@); assert(c.len() != rating_guidance()[7]@.len()); }
    }
    lemma_not_one_of(c, rating_guidance());
    assert(rating_twelve()[4]@ == c);
}

proof fn lemma_label_m(c: Seq<char>)
    requires
        c == "M"@,
    ensures
        table_age(c) == Some(12u8),
        digit_prefix_len(c) == 0 || (digit_prefix_len(c) == 2 && c != c.take(2) && c != c.take(2) + "+"@
            && c != "AGE "@ + c.take(2)),
{
    reveal_strlit("0");
    reveal_strlit("0+");
    reveal_strlit("15");
    reveal_strlit("6");
    reveal_strlit("6+");
    reveal_strlit("7");
    reveal_strlit("7+");
    reveal_strlit("AL");
    reveal_strlit("ALL");
    reveal_strlit("E");
    reveal_strlit("EVERYONE");
    reveal_strlit("FSK6");
    reveal_strlit("G");
    reveal_strlit("M");
    reveal_strlit("PG");
    reveal_strlit("TVG");
    reveal_strlit("TVPG");
    reveal_strlit("TVY");
    reveal_strlit("TVY7");
    reveal_strlit("U");
    assert(digit_prefix_len(c) == 0);
    assert forall|i: int| 0 <= i < rating_everyone().len() implies (#[trigger] rating_everyone()[i])@ != c by {
        if i == 0 { assert(rating_everyone()[0]@ == "U"@); assert(c[0] != rating_everyone()[i]@[0]); }
        else if i == 1 { assert(rating_everyone()[1]@ == "G"@); assert(c[0] != rating_everyone()[i]@[0]); }
        else if i == 2 { assert(rating_everyone()[2]@ == "TVY"@); assert(c.len() != rating_everyone()[2]@.len()); }
        else if i == 3 { assert(rating_everyone()[3]@ == "TVG"@); assert(c.len() != rating_everyone()[3]@.len()); }
        else if i == 4 { assert(rating_everyone()[4]@ == "ALL"@); assert(c.len() != rating_everyone()[4]@.len()); }
        else if i == 5 { assert(rating_everyone()[5]@ == "AL"@); assert(c.len() != rating_everyone()[5]@.len()); }
        else if i == 6 { assert(rating_everyone()[6]@ == "E"@); assert(c[0] != rating_everyone()[i]@[0]); }
        else if i == 7 { assert(rating_everyone()[7]@ == "0"@); assert(c[0] != rating_everyone()[i]@[0]); }
        else if i == 8 { assert(rating_everyone()[8]@ == "0+"@); assert(c.len() != rating_everyone()[8]@.len()); }
        else if i == 9 { assert(rating_everyone()[9]@ == "EVERYONE"@); assert(c.len() != rating_everyone()[9]@.len()); }
    }
    lemma_not_one_of(c, rating_everyone());
    assert forall|i: int| 0 <= i < rating_guidance().len() implies (#[trigger] rating_guidance()[i])@ != c by {
        if i == 0 { assert(rating_guidance()[0]@ == "PG"@); assert(c.len() != rating_guidance()[0]@.len()); }
        else if i == 1 { assert(rating_guidance()[1]@ == "TVPG"@); assert(c.len() != rating_guidance()[1]@.len()); }
        else if i == 2 { assert(rating_guidance()[2]@ == "TVY7"@); assert(c.len() != rating_guidance()[2]@.len()); }
        else if i == 3 { assert(rating_guidance()[3]@ == "6"@); assert(c[0] != rating_guidance()[i]@[0]); }
        else if i == 4 { assert(rating_guidance()[4]@ == "6+"@); assert(c.len() != rating_guidance()[4]@.len()); }
        else if i == 5 { assert(rating_guidance()[5]@ == "7"@); assert(c[0] != rating_guidance()[i]@[0]); }
        else if i == 6 { assert(rating_guidance()[6]@ == "7+"@); assert(c.len() != rating_guidance()[6]@.len()); }
        else if i == 7 { assert(rating_guidance()[7]@ == "FSK6"@); assert(c.len() != rating_guidance()[7]@.len()); }
    }
    lemma_not_one_of(c, rating_guidance());
    assert(rating_twelve()[5]@ == c);
}

/// Every label of the age-12 group, however it was written (case, a `RATED`/`RATING`
/// prefix, dashes, spacing), means minimum age 12: allowed under a limit of 12 or
/// more, never under a lower one.
pub proof fn lemma_rated_twelve(raw: Seq<char>, limit: AgeLimit, allow_unrated: bool)
    requires
        ({
            let c = normalized_certification(raw);
            c == "PG13"@ || c == "12A"@ || c == "TV14"@ || c == "FSK12"@ || c == "M"@
        }),
    ensures
        spec_min_age(raw) == Some(12u8),
        spec_is_allowed(Some(raw), Some(limit), allow_unrated) == (12 <= limit.0),
{
    let c = normalized_certification(raw);
    if c == "PG13"@ {
        lemma_label_pg13(c);
    }
    if c == "12A"@ {
        lemma_label_12a(c);
    }
    if c == "TV14"@ {
        lemma_label_tv14(c);
    }
    if c == "FSK12"@ {
        lemma_label_fsk12(c);
    }
    if c == "M"@ {
        lemma_label_m(c);
    }
}

proof fn lemma_label_teen(c: Seq<char>)
    requires
        c == "TEEN"@,
    ensures
        table_age(c) == Some(13u8),
        digit_prefix_len(c) == 0 || (digit_prefix_len(c) == 2 && c != c.take(2) && c != c.take(2) + "+"@
            && c != "AGE "@ + c.take(2)),
{
    reveal_strlit("0");
    reveal_strlit("0+");
    reveal_strlit("12");
    reveal_strlit("12A");
    reveal_strlit("15");
    reveal_strlit("6");
    reveal_strlit("6+");
    reveal_strlit("7");
    reveal_strlit("7+");
    reveal_strlit("AL");
    reveal_strlit("ALL");
    reveal_strlit("E");
    reveal_strlit("EVERYONE");
    reveal_strlit("FSK12");
    reveal_strlit("FSK6");
    reveal_strlit("G");
    reveal_strlit("M");
    reveal_strlit("PG");
    reveal_strlit("PG13");
    reveal_strlit("TEEN");
    reveal_strlit("TV14");
    reveal_strlit("TVG");
    reveal_strlit("TVPG");
    reveal_strlit("TVY");
    reveal_strlit("TVY7");
    reveal_strlit("U");
    assert(digit_prefix_len(c) == 0);
    assert forall|i: int| 0 <= i < rating_everyone().len() implies (#[trigger] rating_everyone()[i])@ != c by {
        if i == 0 { assert(rating_everyone()[0]@ == "U"@); assert(c.len() != rating_everyone()[0]@.len()); }
        else if i == 1 { assert(rating_everyone()[1]@ == "G"@); assert(c.len() != rating_everyone()[1]@.len()); }
        else if i == 2 { assert(rating_everyone()[2]@ == "TVY"@); assert(c.len() != rating_everyone()[2]@.len()); }
        else if i == 3 { assert(rating_everyone()[3]@ == "TVG"@); assert(c.len() != rating_everyone()[3]@.len()); }
        else if i == 4 { assert(rating_everyone()[4]@ == "ALL"@); assert(c.len() != rating_everyone()[4]@.len()); }
        else if i == 5 { assert(rating_everyone()[5]@ == "AL"@); assert(c.len() != rating_everyone()[5]@.len()); }
        else if i == 6 { assert(rating_everyone()[6]@ == "E"@); assert(c.len() != rating_everyone()[6]@.len()); }
        else if i == 7 { assert(rating_everyone()[7]@ == "0"@); assert(c.len() != rating_everyone()[7]@.len()); }
        else if i == 8 { assert(rating_everyone()[8]@ == "0+"@); assert(c.len() != rating_everyone()[8]@.len()); }
        else if i == 9 { assert(rating_everyone()[9]@ == "EVERYONE"@); assert(c.len() != rating_everyone()[9]@.len()); }
    }
    lemma_not_one_of(c, rating_everyone());
    assert forall|i: int| 0 <= i < rating_guidance().len() implies (#[trigger] rating_guidance()[i])@ != c by {
        if i == 0 { assert(rating_guidance()[0]@ == "PG"@); assert(c.len() != rating_guidance()[0]@.len()); }
        else if i == 1 { assert(rating_guidance()[1]@ == "TVPG"@); assert(c[1] != rating_guidance()[i]@[1]); }
        else if i == 2 { assert(rating_guidance()[2]@ == "TVY7"@); assert(c[1] != rating_guidance()[i]@[1]); }
        else if i == 3 { assert(rating_guidance()[3]@ == "6"@); assert(c.len() != rating_guidance()[3]@.len()); }
        else if i == 4 { assert(rating_guidance()[4]@ == "6+"@); assert(c.len() != rating_guidance()[4]@.len()); }
        else if i == 5 { assert(rating_guidance()[5]@ == "7"@); assert(c.len() != rating_guidance()[5]@.len()); }
        else if i == 6 { assert(rating_guidance()[6]@ == "7+"@); assert(c.len() != rating_guidance()[6]@.len()); }
        else if i == 7 { assert(rating_guidance()[7]@ == "FSK6"@); assert(c[0] != rating_guidance()[i]@[0]); }
    }
    lemma_not_one_of(c, rating_guidance());
    assert forall|i: int| 0 <= i < rating_twelve().len() implies (#[trigger] rating_twelve()[i])@ != c by {
        if i == 0 { assert(rating_twelve()[0]@ == "PG13"@); assert(c[0] != rating_twelve()[i]@[0]); }
        else if i == 1 { assert(rating_twelve()[1]@ == "12A"@); assert(c.len() != rating_twelve()[1]@.len()); }
        else if i == 2 { assert(rating_twelve()[2]@ == "12"@); assert(c.len() != rating_twelve()[2]@.len()); }
        else if i == 3 { assert(rating_twelve()[3]@ == "TV14"@); assert(c[1] != rating_twelve()[i]@[1]); }
        else if i == 4 { assert(rating_twelve()[4]@ == "FSK12"@); assert(c.len() != rating_twelve()[4]@.len()); }
        else if i == 5 { assert(rating_twelve()[5]@ == "M"@); assert(c.len() != rating_twelve()[5]@.len()); }
    }
    lemma_not_one_of(c, rating_twelve());
    assert(rating_thirteen()[2]@ == c);
}

/// Every label of the age-13 group, however it was written (case, a `RATED`/`RATING`
/// prefix, dashes, spacing), means minimum age 13: allowed under a limit of 13 or
/// more, never under a lower one.
pub proof fn lemma_rated_thirteen(raw: Seq<char>, limit: AgeLimit, allow_unrated: bool)
    requires
        ({
            let c = normalized_certification(raw);
            c == "TEEN"@
        }),
    ensures
        spec_min_age(raw) == Some(13u8),
        spec_is_allowed(Some(raw), Some(limit), allow_unrated) == (13 <= limit.0),
{
    let c = normalized_certification(raw);
    if c == "TEEN"@ {
        lemma_label_teen(c);
    }
}

proof fn lemma_label_ma15(c: Seq<char>)
    requires
        c == "MA15"@,
    ensures
        table_age(c) == Some(16u8),
        digit_prefix_len(c) == 0 || (digit_prefix_len(c) == 2 && c != c.take(2) && c != c.take(2) + "+"@
            && c != "AGE "@ + c.take(2)),
{
    reveal_strlit("0");
    reveal_strlit("0+");
    reveal_strlit("12");
    reveal_strlit("12A");
    reveal_strlit("13");
    reveal_strlit("13+");
    reveal_strlit("14");
    reveal_strlit("14+");
    reveal_strlit("15");
    reveal_strlit("6");
    reveal_strlit("6+");
    reveal_strlit("7");
    reveal_strlit("7+");
    reveal_strlit("AL");
    reveal_strlit("ALL");
    reveal_strlit("E");
    reveal_strlit("EVERYONE");
    reveal_strlit("FSK12");
    reveal_strlit("FSK6");
    reveal_strlit("G");
    reveal_strlit("M");
    reveal_strlit("MA15");
    reveal_strlit("PG");
    reveal_strlit("PG13");
    reveal_strlit("TEEN");
    reveal_strlit("TV14");
    reveal_strlit("TVG");
    reveal_strlit("TVPG");
    reveal_strlit("TVY");
    reveal_strlit("TVY7");
    reveal_strlit("U");
    assert(digit_prefix_len(c) == 0);
    assert forall|i: int| 0 <= i < rating_everyone().len() implies (#[trigger] rating_everyone()[i])@ != c by {
        if i == 0 { assert(rating_everyone()[0]@ == "U"@); assert(c.len() != rating_everyone()[0]@.len()); }
        else if i == 1 { assert(rating_everyone()[1]@ == "G"@); assert(c.len() != rating_everyone()[1]@.len()); }
        else if i == 2 { assert(rating_everyone()[2]@ == "TVY"@); assert(c.len() != rating_everyone()[2]@.len()); }
        else if i == 3 { assert(rating_everyone()[3]@ == "TVG"@); assert(c.len() != rating_everyone()[3]@.len()); }
        else if i == 4 { assert(rating_everyone()[4]@ == "ALL"@); assert(c.len() != rating_everyone()[4]@.len()); }
        else if i == 5 { assert(rating_everyone()[5]@ == "AL"@); assert(c.len() != rating_everyone()[5]@.len()); }
        else if i == 6 { assert(rating_everyone()[6]@ == "E"@); assert(c.len() != rating_everyone()[6]@.len()); }
        else if i == 7 { assert(rating_everyone()[7]@ == "0"@); assert(c.len() != rating_everyone()[7]@.len()); }
        else if i == 8 { assert(rating_everyone()[8]@ == "0+"@); assert(c.len() != rating_everyone()[8]@.len()); }
        else if i == 9 { assert(rating_everyone()[9]@ == "EVERYONE"@); assert(c.len() != rating_everyone()[9]@.len()); }
    }
    lemma_not_one_of(c, rating_everyone());
    assert forall|i: int| 0 <= i < rating_guidance().len() implies (#[trigger] rating_guidance()[i])@ != c by {
        if i == 0 { assert(rating_guidance()[0]@ == "PG"@); assert(c.len() != rating_guidance()[0]@.len()); }
        else if i == 1 { assert(rating_guidance()[1]@ == "TVPG"@); assert(c[0] != rating_guidance()[i]@[0]); }
        else if i == 2 { assert(rating_guidance()[2]@ == "TVY7"@); assert(c[0] != rating_guidance()[i]@[0]); }
        else if i == 3 { assert(rating_guidance()[3]@ == "6"@); assert(c.len() != rating_guidance()[3]@.len()); }
        else if i == 4 { assert(rating_guidance()[4]@ == "6+"@); assert(c.len() != rating_guidance()[4]@.len()); }
        else if i == 5 { assert(rating_guidance()[5]@ == "7"@); assert(c.len() != rating_guidance()[5]@.len()); }
        else if i == 6 { assert(rating_guidance()[6]@ == "7+"@); assert(c.len() != rating_guidance()[6]@.len()); }
        else if i == 7 { assert(rating_guidance()[7]@ == "FSK6"@); assert(c[0] != rating_guidance()[i]@[0]); }
    }
    lemma_not_one_of(c, rating_guidance());
    assert forall|i: int| 0 <= i < rating_twelve().len() implies (#[trigger] rating_twelve()[i])@ != c by {
        if i == 0 { assert(rating_twelve()[0]@ == "PG13"@); assert(c[0] != rating_twelve()[i]@[0]); }
        else if i == 1 { assert(rating_twelve()[1]@ == "12A"@); assert(c.len() != rating_twelve()[1]@.len()); }
        else if i == 2 { assert(rating_twelve()[2]@ == "12"@); assert(c.len() != rating_twelve()[2]@.len()); }
        else if i == 3 { assert(rating_twelve()[3]@ == "TV14"@); assert(c[0] != rating_twelve()[i]@[0]); }
        else if i == 4 { assert(rating_twelve()[4]@ == "FSK12"@); assert(c.len() != rating_twelve()[4]@.len()); }
        else if i == 5 { assert(rating_twelve()[5]@ == "M"@); assert(c.len() != rating_twelve()[5]@.len()); }
    }
    lemma_not_one_of(c, rating_twelve());
    assert forall|i: int| 0 <= i < rating_thirteen().len() implies (#[trigger] rating_thirteen()[i])@ != c by {
        if i == 0 { assert(rating_thirteen()[0]@ == "13"@); assert(c.len() != rating_thirteen()[0]@.len()); }
        else if i == 1 { assert(rating_thirteen()[1]@ == "13+"@); assert(c.len() != rating_thirteen()[1]@.len()); }
        else if i == 2 { assert(rating_thirteen()[2]@ == "TEEN"@); assert(c[0] != rating_thirteen()[i]@[0]); }
    }
    lemma_not_one_of(c, rating_thirteen());
    assert forall|i: int| 0 <= i < rating_fourteen().len() implies (#[trigger] rating_fourteen()[i])@ != c by {
        if i == 0 { assert(rating_fourteen()[0]@ == "14"@); assert(c.len() != rating_fourteen()[0]@.len()); }
        else if i == 1 { assert(rating_fourteen()[1]@ == "14+"@); assert(c.len() != rating_fourteen()[1]@.len()); }
    }
    lemma_not_one_of(c, rating_fourteen());
    assert(rating_sixteen()[0]@ == c);
}

proof fn lemma_label_fsk16(c: Seq<char>)
    requires
        c == "FSK16"@,
    ensures
        table_age(c) == Some(16u8),
        digit_prefix_len(c) == 0 || (digit_prefix_len(c) == 2 && c != c.take(2) && c != c.take(2) + "+"@
            && c != "AGE "@ + c.take(2)),
{
    reveal_strlit("0");
    reveal_strlit("0+");
    reveal_strlit("12");
    reveal_strlit("12A");
    reveal_strlit("13");
    reveal_strlit("13+");
    reveal_strlit("14");
    reveal_strlit("14+");
    reveal_strlit("15");
    reveal_strlit("6");
    reveal_strlit("6+");
    reveal_strlit("7");
    reveal_strlit("7+");
    reveal_strlit("AL");
    reveal_strlit("ALL");
    reveal_strlit("E");
    reveal_strlit("EVERYONE");
    reveal_strlit("FSK12");
    reveal_strlit("FSK16");
    reveal_strlit("FSK6");
    reveal_strlit("G");
    reveal_strlit("M");
    reveal_strlit("PG");
    reveal_strlit("PG13");
    reveal_strlit("TEEN");
    reveal_strlit("TV14");
    reveal_strlit("TVG");
    reveal_strlit("TVPG");
    reveal_strlit("TVY");
    reveal_strlit("TVY7");
    reveal_strlit("U");
    assert(digit_prefix_len(c) == 0);
    assert forall|i: int| 0 <= i < rating_everyone().len() implies (#[trigger] rating_everyone()[i])@ != c by {
        if i == 0 { assert(rating_everyone()[0]@ == "U"@); assert(c.len() != rating_everyone()[0]@.len()); }
        else if i == 1 { assert(rating_everyone()[1]@ == "G"@); assert(c.len() != rating_everyone()[1]@.len()); }
        else if i == 2 { assert(rating_everyone()[2]@ == "TVY"@); assert(c.len() != rating_everyone()[2]@.len()); }
        else if i == 3 { assert(rating_everyone()[3]@ == "TVG"@); assert(c.len() != rating_everyone()[3]@.len()); }
        else if i == 4 { assert(rating_everyone()[4]@ == "ALL"@); assert(c.len() != rating_everyone()[4]@.len()); }
        else if i == 5 { assert(rating_everyone()[5]@ == "AL"@); assert(c.len() != rating_everyone()[5]@.len()); }
        else if i == 6 { assert(rating_everyone()[6]@ == "E"@); assert(c.len() != rating_everyone()[6]@.len()); }
        else if i == 7 { assert(rating_everyone()[7]@ == "0"@); assert(c.len() != rating_everyone()[7]@.len()); }
        else if i == 8 { assert(rating_everyone()[8]@ == "0+"@); assert(c.len() != rating_everyone()[8]@.len()); }
        else if i == 9 { assert(rating_everyone()[9]@ == "EVERYONE"@); assert(c.len() != rating_everyone()[9]@.len()); }
    }
    lemma_not_one_of(c, rating_everyone());
    assert forall|i: int| 0 <= i < rating_guidance().len() implies (#[trigger] rating_guidance()[i])@ != c by {
        if i == 0 { assert(rating_guidance()[0]@ == "PG"@); assert(c.len() != rating_guidance()[0]@.len()); }
        else if i == 1 { assert(rating_guidance()[1]@ == "TVPG"@); assert(c.len() != rating_guidance()[1]@.len()); }
        else if i == 2 { assert(rating_guidance()[2]@ == "TVY7"@); assert(c.len() != rating_guidance()[2]@.len()); }
        else if i == 3 { assert(rating_guidance()[3]@ == "6"@); assert(c.len() != rating_guidance()[3]@.len()); }
        else if i == 4 { assert(rating_guidance()[4]@ == "6+"@); assert(c.len() != rating_guidance()[4]@.len()); }
        else if i == 5 { assert(rating_guidance()[5]@ == "7"@); assert(c.len() != rating_guidance()[5]@.len()); }
        else if i == 6 { assert(rating_guidance()[6]@ == "7+"@); assert(c.len() != rating_guidance()[6]@.len()); }
        else if i == 7 { assert(rating_guidance()[7]@ == "FSK6"@); assert(c.len() != rating_guidance()[7]@.len()); }
    }
    lemma_not_one_of(c, rating_guidance());
    assert forall|i: int| 0 <= i < rating_twelve().len() implies (#[trigger] rating_twelve()[i])@ != c by {
        if i == 0 { assert(rating_twelve()[0]@ == "PG13"@); assert(c.len() != rating_twelve()[0]@.len()); }
        else if i == 1 { assert(rating_twelve()[1]@ == "12A"@); assert(c.len() != rating_twelve()[1]@.len()); }
        else if i == 2 { assert(rating_twelve()[2]@ == "12"@); assert(c.len() != rating_twelve()[2]@.len()); }
        else if i == 3 { assert(rating_twelve()[3]@ == "TV14"@); assert(c.len() != rating_twelve()[3]@.len()); }
        else if i == 4 { assert(rating_twelve()[4]@ == "FSK12"@); assert(c[4] != rating_twelve()[i]@[4]); }
        else if i == 5 { assert(rating_twelve()[5]@ == "M"@); assert(c.len() != rating_twelve()[5]@.len()); }
    }
    lemma_not_one_of(c, rating_twelve());
    assert forall|i: int| 0 <= i < rating_thirteen().len() implies (#[trigger] rating_thirteen()[i])@ != c by {
        if i == 0 { assert(rating_thirteen()[0]@ == "13"@); assert(c.len() != rating_thirteen()[0]@.len()); }
        else if i == 1 { assert(rating_thirteen()[1]@ == "13+"@); assert(c.len() != rating_thirteen()[1]@.len()); }
        else if i == 2 { assert(rating_thirteen()[2]@ == "TEEN"@); assert(c.len() != rating_thirteen()[2]@.len()); }
    }
    lemma_not_one_of(c, rating_thirteen());
    assert forall|i: int| 0 <= i < rating_fourteen().len() implies (#[trigger] rating_fourteen()[i])@ != c by {
        if i == 0 { assert(rating_fourteen()[0]@ == "14"@); assert(c.len() != rating_fourteen()[0]@.len()); }
        else if i == 1 { assert(rating_fourteen()[1]@ == "14+"@); assert(c.len() != rating_fourteen()[1]@.len()); }
    }
    lemma_not_one_of(c, rating_fourteen());
    assert(rating_sixteen()[1]@ == c);
}

/// Every label of the age-16 group, however it was written (case, a `RATED`/`RATING`
/// prefix, dashes, spacing), means minimum age 16: allowed under a limit of 16 or
/// more, never under a lower one.
pub proof fn lemma_rated_sixteen(raw: Seq<char>, limit: AgeLimit, allow_unrated: bool)
    requires
        ({
            let c = normalized_certification(raw);
            c == "MA15"@ || c == "FSK16"@
        }),
    ensures
        spec_min_age(raw) == Some(16u8),
        spec_is_allowed(Some(raw), Some(limit), allow_unrated) == (16 <= limit.0),
{
    let c = normalized_certification(raw);
    if c == "MA15"@ {
        lemma_label_ma15(c);
    }
    if c == "FSK16"@ {
        lemma_label_fsk16(c);
    }
}

proof fn lemma_label_r(c: Seq<char>)
    requires
        c == "R"@,
    ensures
        table_age(c) == Some(17u8),
        digit_prefix_len(c) == 0 || (digit_prefix_len(c) == 2 && c != c.take(2) && c != c.take(2) + "+"@
            && c != "AGE "@ + c.take(2)),
{
    reveal_strlit("0");
    reveal_strlit("0+");
    reveal_strlit("12");
    reveal_strlit("12A");
    reveal_strlit("13");
    reveal_strlit("13+");
    reveal_strlit("14");
    reveal_strlit("14+");
    reveal_strlit("15");
    reveal_strlit("16");
    reveal_strlit("16+");
    reveal_strlit("6");
    reveal_strlit("6+");
    reveal_strlit("7");
    reveal_strlit("7+");
    reveal_strlit("AL");
    reveal_strlit("ALL");
    reveal_strlit("E");
    reveal_strlit("EVERYONE");
    reveal_strlit("FSK12");
    reveal_strlit("FSK16");
    reveal_strlit("FSK6");
    reveal_strlit("G");
    reveal_strlit("M");
    reveal_strlit("MA15");
    reveal_strlit("PG");
    reveal_strlit("PG13");
    reveal_strlit("R");
    reveal_strlit("TEEN");
    reveal_strlit("TV14");
    reveal_strlit("TVG");
    reveal_strlit("TVPG");
    reveal_strlit("TVY");
    reveal_strlit("TVY7");
    reveal_strlit("U");
    assert(digit_prefix_len(c) == 0);
    assert forall|i: int| 0 <= i < rating_everyone().len() implies (#[trigger] rating_everyone()[i])@ != c by {
        if i == 0 { assert(rating_everyone()[0]@ == "U"@); assert(c[0] != rating_everyone()[i]@[0]); }
        else if i == 1 { assert(rating_everyone()[1]@ == "G"@); assert(c[0] != rating_everyone()[i]@[0]); }
        else if i == 2 { assert(rating_everyone()[2]@ == "TVY"@); assert(c.len() != rating_everyone()[2]@.len()); }
        else if i == 3 { assert(rating_everyone()[3]@ == "TVG"@); assert(c.len() != rating_everyone()[3]@.len()); }
        else if i == 4 { assert(rating_everyone()[4]@ == "ALL"@); assert(c.len() != rating_everyone()[4]@.len()); }
        else if i == 5 { assert(rating_everyone()[5]@ == "AL"@); assert(c.len() != rating_everyone()[5]@.len()); }
        else if i == 6 { assert(rating_everyone()[6]@ == "E"@); assert(c[0] != rating_everyone()[i]@[0]); }
        else if i == 7 { assert(rating_everyone()[7]@ == "0"@); assert(c[0] != rating_everyone()[i]@[0]); }
        else if i == 8 { assert(rating_everyone()[8]@ == "0+"@); assert(c.len() != rating_everyone()[8]@.len()); }
        else if i == 9 { assert(rating_everyone()[9]@ == "EVERYONE"@); assert(c.len() != rating_everyone()[9]@.len()); }
    }
    lemma_not_one_of(c, rating_everyone());
    assert forall|i: int| 0 <= i < rating_guidance().len() implies (#[trigger] rating_guidance()[i])@ != c by {
        if i == 0 { assert(rating_guidance()[0]@ == "PG"@); assert(c.len() != rating_guidance()[0]@.len()); }
        else if i == 1 { assert(rating_guidance()[1]@ == "TVPG"@); assert(c.len() != rating_guidance()[1]@.len()); }
        else if i == 2 { assert(rating_guidance()[2]@ == "TVY7"@); assert(c.len() != rating_guidance()[2]@.len()); }
        else if i == 3 { assert(rating_guidance()[3]@ == "6"@); assert(c[0] != rating_guidance()[i]@[0]); }
        else if i == 4 { assert(rating_guidance()[4]@ == "6+"@); assert(c.len() != rating_guidance()[4]@.len()); }
        else if i == 5 { assert(rating_guidance()[5]@ == "7"@); assert(c[0] != rating_guidance()[i]@[0]); }
        else if i == 6 { assert(rating_guidance()[6]@ == "7+"@); assert(c.len() != rating_guidance()[6]@.len()); }
        else if i == 7 { assert(rating_guidance()[7]@ == "FSK6"@); assert(c.len() != rating_guidance()[7]@.len()); }
    }
    lemma_not_one_of(c, rating_guidance());
    assert forall|i: int| 0 <= i < rating_twelve().len() implies (#[trigger] rating_twelve()[i])@ != c by {
        if i == 0 { assert(rating_twelve()[0]@ == "PG13"@); assert(c.len() != rating_twelve()[0]@.len()); }
        else if i == 1 { assert(rating_twelve()[1]@ == "12A"@); assert(c.len() != rating_twelve()[1]@.len()); }
        else if i == 2 { assert(rating_twelve()[2]@ == "12"@); assert(c.len() != rating_twelve()[2]@.len()); }
        else if i == 3 { assert(rating_twelve()[3]@ == "TV14"@); assert(c.len() != rating_twelve()[3]@.len()); }
        else if i == 4 { assert(rating_twelve()[4]@ == "FSK12"@); assert(c.len() != rating_twelve()[4]@.len()); }
        else if i == 5 { assert(rating_twelve()[5]@ == "M"@); assert(c[0] != rating_twelve()[i]@[0]); }
    }
    lemma_not_one_of(c, rating_twelve());
    assert forall|i: int| 0 <= i < rating_thirteen().len() implies (#[trigger] rating_thirteen()[i])@ != c by {
        if i == 0 { assert(rating_thirteen()[0]@ == "13"@); assert(c.len() != rating_thirteen()[0]@.len()); }
        else if i == 1 { assert(rating_thirteen()[1]@ == "13+"@); assert(c.len() != rating_thirteen()[1]@.len()); }
        else if i == 2 { assert(rating_thirteen()[2]@ == "TEEN"@); assert(c.len() != rating_thirteen()[2]@.len()); }
    }
    lemma_not_one_of(c, rating_thirteen());
    assert forall|i: int| 0 <= i < rating_fourteen().len() implies (#[trigger] rating_fourteen()[i])@ != c by {
        if i == 0 { assert(rating_fourteen()[0]@ == "14"@); assert(c.len() != rating_fourteen()[0]@.len()); }
        else if i == 1 { assert(rating_fourteen()[1]@ == "14+"@); assert(c.len() != rating_fourteen()[1]@.len()); }
    }
    lemma_not_one_of(c, rating_fourteen());
    assert forall|i: int| 0 <= i < rating_sixteen().len() implies (#[trigger] rating_sixteen()[i])@ != c by {
        if i == 0 { assert(rating_sixteen()[0]@ == "MA15"@); assert(c.len() != rating_sixteen()[0]@.len()); }
        else if i == 1 { assert(rating_sixteen()[1]@ == "FSK16"@); assert(c.len() != rating_sixteen()[1]@.len()); }
        else if i == 2 { assert(rating_sixteen()[2]@ == "16"@); assert(c.len() != rating_sixteen()[2]@.len()); }
        else if i == 3 { assert(rating_sixteen()[3]@ == "16+"@); assert(c.len() != rating_sixteen()[3]@.len()); }
    }
    lemma_not_one_of(c, rating_sixteen());
    assert(rating_seventeen()[0]@ == c);
}

proof fn lemma_label_tvma(c: Seq<char>)
    requires
        c == "TVMA"@,
    ensures
        table_age(c) == Some(17u8),
        digit_prefix_len(c) == 0 || (digit_prefix_len(c) == 2 && c != c.take(2) && c != c.take(2) + "+"@
            && c != "AGE "@ + c.take(2)),
{
    reveal_strlit("0");
    reveal_strlit("0+");
    reveal_strlit("12");
    reveal_strlit("12A");
    reveal_strlit("13");
    reveal_strlit("13+");
    reveal_strlit("14");
    reveal_strlit("14+");
    reveal_strlit("15");
    reveal_strlit("16");
    reveal_strlit("16+");
    reveal_strlit("6");
    reveal_strlit("6+");
    reveal_strlit("7");
    reveal_strlit("7+");
    reveal_strlit("AL");
    reveal_strlit("ALL");
    reveal_strlit("E");
    reveal_strlit("EVERYONE");
    reveal_strlit("FSK12");
    reveal_strlit("FSK16");
    reveal_strlit("FSK6");
    reveal_strlit("G");
    reveal_strlit("M");
    reveal_strlit("MA15");
    reveal_strlit("PG");
    reveal_strlit("PG13");
    reveal_strlit("TEEN");
    reveal_strlit("TV14");
    reveal_strlit("TVG");
    reveal_strlit("TVMA");
    reveal_strlit("TVPG");
    reveal_strlit("TVY");
    reveal_strlit("TVY7");
    reveal_strlit("U");
    assert(digit_prefix_len(c) == 0);
    assert forall|i: int| 0 <= i < rating_everyone().len() implies (#[trigger] rating_everyone()[i])@ != c by {
        if i == 0 { assert(rating_everyone()[0]@ == "U"@); assert(c.len() != rating_everyone()[0]@.len()); }
        else if i == 1 { assert(rating_everyone()[1]@ == "G"@); assert(c.len() != rating_everyone()[1]@.len()); }
        else if i == 2 { assert(rating_everyone()[2]@ == "TVY"@); assert(c.len() != rating_everyone()[2]@.len()); }
        else if i == 3 { assert(rating_everyone()[3]@ == "TVG"@); assert(c.len() != rating_everyone()[3]@.len()); }
        else if i == 4 { assert(rating_everyone()[4]@ == "ALL"@); assert(c.len() != rating_everyone()[4]@.len()); }
        else if i == 5 { assert(rating_everyone()[5]@ == "AL"@); assert(c.len() != rating_everyone()[5]@.len()); }
        else if i == 6 { assert(rating_everyone()[6]@ == "E"@); assert(c.len() != rating_everyone()[6]@.len()); }
        else if i == 7 { assert(rating_everyone()[7]@ == "0"@); assert(c.len() != rating_everyone()[7]@.len()); }
        else if i == 8 { assert(rating_everyone()[8]@ == "0+"@); assert(c.len() != rating_everyone()[8]@.len()); }
        else if i == 9 { assert(rating_everyone()[9]@ == "EVERYONE"@); assert(c.len() != rating_everyone()[9]@.len()); }
    }
    lemma_not_one_of(c, rating_everyone());
    assert forall|i: int| 0 <= i < rating_guidance().len() implies (#[trigger] rating_guidance()[i])@ != c by {
        if i == 0 { assert(rating_guidance()[0]@ == "PG"@); assert(c.len() != rating_guidance()[0]@.len()); }
        else if i == 1 { assert(rating_guidance()[1]@ == "TVPG"@); assert(c[2] != rating_guidance()[i]@[2]); }
        else if i == 2 { assert(rating_guidance()[2]@ == "TVY7"@); assert(c[2] != rating_guidance()[i]@[2]); }
        else if i == 3 { assert(rating_guidance()[3]@ == "6"@); assert(c.len() != rating_guidance()[3]@.len()); }
        else if i == 4 { assert(rating_guidance()[4]@ == "6+"@); assert(c.len() != rating_guidance()[4]@.len()); }
        else if i == 5 { assert(rating_guidance()[5]@ == "7"@); assert(c.len() != rating_guidance()[5]@.len()); }
        else if i == 6 { assert(rating_guidance()[6]@ == "7+"@); assert(c.len() != rating_guidance()[6]@.len()); }
        else if i == 7 { assert(rating_guidance()[7]@ == "FSK6"@); assert(c[0] != rating_guidance()[i]@[0]); }
    }
    lemma_not_one_of(c, rating_guidance());
    assert forall|i: int| 0 <= i < rating_twelve().len() implies (#[trigger] rating_twelve()[i])@ != c by {
        if i == 0 { assert(rating_twelve()[0]@ == "PG13"@); assert(c[0] != rating_twelve()[i]@[0]); }
        else if i == 1 { assert(rating_twelve()[1]@ == "12A"@); assert(c.len() != rating_twelve()[1]@.len()); }
        else if i == 2 { assert(rating_twelve()[2]@ == "12"@); assert(c.len() != rating_twelve()[2]@.len()); }
        else if i == 3 { assert(rating_twelve()[3]@ == "TV14"@); assert(c[2] != rating_twelve()[i]@[2]); }
        else if i == 4 { assert(rating_twelve()[4]@ == "FSK12"@); assert(c.len() != rating_twelve()[4]@.len()); }
        else if i == 5 { assert(rating_twelve()[5]@ == "M"@); assert(c.len() != rating_twelve()[5]@.len()); }
    }
    lemma_not_one_of(c, rating_twelve());
    assert forall|i: int| 0 <= i < rating_thirteen().len() implies (#[trigger] rating_thirteen()[i])@ != c by {
        if i == 0 { assert(rating_thirteen()[0]@ == "13"@); assert(c.len() != rating_thirteen()[0]@.len()); }
        else if i == 1 { assert(rating_thirteen()[1]@ == "13+"@); assert(c.len() != rating_thirteen()[1]@.len()); }
        else if i == 2 { assert(rating_thirteen()[2]@ == "TEEN"@); assert(c[1] != rating_thirteen()[i]@[1]); }
    }
    lemma_not_one_of(c, rating_thirteen());
    assert forall|i: int| 0 <= i < rating_fourteen().len() implies (#[trigger] rating_fourteen()[i])@ != c by {
        if i == 0 { assert(rating_fourteen()[0]@ == "14"@); assert(c.len() != rating_fourteen()[0]@.len()); }
        else if i == 1 { assert(rating_fourteen()[1]@ == "14+"@); assert(c.len() != rating_fourteen()[1]@.len()); }
    }
    lemma_not_one_of(c, rating_fourteen());
    assert forall|i: int| 0 <= i < rating_sixteen().len() implies (#[trigger] rating_sixteen()[i])@ != c by {
        if i == 0 { assert(rating_sixteen()[0]@ == "MA15"@); assert(c[0] != rating_sixteen()[i]@[0]); }
        else if i == 1 { assert(rating_sixteen()[1]@ == "FSK16"@); assert(c.len() != rating_sixteen()[1]@.len()); }
        else if i == 2 { assert(rating_sixteen()[2]@ == "16"@); assert(c.len() != rating_sixteen()[2]@.len()); }
        else if i == 3 { assert(rating_sixteen()[3]@ == "16+"@); assert(c.len() != rating_sixteen()[3]@.len()); }
    }
    lemma_not_one_of(c, rating_sixteen());
    assert(rating_seventeen()[1]@ == c);
}

proof fn lemma_label_ma(c: Seq<char>)
    requires
        c == "MA"@,
    ensures
        table_age(c) == Some(17u8),
        digit_prefix_len(c) == 0 || (digit_prefix_len(c) == 2 && c != c.take(2) && c != c.take(2) + "+"@
            && c != "AGE "@ + c.take(2)),
{
    reveal_strlit("0");
    reveal_strlit("0+");
    reveal_strlit("12");
    reveal_strlit("12A");
    reveal_strlit("13");
    reveal_strlit("13+");
    reveal_strlit("14");
    reveal_strlit("14+");
    reveal_strlit("15");
    reveal_strlit("16");
    reveal_strlit("16+");
    reveal_strlit("6");
    reveal_strlit("6+");
    reveal_strlit("7");
    reveal_strlit("7+");
    reveal_strlit("AL");
    reveal_strlit("ALL");
    reveal_strlit("E");
    reveal_strlit("EVERYONE");
    reveal_strlit("FSK12");
    reveal_strlit("FSK16");
    reveal_strlit("FSK6");
    reveal_strlit("G");
    reveal_strlit("M");
    reveal_strlit("MA");
    reveal_strlit("MA15");
    reveal_strlit("PG");
    reveal_strlit("PG13");
    reveal_strlit("TEEN");
    reveal_strlit("TV14");
    reveal_strlit("TVG");
    reveal_strlit("TVPG");
    reveal_strlit("TVY");
    reveal_strlit("TVY7");
    reveal_strlit("U");
    assert(digit_prefix_len(c) == 0);
    assert forall|i: int| 0 <= i < rating_everyone().len() implies (#[trigger] rating_everyone()[i])@ != c by {
        if i == 0 { assert(rating_everyone()[0]@ == "U"@); assert(c.len() != rating_everyone()[0]@.len()); }
        else if i == 1 { assert(rating_everyone()[1]@ == "G"@); assert(c.len() != rating_everyone()[1]@.len()); }
        else if i == 2 { assert(rating_everyone()[2]@ == "TVY"@); assert(c.len() != rating_everyone()[2]@.len()); }
        else if i == 3 { assert(rating_everyone()[3]@ == "TVG"@); assert(c.len() != rating_everyone()[3]@.len()); }
        else if i == 4 { assert(rating_everyone()[4]@ == "ALL"@); assert(c.len() != rating_everyone()[4]@.len()); }
        else if i == 5 { assert(rating_everyone()[5]@ == "AL"@); assert(c[0] != rating_everyone()[i]@[0]); }
        else if i == 6 { assert(rating_everyone()[6]@ == "E"@); assert(c.len() != rating_everyone()[6]@.len()); }
        else if i == 7 { assert(rating_everyone()[7]@ == "0"@); assert(c.len() != rating_everyone()[7]@.len()); }
        else if i == 8 { assert(rating_everyone()[8]@ == "0+"@); assert(c[0] != rating_everyone()[i]@[0]); }
        else if i == 9 { assert(rating_everyone()[9]@ == "EVERYONE"@); assert(c.len() != rating_everyone()[9]@.len()); }
    }
    lemma_not_one_of(c, rating_everyone());
    assert forall|i: int| 0 <= i < rating_guidance().len() implies (#[trigger] rating_guidance()[i])@ != c by {
        if i == 0 { assert(rating_guidance()[0]@ == "PG"@); assert(c[0] != rating_guidance()[i]@[0]); }
        else if i == 1 { assert(rating_guidance()[1]@ == "TVPG"@); assert(c.len() != rating_guidance()[1]@.len()); }
        else if i == 2 { assert(rating_guidance()[2]@ == "TVY7"@); assert(c.len() != rating_guidance()[2]@.len()); }
        else if i == 3 { assert(rating_guidance()[3]@ == "6"@); assert(c.len() != rating_guidance()[3]@.len()); }
        else if i == 4 { assert(rating_guidance()[4]@ == "6+"@); assert(c[0] != rating_guidance()[i]@[0]); }
        else if i == 5 { assert(rating_guidance()[5]@ == "7"@); assert(c.len() != rating_guidance()[5]@.len()); }
        else if i == 6 { assert(rating_guidance()[6]@ == "7+"@); assert(c[0] != rating_guidance()[i]@[0]); }
        else if i == 7 { assert(rating_guidance()[7]@ == "FSK6"@); assert(c.len() != rating_guidance()[7]@.len()); }
    }
    lemma_not_one_of(c, rating_guidance());
    assert forall|i: int| 0 <= i < rating_twelve().len() implies (#[trigger] rating_twelve()[i])@ != c by {
        if i == 0 { assert(rating_twelve()[0]@ == "PG13"@); assert(c.len() != rating_twelve()[0]@.len()); }
        else if i == 1 { assert(rating_twelve()[1]@ == "12A"@); assert(c.len() != rating_twelve()[1]@.len()); }
        else if i == 2 { assert(rating_twelve()[2]@ == "12"@); assert(c[0] != rating_twelve()[i]@[0]); }
        else if i == 3 { assert(rating_twelve()[3]@ == "TV14"@); assert(c.len() != rating_twelve()[3]@.len()); }
        else if i == 4 { assert(rating_twelve()[4]@ == "FSK12"@); assert(c.len() != rating_twelve()[4]@.len()); }
        else if i == 5 { assert(rating_twelve()[5]@ == "M"@); assert(c.len() != rating_twelve()[5]@.len()); }
    }
    lemma_not_one_of(c, rating_twelve());
    assert forall|i: int| 0 <= i < rating_thirteen().len() implies (#[trigger] rating_thirteen()[i])@ != c by {
        if i == 0 { assert(rating_thirteen()[0]@ == "13"@); assert(c[0] != rating_thirteen()[i]@[0]); }
        else if i == 1 { assert(rating_thirteen()[1]@ == "13+"@); assert(c.len() != rating_thirteen()[1]@.len()); }
        else if i == 2 { assert(rating_thirteen()[2]@ == "TEEN"@); assert(c.len() != rating_thirteen()[2]@.len()); }
    }
    lemma_not_one_of(c, rating_thirteen());
    assert forall|i: int| 0 <= i < rating_fourteen().len() implies (#[trigger] rating_fourteen()[i])@ != c by {
        if i == 0 { assert(rating_fourteen()[0]@ == "14"@); assert(c[0] != rating_fourteen()[i]@[0]); }
        else if i == 1 { assert(rating_fourteen()[1]@ == "14+"@); assert(c.len() != rating_fourteen()[1]@.len()); }
    }
    lemma_not_one_of(c, rating_fourteen());
    assert forall|i: int| 0 <= i < rating_sixteen().len() implies (#[trigger] rating_sixteen()[i])@ != c by {
        if i == 0 { assert(rating_sixteen()[0]@ == "MA15"@); assert(c.len() != rating_sixteen()[0]@.len()); }
        else if i == 1 { assert(rating_sixteen()[1]@ == "FSK16"@); assert(c.len() != rating_sixteen()[1]@.len()); }
        else if i == 2 { assert(rating_sixteen()[2]@ == "16"@); assert(c[0] != rating_sixteen()[i]@[0]); }
        else if i == 3 { assert(rating_sixteen()[3]@ == "16+"@); assert(c.len() != rating_sixteen()[3]@.len()); }
    }
    lemma_not_one_of(c, rating_sixteen());
    assert(c[0] != "15"@[0]);
    assert(rating_seventeen()[2]@ == c);
}

proof fn lemma_label_nc17(c: Seq<char>)
    requires
        c == "NC17"@,
    ensures
        table_age(c) == Some(17u8),
        digit_prefix_len(c) == 0 || (digit_prefix_len(c) == 2 && c != c.take(2) && c != c.take(2) + "+"@
            && c != "AGE "@ + c.take(2)),
{
    reveal_strlit("0");
    reveal_strlit("0+");
    reveal_strlit("12");
    reveal_strlit("12A");
    reveal_strlit("13");
    reveal_strlit("13+");
    reveal_strlit("14");
    reveal_strlit("14+");
    reveal_strlit("15");
    reveal_strlit("16");
    reveal_strlit("16+");
    reveal_strlit("6");
    reveal_strlit("6+");
    reveal_strlit("7");
    reveal_strlit("7+");
    reveal_strlit("AL");
    reveal_strlit("ALL");
    reveal_strlit("E");
    reveal_strlit("EVERYONE");
    reveal_strlit("FSK12");
    reveal_strlit("FSK16");
    reveal_strlit("FSK6");
    reveal_strlit("G");
    reveal_strlit("M");
    reveal_strlit("MA15");
    reveal_strlit("NC17");
    reveal_strlit("PG");
    reveal_strlit("PG13");
    reveal_strlit("TEEN");
    reveal_strlit("TV14");
    reveal_strlit("TVG");
    reveal_strlit("TVPG");
    reveal_strlit("TVY");
    reveal_strlit("TVY7");
    reveal_strlit("U");
    assert(digit_prefix_len(c) == 0);
    assert forall|i: int| 0 <= i < rating_everyone().len() implies (#[trigger] rating_everyone()[i])@ != c by {
        if i == 0 { assert(rating_everyone()[0]@ == "U"@); assert(c.len() != rating_everyone()[0]@.len()); }
        else if i == 1 { assert(rating_everyone()[1]@ == "G"@); assert(c.len() != rating_everyone()[1]@.len()); }
        else if i == 2 { assert(rating_everyone()[2]@ == "TVY"@); assert(c.len() != rating_everyone()[2]@.len()); }
        else if i == 3 { assert(rating_everyone()[3]@ == "TVG"@); assert(c.len() != rating_everyone()[3]@.len()); }
        else if i == 4 { assert(rating_everyone()[4]@ == "ALL"@); assert(c.len() != rating_everyone()[4]@.len()); }
        else if i == 5 { assert(rating_everyone()[5]@ == "AL"@); assert(c.len() != rating_everyone()[5]@.len()); }
        else if i == 6 { assert(rating_everyone()[6]@ == "E"@); assert(c.len() != rating_everyone()[6]@.len()); }
        else if i == 7 { assert(rating_everyone()[7]@ == "0"@); assert(c.len() != rating_everyone()[7]@.len()); }
        else if i == 8 { assert(rating_everyone()[8]@ == "0+"@); assert(c.len() != rating_everyone()[8]@.len()); }
        else if i == 9 { assert(rating_everyone()[9]@ == "EVERYONE"@); assert(c.len() != rating_everyone()[9]@.len()); }
    }
    lemma_not_one_of(c, rating_everyone());
    assert forall|i: int| 0 <= i < rating_guidance().len() implies (#[trigger] rating_guidance()[i])@ != c by {
        if i == 0 { assert(rating_guidance()[0]@ == "PG"@); assert(c.len() != rating_guidance()[0]@.len()); }
        else if i == 1 { assert(rating_guidance()[1]@ == "TVPG"@); assert(c[0] != rating_guidance()[i]@[0]); }
        else if i == 2 { assert(rating_guidance()[2]@ == "TVY7"@); assert(c[0] != rating_guidance()[i]@[0]); }
        else if i == 3 { assert(rating_guidance()[3]@ == "6"@); assert(c.len() != rating_guidance()[3]@.len()); }
        else if i == 4 { assert(rating_guidance()[4]@ == "6+"@); assert(c.len() != rating_guidance()[4]@.len()); }
        else if i == 5 { assert(rating_guidance()[5]@ == "7"@); assert(c.len() != rating_guidance()[5]@.len()); }
        else if i == 6 { assert(rating_guidance()[6]@ == "7+"@); assert(c.len() != rating_guidance()[6]@.len()); }
        else if i == 7 { assert(rating_guidance()[7]@ == "FSK6"@); assert(c[0] != rating_guidance()[i]@[0]); }
    }
    lemma_not_one_of(c, rating_guidance());
    assert forall|i: int| 0 <= i < rating_twelve().len() implies (#[trigger] rating_twelve()[i])@ != c by {
        if i == 0 { assert(rating_twelve()[0]@ == "PG13"@); assert(c[0] != rating_twelve()[i]@[0]); }
        else if i == 1 { assert(rating_twelve()[1]@ == "12A"@); assert(c.len() != rating_twelve()[1]@.len()); }
        else if i == 2 { assert(rating_twelve()[2]@ == "12"@); assert(c.len() != rating_twelve()[2]@.len()); }
        else if i == 3 { assert(rating_twelve()[3]@ == "TV14"@); assert(c[0] != rating_twelve()[i]@[0]); }
        else if i == 4 { assert(rating_twelve()[4]@ == "FSK12"@); assert(c.len() != rating_twelve()[4]@.len()); }
        else if i == 5 { assert(rating_twelve()[5]@ == "M"@); assert(c.len() != rating_twelve()[5]@.len()); }
    }
    lemma_not_one_of(c, rating_twelve());
    assert forall|i: int| 0 <= i < rating_thirteen().len() implies (#[trigger] rating_thirteen()[i])@ != c by {
        if i == 0 { assert(rating_thirteen()[0]@ == "13"@); assert(c.len() != rating_thirteen()[0]@.len()); }
        else if i == 1 { assert(rating_thirteen()[1]@ == "13+"@); assert(c.len() != rating_thirteen()[1]@.len()); }
        else if i == 2 { assert(rating_thirteen()[2]@ == "TEEN"@); assert(c[0] != rating_thirteen()[i]@[0]); }
    }
    lemma_not_one_of(c, rating_thirteen());
    assert forall|i: int| 0 <= i < rating_fourteen().len() implies (#[trigger] rating_fourteen()[i])@ != c by {
        if i == 0 { assert(rating_fourteen()[0]@ == "14"@); assert(c.len() != rating_fourteen()[0]@.len()); }
        else if i == 1 { assert(rating_fourteen()[1]@ == "14+"@); assert(c.len() != rating_fourteen()[1]@.len()); }
    }
    lemma_not_one_of(c, rating_fourteen());
    assert forall|i: int| 0 <= i < rating_sixteen().len() implies (#[trigger] rating_sixteen()[i])@ != c by {
        if i == 0 { assert(rating_sixteen()[0]@ == "MA15"@); assert(c[0] != rating_sixteen()[i]@[0]); }
        else if i == 1 { assert(rating_sixteen()[1]@ == "FSK16"@); assert(c.len() != rating_sixteen()[1]@.len()); }
        else if i == 2 { assert(rating_sixteen()[2]@ == "16"@); assert(c.len() != rating_sixteen()[2]@.len()); }
        else if i == 3 { assert(rating_sixteen()[3]@ == "16+"@); assert(c.len() != rating_sixteen()[3]@.len()); }
    }
    lemma_not_one_of(c, rating_sixteen());
    assert(rating_seventeen()[5]@ == c);
}

/// Every label of the age-17 group, however it was written (case, a `RATED`/`RATING`
/// prefix, dashes, spacing), means minimum age 17: allowed under a limit of 17 or
/// more, never under a lower one.
pub proof fn lemma_rated_seventeen(raw: Seq<char>, limit: AgeLimit, allow_unrated: bool)
    requires
        ({
            let c = normalized_certification(raw);
            c == "R"@ || c == "TVMA"@ || c == "MA"@ || c == "NC17"@
        }),
    ensures
        spec_min_age(raw) == Some(17u8),
        spec_is_allowed(Some(raw), Some(limit), allow_unrated) == (17 <= limit.0),
{
    let c = normalized_certification(raw);
    if c == "R"@ {
        lemma_label_r(c);
    }
    if c == "TVMA"@ {
        lemma_label_tvma(c);
    }
    if c == "MA"@ {
        lemma_label_ma(c);
    }
    if c == "NC17"@ {
        lemma_label_nc17(c);
    }
}

proof fn lemma_label_x(c: Seq<char>)
    requires
        c == "X"@,
    ensures
        table_age(c) == Some(18u8),
        digit_prefix_len(c) == 0 || (digit_prefix_len(c) == 2 && c != c.take(2) && c != c.take(2) + "+"@
            && c != "AGE "@ + c.take(2)),
{
    reveal_strlit("0");
    reveal_strlit("0+");
    reveal_strlit("12");
    reveal_strlit("12A");
    reveal_strlit("13");
    reveal_strlit("13+");
    reveal_strlit("14");
    reveal_strlit("14+");
    reveal_strlit("15");
    reveal_strlit("16");
    reveal_strlit("16+");
    reveal_strlit("17");
    reveal_strlit("17+");
    reveal_strlit("6");
    reveal_strlit("6+");
    reveal_strlit("7");
    reveal_strlit("7+");
    reveal_strlit("AL");
    reveal_strlit("ALL");
    reveal_strlit("E");
    reveal_strlit("EVERYONE");
    reveal_strlit("FSK12");
    reveal_strlit("FSK16");
    reveal_strlit("FSK6");
    reveal_strlit("G");
    reveal_strlit("M");
    reveal_strlit("MA");
    reveal_strlit("MA15");
    reveal_strlit("NC17");
    reveal_strlit("PG");
    reveal_strlit("PG13");
    reveal_strlit("R");
    reveal_strlit("TEEN");
    reveal_strlit("TV14");
    reveal_strlit("TVG");
    reveal_strlit("TVMA");
    reveal_strlit("TVPG");
    reveal_strlit("TVY");
    reveal_strlit("TVY7");
    reveal_strlit("U");
    reveal_strlit("X");
    assert(digit_prefix_len(c) == 0);
    assert forall|i: int| 0 <= i < rating_everyone().len() implies (#[trigger] rating_everyone()[i])@ != c by {
        if i == 0 { assert(rating_everyone()[0]@ == "U"@); assert(c[0] != rating_everyone()[i]@[0]); }
        else if i == 1 { assert(rating_everyone()[1]@ == "G"@); assert(c[0] != rating_everyone()[i]@[0]); }
        else if i == 2 { assert(rating_everyone()[2]@ == "TVY"@); assert(c.len() != rating_everyone()[2]@.len()); }
        else if i == 3 { assert(rating_everyone()[3]@ == "TVG"@); assert(c.len() != rating_everyone()[3]@.len()); }
        else if i == 4 { assert(rating_everyone()[4]@ == "ALL"@); assert(c.len() != rating_everyone()[4]@.len()); }
        else if i == 5 { assert(rating_everyone()[5]@ == "AL"@); assert(c.len() != rating_everyone()[5]@.len()); }
        else if i == 6 { assert(rating_everyone()[6]@ == "E"@); assert(c[0] != rating_everyone()[i]@[0]); }
        else if i == 7 { assert(rating_everyone()[7]@ == "0"@); assert(c[0] != rating_everyone()[i]@[0]); }
        else if i == 8 { assert(rating_everyone()[8]@ == "0+"@); assert(c.len() != rating_everyone()[8]@.len()); }
        else if i == 9 { assert(rating_everyone()[9]@ == "EVERYONE"@); assert(c.len() != rating_everyone()[9]@.len()); }
    }
    lemma_not_one_of(c, rating_everyone());
    assert forall|i: int| 0 <= i < rating_guidance().len() implies (#[trigger] rating_guidance()[i])@ != c by {
        if i == 0 { assert(rating_guidance()[0]@ == "PG"@); assert(c.len() != rating_guidance()[0]@.len()); }
        else if i == 1 { assert(rating_guidance()[1]@ == "TVPG"@); assert(c.len() != rating_guidance()[1]@.len()); }
        else if i == 2 { assert(rating_guidance()[2]@ == "TVY7"@); assert(c.len() != rating_guidance()[2]@.len()); }
        else if i == 3 { assert(rating_guidance()[3]@ == "6"@); assert(c[0] != rating_guidance()[i]@[0]); }
        else if i == 4 { assert(rating_guidance()[4]@ == "6+"@); assert(c.len() != rating_guidance()[4]@.len()); }
        else if i == 5 { assert(rating_guidance()[5]@ == "7"@); assert(c[0] != rating_guidance()[i]@[0]); }
        else if i == 6 { assert(rating_guidance()[6]@ == "7+"@); assert(c.len() != rating_guidance()[6]@.len()); }
        else if i == 7 { assert(rating_guidance()[7]@ == "FSK6"@); assert(c.len() != rating_guidance()[7]@.len()); }
    }
    lemma_not_one_of(c, rating_guidance());
    assert forall|i: int| 0 <= i < rating_twelve().len() implies (#[trigger] rating_twelve()[i])@ != c by {
        if i == 0 { assert(rating_twelve()[0]@ == "PG13"@); assert(c.len() != rating_twelve()[0]@.len()); }
        else if i == 1 { assert(rating_twelve()[1]@ == "12A"@); assert(c.len() != rating_twelve()[1]@.len()); }
        else if i == 2 { assert(rating_twelve()[2]@ == "12"@); assert(c.len() != rating_twelve()[2]@.len()); }
        else if i == 3 { assert(rating_twelve()[3]@ == "TV14"@); assert(c.len() != rating_twelve()[3]@.len()); }
        else if i == 4 { assert(rating_twelve()[4]@ == "FSK12"@); assert(c.len() != rating_twelve()[4]@.len()); }
        else if i == 5 { assert(rating_twelve()[5]@ == "M"@); assert(c[0] != rating_twelve()[i]@[0]); }
    }
    lemma_not_one_of(c, rating_twelve());
    assert forall|i: int| 0 <= i < rating_thirteen().len() implies (#[trigger] rating_thirteen()[i])@ != c by {
        if i == 0 { assert(rating_thirteen()[0]@ == "13"@); assert(c.len() != rating_thirteen()[0]@.len()); }
        else if i == 1 { assert(rating_thirteen()[1]@ == "13+"@); assert(c.len() != rating_thirteen()[1]@.len()); }
        else if i == 2 { assert(rating_thirteen()[2]@ == "TEEN"@); assert(c.len() != rating_thirteen()[2]@.len()); }
    }
    lemma_not_one_of(c, rating_thirteen());
    assert forall|i: int| 0 <= i < rating_fourteen().len() implies (#[trigger] rating_fourteen()[i])@ != c by {
        if i == 0 { assert(rating_fourteen()[0]@ == "14"@); assert(c.len() != rating_fourteen()[0]@.len()); }
        else if i == 1 { assert(rating_fourteen()[1]@ == "14+"@); assert(c.len() != rating_fourteen()[1]@.len()); }
    }
    lemma_not_one_of(c, rating_fourteen());
    assert forall|i: int| 0 <= i < rating_sixteen().len() implies (#[trigger] rating_sixteen()[i])@ != c by {
        if i == 0 { assert(rating_sixteen()[0]@ == "MA15"@); assert(c.len() != rating_sixteen()[0]@.len()); }
        else if i == 1 { assert(rating_sixteen()[1]@ == "FSK16"@); assert(c.len() != rating_sixteen()[1]@.len()); }
        else if i == 2 { assert(rating_sixteen()[2]@ == "16"@); assert(c.len() != rating_sixteen()[2]@.len()); }
        else if i == 3 { assert(rating_sixteen()[3]@ == "16+"@); assert(c.len() != rating_sixteen()[3]@.len()); }
    }
    lemma_not_one_of(c, rating_sixteen());
    assert forall|i: int| 0 <= i < rating_seventeen().len() implies (#[trigger] rating_seventeen()[i])@ != c by {
        if i == 0 { assert(rating_seventeen()[0]@ == "R"@); assert(c[0] != rating_seventeen()[i]@[0]); }
        else if i == 1 { assert(rating_seventeen()[1]@ == "TVMA"@); assert(c.len() != rating_seventeen()[1]@.len()); }
        else if i == 2 { assert(rating_seventeen()[2]@ == "MA"@); assert(c.len() != rating_seventeen()[2]@.len()); }
        else if i == 3 { assert(rating_seventeen()[3]@ == "17"@); assert(c.len() != rating_seventeen()[3]@.len()); }
        else if i == 4 { assert(rating_seventeen()[4]@ == "17+"@); assert(c.len() != rating_seventeen()[4]@.len()); }
        else if i == 5 { assert(rating_seventeen()[5]@ == "NC17"@); assert(c.len() != rating_seventeen()[5]@.len()); }
    }
    lemma_not_one_of(c, rating_seventeen());
    assert(rating_adult()[2]@ == c);
}

proof fn lemma_label_xxx(c: Seq<char>)
    requires
        c == "XXX"@,
    ensures
        table_age(c) == Some(18u8),
        digit_prefix_len(c) == 0 || (digit_prefix_len(c) == 2 && c != c.take(2) && c != c.take(2) + "+"@
            && c != "AGE "@ + c.take(2)),
{
    reveal_strlit("0");
    reveal_strlit("0+");
    reveal_strlit("12");
    reveal_strlit("12A");
    reveal_strlit("13");
    reveal_strlit("13+");
    reveal_strlit("14");
    reveal_strlit("14+");
    reveal_strlit("15");
    reveal_strlit("16");
    reveal_strlit("16+");
    reveal_strlit("17");
    reveal_strlit("17+");
    reveal_strlit("6");
    reveal_strlit("6+");
    reveal_strlit("7");
    reveal_strlit("7+");
    reveal_strlit("AL");
    reveal_strlit("ALL");
    reveal_strlit("E");
    reveal_strlit("EVERYONE");
    reveal_strlit("FSK12");
    reveal_strlit("FSK16");
    reveal_strlit("FSK6");
    reveal_strlit("G");
    reveal_strlit("M");
    reveal_strlit("MA");
    reveal_strlit("MA15");
    reveal_strlit("NC17");
    reveal_strlit("PG");
    reveal_strlit("PG13");
    reveal_strlit("R");
    reveal_strlit("TEEN");
    reveal_strlit("TV14");
    reveal_strlit("TVG");
    reveal_strlit("TVMA");
    reveal_strlit("TVPG");
    reveal_strlit("TVY");
    reveal_strlit("TVY7");
    reveal_strlit("U");
    reveal_strlit("XXX");
    assert(digit_prefix_len(c) == 0);
    assert forall|i: int| 0 <= i < rating_everyone().len() implies (#[trigger] rating_everyone()[i])@ != c by {
        if i == 0 { assert(rating_everyone()[0]@ == "U"@); assert(c.len() != rating_everyone()[0]@.len()); }
        else if i == 1 { assert(rating_everyone()[1]@ == "G"@); assert(c.len() != rating_everyone()[1]@.len()); }
        else if i == 2 { assert(rating_everyone()[2]@ == "TVY"@); assert(c[0] != rating_everyone()[i]@[0]); }
        else if i == 3 { assert(rating_everyone()[3]@ == "TVG"@); assert(c[0] != rating_everyone()[i]@[0]); }
        else if i == 4 { assert(rating_everyone()[4]@ == "ALL"@); assert(c[0] != rating_everyone()[i]@[0]); }
        else if i == 5 { assert(rating_everyone()[5]@ == "AL"@); assert(c.len() != rating_everyone()[5]@.len()); }
        else if i == 6 { assert(rating_everyone()[6]@ == "E"@); assert(c.len() != rating_everyone()[6]@.len()); }
        else if i == 7 { assert(rating_everyone()[7]@ == "0"@); assert(c.len() != rating_everyone()[7]@.len()); }
        else if i == 8 { assert(rating_everyone()[8]@ == "0+"@); assert(c.len() != rating_everyone()[8]@.len()); }
        else if i == 9 { assert(rating_everyone()[9]@ == "EVERYONE"@); assert(c.len() != rating_everyone()[9]@.len()); }
    }
    lemma_not_one_of(c, rating_everyone());
    assert forall|i: int| 0 <= i < rating_guidance().len() implies (#[trigger] rating_guidance()[i])@ != c by {
        if i == 0 { assert(rating_guidance()[0]@ == "PG"@); assert(c.len() != rating_guidance()[0]@.len()); }
        else if i == 1 { assert(rating_guidance()[1]@ == "TVPG"@); assert(c.len() != rating_guidance()[1]@.len()); }
        else if i == 2 { assert(rating_guidance()[2]@ == "TVY7"@); assert(c.len() != rating_guidance()[2]@.len()); }
        else if i == 3 { assert(rating_guidance()[3]@ == "6"@); assert(c.len() != rating_guidance()[3]@.len()); }
        else if i == 4 { assert(rating_guidance()[4]@ == "6+"@); assert(c.len() != rating_guidance()[4]@.len()); }
        else if i == 5 { assert(rating_guidance()[5]@ == "7"@); assert(c.len() != rating_guidance()[5]@.len()); }
        else if i == 6 { assert(rating_guidance()[6]@ == "7+"@); assert(c.len() != rating_guidance()[6]@.len()); }
        else if i == 7 { assert(rating_guidance()[7]@ == "FSK6"@); assert(c.len() != rating_guidance()[7]@.len()); }
    }
    lemma_not_one_of(c, rating_guidance());
    assert forall|i: int| 0 <= i < rating_twelve().len() implies (#[trigger] rating_twelve()[i])@ != c by {
        if i == 0 { assert(rating_twelve()[0]@ == "PG13"@); assert(c.len() != rating_twelve()[0]@.len()); }
        else if i == 1 { assert(rating_twelve()[1]@ == "12A"@); assert(c[0] != rating_twelve()[i]@[0]); }
        else if i == 2 { assert(rating_twelve()[2]@ == "12"@); assert(c.len() != rating_twelve()[2]@.len()); }
        else if i == 3 { assert(rating_twelve()[3]@ == "TV14"@); assert(c.len() != rating_twelve()[3]@.len()); }
        else if i == 4 { assert(rating_twelve()[4]@ == "FSK12"@); assert(c.len() != rating_twelve()[4]@.len()); }
        else if i == 5 { assert(rating_twelve()[5]@ == "M"@); assert(c.len() != rating_twelve()[5]@.len()); }
    }
    lemma_not_one_of(c, rating_twelve());
    assert forall|i: int| 0 <= i < rating_thirteen().len() implies (#[trigger] rating_thirteen()[i])@ != c by {
        if i == 0 { assert(rating_thirteen()[0]@ == "13"@); assert(c.len() != rating_thirteen()[0]@.len()); }
        else if i == 1 { assert(rating_thirteen()[1]@ == "13+"@); assert(c[0] != rating_thirteen()[i]@[0]); }
        else if i == 2 { assert(rating_thirteen()[2]@ == "TEEN"@); assert(c.len() != rating_thirteen()[2]@.len()); }
    }
    lemma_not_one_of(c, rating_thirteen());
    assert forall|i: int| 0 <= i < rating_fourteen().len() implies (#[trigger] rating_fourteen()[i])@ != c by {
        if i == 0 { assert(rating_fourteen()[0]@ == "14"@); assert(c.len() != rating_fourteen()[0]@.len()); }
        else if i == 1 { assert(rating_fourteen()[1]@ == "14+"@); assert(c[0] != rating_fourteen()[i]@[0]); }
    }
    lemma_not_one_of(c, rating_fourteen());
    assert forall|i: int| 0 <= i < rating_sixteen().len() implies (#[trigger] rating_sixteen()[i])@ != c by {
        if i == 0 { assert(rating_sixteen()[0]@ == "MA15"@); assert(c.len() != rating_sixteen()[0]@.len()); }
        else if i == 1 { assert(rating_sixteen()[1]@ == "FSK16"@); assert(c.len() != rating_sixteen()[1]@.len()); }
        else if i == 2 { assert(rating_sixteen()[2]@ == "16"@); assert(c.len() != rating_sixteen()[2]@.len()); }
        else if i == 3 { assert(rating_sixteen()[3]@ == "16+"@); assert(c[0] != rating_sixteen()[i]@[0]); }
    }
    lemma_not_one_of(c, rating_sixteen());
    assert forall|i: int| 0 <= i < rating_seventeen().len() implies (#[trigger] rating_seventeen()[i])@ != c by {
        if i == 0 { assert(rating_seventeen()[0]@ == "R"@); assert(c.len() != rating_seventeen()[0]@.len()); }
        else if i == 1 { assert(rating_seventeen()[1]@ == "TVMA"@); assert(c.len() != rating_seventeen()[1]@.len()); }
        else if i == 2 { assert(rating_seventeen()[2]@ == "MA"@); assert(c.len() != rating_seventeen()[2]@.len()); }
        else if i == 3 { assert(rating_seventeen()[3]@ == "17"@); assert(c.len() != rating_seventeen()[3]@.len()); }
        else if i == 4 { assert(rating_seventeen()[4]@ == "17+"@); assert(c[0] != rating_seventeen()[i]@[0]); }
        else if i == 5 { assert(rating_seventeen()[5]@ == "NC17"@); assert(c.len() != rating_seventeen()[5]@.len()); }
    }
    lemma_not_one_of(c, rating_seventeen());
    assert(rating_adult()[3]@ == c);
}

proof fn lemma_label_fsk18(c: Seq<char>)
    requires
        c == "FSK18"@,
    ensures
        table_age(c) == Some(18u8),
        digit_prefix_len(c) == 0 || (digit_prefix_len(c) == 2 && c != c.take(2) && c != c.take(2) + "+"@
            && c != "AGE "@ + c.take(2)),
{
    reveal_strlit("0");
    reveal_strlit("0+");
    reveal_strlit("12");
    reveal_strlit("12A");
    reveal_strlit("13");
    reveal_strlit("13+");
    reveal_strlit("14");
    reveal_strlit("14+");
    reveal_strlit("15");
    reveal_strlit("16");
    reveal_strlit("16+");
    reveal_strlit("17");
    reveal_strlit("17+");
    reveal_strlit("6");
    reveal_strlit("6+");
    reveal_strlit("7");
    reveal_strlit("7+");
    reveal_strlit("AL");
    reveal_strlit("ALL");
    reveal_strlit("E");
    reveal_strlit("EVERYONE");
    reveal_strlit("FSK12");
    reveal_strlit("FSK16");
    reveal_strlit("FSK18");
    reveal_strlit("FSK6");
    reveal_strlit("G");
    reveal_strlit("M");
    reveal_strlit("MA");
    reveal_strlit("MA15");
    reveal_strlit("NC17");
    reveal_strlit("PG");
    reveal_strlit("PG13");
    reveal_strlit("R");
    reveal_strlit("TEEN");
    reveal_strlit("TV14");
    reveal_strlit("TVG");
    reveal_strlit("TVMA");
    reveal_strlit("TVPG");
    reveal_strlit("TVY");
    reveal_strlit("TVY7");
    reveal_strlit("U");
    assert(digit_prefix_len(c) == 0);
    assert forall|i: int| 0 <= i < rating_everyone().len() implies (#[trigger] rating_everyone()[i])@ != c by {
        if i == 0 { assert(rating_everyone()[0]@ == "U"@); assert(c.len() != rating_everyone()[0]@.len()); }
        else if i == 1 { assert(rating_everyone()[1]@ == "G"@); assert(c.len() != rating_everyone()[1]@.len()); }
        else if i == 2 { assert(rating_everyone()[2]@ == "TVY"@); assert(c.len() != rating_everyone()[2]@.len()); }
        else if i == 3 { assert(rating_everyone()[3]@ == "TVG"@); assert(c.len() != rating_everyone()[3]@.len()); }
        else if i == 4 { assert(rating_everyone()[4]@ == "ALL"@); assert(c.len() != rating_everyone()[4]@.len()); }
        else if i == 5 { assert(rating_everyone()[5]@ == "AL"@); assert(c.len() != rating_everyone()[5]@.len()); }
        else if i == 6 { assert(rating_everyone()[6]@ == "E"@); assert(c.len() != rating_everyone()[6]@.len()); }
        else if i == 7 { assert(rating_everyone()[7]@ == "0"@); assert(c.len() != rating_everyone()[7]@.len()); }
        else if i == 8 { assert(rating_everyone()[8]@ == "0+"@); assert(c.len() != rating_everyone()[8]@.len()); }
        else if i == 9 { assert(rating_everyone()[9]@ == "EVERYONE"@); assert(c.len() != rating_everyone()[9]@.len()); }
    }
    lemma_not_one_of(c, rating_everyone());
    assert forall|i: int| 0 <= i < rating_guidance().len() implies (#[trigger] rating_guidance()[i])@ != c by {
        if i == 0 { assert(rating_guidance()[0]@ == "PG"@); assert(c.len() != rating_guidance()[0]@.len()); }
        else if i == 1 { assert(rating_guidance()[1]@ == "TVPG"@); assert(c.len() != rating_guidance()[1]@.len()); }
        else if i == 2 { assert(rating_guidance()[2]@ == "TVY7"@); assert(c.len() != rating_guidance()[2]@.len()); }
        else if i == 3 { assert(rating_guidance()[3]@ == "6"@); assert(c.len() != rating_guidance()[3]@.len()); }
        else if i == 4 { assert(rating_guidance()[4]@ == "6+"@); assert(c.len() != rating_guidance()[4]@.len()); }
        else if i == 5 { assert(rating_guidance()[5]@ == "7"@); assert(c.len() != rating_guidance()[5]@.len()); }
        else if i == 6 { assert(rating_guidance()[6]@ == "7+"@); assert(c.len() != rating_guidance()[6]@.len()); }
        else if i == 7 { assert(rating_guidance()[7]@ == "FSK6"@); assert(c.len() != rating_guidance()[7]@.len()); }
    }
    lemma_not_one_of(c, rating_guidance());
    assert forall|i: int| 0 <= i < rating_twelve().len() implies (#[trigger] rating_twelve()[i])@ != c by {
        if i == 0 { assert(rating_twelve()[0]@ == "PG13"@); assert(c.len() != rating_twelve()[0]@.len()); }
        else if i == 1 { assert(rating_twelve()[1]@ == "12A"@); assert(c.len() != rating_twelve()[1]@.len()); }
        else if i == 2 { assert(rating_twelve()[2]@ == "12"@); assert(c.len() != rating_twelve()[2]@.len()); }
        else if i == 3 { assert(rating_twelve()[3]@ == "TV14"@); assert(c.len() != rating_twelve()[3]@.len()); }
        else if i == 4 { assert(rating_twelve()[4]@ == "FSK12"@); assert(c[4] != rating_twelve()[i]@[4]); }
        else if i == 5 { assert(rating_twelve()[5]@ == "M"@); assert(c.len() != rating_twelve()[5]@.len()); }
    }
    lemma_not_one_of(c, rating_twelve());
    assert forall|i: int| 0 <= i < rating_thirteen().len() implies (#[trigger] rating_thirteen()[i])@ != c by {
        if i == 0 { assert(rating_thirteen()[0]@ == "13"@); assert(c.len() != rating_thirteen()[0]@.len()); }
        else if i == 1 { assert(rating_thirteen()[1]@ == "13+"@); assert(c.len() != rating_thirteen()[1]@.len()); }
        else if i == 2 { assert(rating_thirteen()[2]@ == "TEEN"@); assert(c.len() != rating_thirteen()[2]@.len()); }
    }
    lemma_not_one_of(c, rating_thirteen());
    assert forall|i: int| 0 <= i < rating_fourteen().len() implies (#[trigger] rating_fourteen()[i])@ != c by {
        if i == 0 { assert(rating_fourteen()[0]@ == "14"@); assert(c.len() != rating_fourteen()[0]@.len()); }
        else if i == 1 { assert(rating_fourteen()[1]@ == "14+"@); assert(c.len() != rating_fourteen()[1]@.len()); }
    }
    lemma_not_one_of(c, rating_fourteen());
    assert forall|i: int| 0 <= i < rating_sixteen().len() implies (#[trigger] rating_sixteen()[i])@ != c by {
        if i == 0 { assert(rating_sixteen()[0]@ == "MA15"@); assert(c.len() != rating_sixteen()[0]@.len()); }
        else if i == 1 { assert(rating_sixteen()[1]@ == "FSK16"@); assert(c[4] != rating_sixteen()[i]@[4]); }
        else if i == 2 { assert(rating_sixteen()[2]@ == "16"@); assert(c.len() != rating_sixteen()[2]@.len()); }
        else if i == 3 { assert(rating_sixteen()[3]@ == "16+"@); assert(c.len() != rating_sixteen()[3]@.len()); }
    }
    lemma_not_one_of(c, rating_sixteen());
    assert forall|i: int| 0 <= i < rating_seventeen().len() implies (#[trigger] rating_seventeen()[i])@ != c by {
        if i == 0 { assert(rating_seventeen()[0]@ == "R"@); assert(c.len() != rating_seventeen()[0]@.len()); }
        else if i == 1 { assert(rating_seventeen()[1]@ == "TVMA"@); assert(c.len() != rating_seventeen()[1]@.len()); }
        else if i == 2 { assert(rating_seventeen()[2]@ == "MA"@); assert(c.len() != rating_seventeen()[2]@.len()); }
        else if i == 3 { assert(rating_seventeen()[3]@ == "17"@); assert(c.len() != rating_seventeen()[3]@.len()); }
        else if i == 4 { assert(rating_seventeen()[4]@ == "17+"@); assert(c.len() != rating_seventeen()[4]@.len()); }
        else if i == 5 { assert(rating_seventeen()[5]@ == "NC17"@); assert(c.len() != rating_seventeen()[5]@.len()); }
    }
    lemma_not_one_of(c, rating_seventeen());
    assert(rating_adult()[4]@ == c);
}

proof fn lemma_label_r18(c: Seq<char>)
    requires
        c == "R18"@,
    ensures
        table_age(c) == Some(18u8),
        digit_prefix_len(c) == 0 || (digit_prefix_len(c) == 2 && c != c.take(2) && c != c.take(2) + "+"@
            && c != "AGE "@ + c.take(2)),
{
    reveal_strlit("0");
    reveal_strlit("0+");
    reveal_strlit("12");
    reveal_strlit("12A");
    reveal_strlit("13");
    reveal_strlit("13+");
    reveal_strlit("14");
    reveal_strlit("14+");
    reveal_strlit("15");
    reveal_strlit("16");
    reveal_strlit("16+");
    reveal_strlit("17");
    reveal_strlit("17+");
    reveal_strlit("6");
    reveal_strlit("6+");
    reveal_strlit("7");
    reveal_strlit("7+");
    reveal_strlit("AL");
    reveal_strlit("ALL");
    reveal_strlit("E");
    reveal_strlit("EVERYONE");
    reveal_strlit("FSK12");
    reveal_strlit("FSK16");
    reveal_strlit("FSK6");
    reveal_strlit("G");
    reveal_strlit("M");
    reveal_strlit("MA");
    reveal_strlit("MA15");
    reveal_strlit("NC17");
    reveal_strlit("PG");
    reveal_strlit("PG13");
    reveal_strlit("R");
    reveal_strlit("R18");
    reveal_strlit("TEEN");
    reveal_strlit("TV14");
    reveal_strlit("TVG");
    reveal_strlit("TVMA");
    reveal_strlit("TVPG");
    reveal_strlit("TVY");
    reveal_strlit("TVY7");
    reveal_strlit("U");
    assert(digit_prefix_len(c) == 0);
    assert forall|i: int| 0 <= i < rating_everyone().len() implies (#[trigger] rating_everyone()[i])@ != c by {
        if i == 0 { assert(rating_everyone()[0]@ == "U"@); assert(c.len() != rating_everyone()[0]@.len()); }
        else if i == 1 { assert(rating_everyone()[1]@ == "G"@); assert(c.len() != rating_everyone()[1]@.len()); }
        else if i == 2 { assert(rating_everyone()[2]@ == "TVY"@); assert(c[0] != rating_everyone()[i]@[0]); }
        else if i == 3 { assert(rating_everyone()[3]@ == "TVG"@); assert(c[0] != rating_everyone()[i]@[0]); }
        else if i == 4 { assert(rating_everyone()[4]@ == "ALL"@); assert(c[0] != rating_everyone()[i]@[0]); }
        else if i == 5 { assert(rating_everyone()[5]@ == "AL"@); assert(c.len() != rating_everyone()[5]@.len()); }
        else if i == 6 { assert(rating_everyone()[6]@ == "E"@); assert(c.len() != rating_everyone()[6]@.len()); }
        else if i == 7 { assert(rating_everyone()[7]@ == "0"@); assert(c.len() != rating_everyone()[7]@.len()); }
        else if i == 8 { assert(rating_everyone()[8]@ == "0+"@); assert(c.len() != rating_everyone()[8]@.len()); }
        else if i == 9 { assert(rating_everyone()[9]@ == "EVERYONE"@); assert(c.len() != rating_everyone()[9]@.len()); }
    }
    lemma_not_one_of(c, rating_everyone());
    assert forall|i: int| 0 <= i < rating_guidance().len() implies (#[trigger] rating_guidance()[i])@ != c by {
        if i == 0 { assert(rating_guidance()[0]@ == "PG"@); assert(c.len() != rating_guidance()[0]@.len()); }
        else if i == 1 { assert(rating_guidance()[1]@ == "TVPG"@); assert(c.len() != rating_guidance()[1]@.len()); }
        else if i == 2 { assert(rating_guidance()[2]@ == "TVY7"@); assert(c.len() != rating_guidance()[2]@.len()); }
        else if i == 3 { assert(rating_guidance()[3]@ == "6"@); assert(c.len() != rating_guidance()[3]@.len()); }
        else if i == 4 { assert(rating_guidance()[4]@ == "6+"@); assert(c.len() != rating_guidance()[4]@.len()); }
        else if i == 5 { assert(rating_guidance()[5]@ == "7"@); assert(c.len() != rating_guidance()[5]@.len()); }
        else if i == 6 { assert(rating_guidance()[6]@ == "7+"@); assert(c.len() != rating_guidance()[6]@.len()); }
        else if i == 7 { assert(rating_guidance()[7]@ == "FSK6"@); assert(c.len() != rating_guidance()[7]@.len()); }
    }
    lemma_not_one_of(c, rating_guidance());
    assert forall|i: int| 0 <= i < rating_twelve().len() implies (#[trigger] rating_twelve()[i])@ != c by {
        if i == 0 { assert(rating_twelve()[0]@ == "PG13"@); assert(c.len() != rating_twelve()[0]@.len()); }
        else if i == 1 { assert(rating_twelve()[1]@ == "12A"@); assert(c[0] != rating_twelve()[i]@[0]); }
        else if i == 2 { assert(rating_twelve()[2]@ == "12"@); assert(c.len() != rating_twelve()[2]@.len()); }
        else if i == 3 { assert(rating_twelve()[3]@ == "TV14"@); assert(c.len() != rating_twelve()[3]@.len()); }
        else if i == 4 { assert(rating_twelve()[4]@ == "FSK12"@); assert(c.len() != rating_twelve()[4]@.len()); }
        else if i == 5 { assert(rating_twelve()[5]@ == "M"@); assert(c.len() != rating_twelve()[5]@.len()); }
    }
    lemma_not_one_of(c, rating_twelve());
    assert forall|i: int| 0 <= i < rating_thirteen().len() implies (#[trigger] rating_thirteen()[i])@ != c by {
        if i == 0 { assert(rating_thirteen()[0]@ == "13"@); assert(c.len() != rating_thirteen()[0]@.len()); }
        else if i == 1 { assert(rating_thirteen()[1]@ == "13+"@); assert(c[0] != rating_thirteen()[i]@[0]); }
        else if i == 2 { assert(rating_thirteen()[2]@ == "TEEN"@); assert(c.len() != rating_thirteen()[2]@.len()); }
    }
    lemma_not_one_of(c, rating_thirteen());
    assert forall|i: int| 0 <= i < rating_fourteen().len() implies (#[trigger] rating_fourteen()[i])@ != c by {
        if i == 0 { assert(rating_fourteen()[0]@ == "14"@); assert(c.len() != rating_fourteen()[0]@.len()); }
        else if i == 1 { assert(rating_fourteen()[1]@ == "14+"@); assert(c[0] != rating_fourteen()[i]@[0]); }
    }
    lemma_not_one_of(c, rating_fourteen());
    assert forall|i: int| 0 <= i < rating_sixteen().len() implies (#[trigger] rating_sixteen()[i])@ != c by {
        if i == 0 { assert(rating_sixteen()[0]@ == "MA15"@); assert(c.len() != rating_sixteen()[0]@.len()); }
        else if i == 1 { assert(rating_sixteen()[1]@ == "FSK16"@); assert(c.len() != rating_sixteen()[1]@.len()); }
        else if i == 2 { assert(rating_sixteen()[2]@ == "16"@); assert(c.len() != rating_sixteen()[2]@.len()); }
        else if i == 3 { assert(rating_sixteen()[3]@ == "16+"@); assert(c[0] != rating_sixteen()[i]@[0]); }
    }
    lemma_not_one_of(c, rating_sixteen());
    assert forall|i: int| 0 <= i < rating_seventeen().len() implies (#[trigger] rating_seventeen()[i])@ != c by {
        if i == 0 { assert(rating_seventeen()[0]@ == "R"@); assert(c.len() != rating_seventeen()[0]@.len()); }
        else if i == 1 { assert(rating_seventeen()[1]@ == "TVMA"@); assert(c.len() != rating_seventeen()[1]@.len()); }
        else if i == 2 { assert(rating_seventeen()[2]@ == "MA"@); assert(c.len() != rating_seventeen()[2]@.len()); }
        else if i == 3 { assert(rating_seventeen()[3]@ == "17"@); assert(c.len() != rating_seventeen()[3]@.len()); }
        else if i == 4 { assert(rating_seventeen()[4]@ == "17+"@); assert(c[0] != rating_seventeen()[i]@[0]); }
        else if i == 5 { assert(rating_seventeen()[5]@ == "NC17"@); assert(c.len() != rating_seventeen()[5]@.len()); }
    }
    lemma_not_one_of(c, rating_seventeen());
    assert(rating_adult()[5]@ == c);
}

proof fn lemma_label_adult(c: Seq<char>)
    requires
        c == "ADULT"@,
    ensures
        table_age(c) == Some(18u8),
        digit_prefix_len(c) == 0 || (digit_prefix_len(c) == 2 && c != c.take(2) && c != c.take(2) + "+"@
            && c != "AGE "@ + c.take(2)),
{
    reveal_strlit("0");
    reveal_strlit("0+");
    reveal_strlit("12");
    reveal_strlit("12A");
    reveal_strlit("13");
    reveal_strlit("13+");
    reveal_strlit("14");
    reveal_strlit("14+");
    reveal_strlit("15");
    reveal_strlit("16");
    reveal_strlit("16+");
    reveal_strlit("17");
    reveal_strlit("17+");
    reveal_strlit("6");
    reveal_strlit("6+");
    reveal_strlit("7");
    reveal_strlit("7+");
    reveal_strlit("ADULT");
    reveal_strlit("AL");
    reveal_strlit("ALL");
    reveal_strlit("E");
    reveal_strlit("EVERYONE");
    reveal_strlit("FSK12");
    reveal_strlit("FSK16");
    reveal_strlit("FSK6");
    reveal_strlit("G");
    reveal_strlit("M");
    reveal_strlit("MA");
    reveal_strlit("MA15");
    reveal_strlit("NC17");
    reveal_strlit("PG");
    reveal_strlit("PG13");
    reveal_strlit("R");
    reveal_strlit("TEEN");
    reveal_strlit("TV14");
    reveal_strlit("TVG");
    reveal_strlit("TVMA");
    reveal_strlit("TVPG");
    reveal_strlit("TVY");
    reveal_strlit("TVY7");
    reveal_strlit("U");
    assert(digit_prefix_len(c) == 0);
    assert forall|i: int| 0 <= i < rating_everyone().len() implies (#[trigger] rating_everyone()[i])@ != c by {
        if i == 0 { assert(rating_everyone()[0]@ == "U"@); assert(c.len() != rating_everyone()[0]@.len()); }
        else if i == 1 { assert(rating_everyone()[1]@ == "G"@); assert(c.len() != rating_everyone()[1]@.len()); }
        else if i == 2 { assert(rating_everyone()[2]@ == "TVY"@); assert(c.len() != rating_everyone()[2]@.len()); }
        else if i == 3 { assert(rating_everyone()[3]@ == "TVG"@); assert(c.len() != rating_everyone()[3]@.len()); }
        else if i == 4 { assert(rating_everyone()[4]@ == "ALL"@); assert(c.len() != rating_everyone()[4]@.len()); }
        else if i == 5 { assert(rating_everyone()[5]@ == "AL"@); assert(c.len() != rating_everyone()[5]@.len()); }
        else if i == 6 { assert(rating_everyone()[6]@ == "E"@); assert(c.len() != rating_everyone()[6]@.len()); }
        else if i == 7 { assert(rating_everyone()[7]@ == "0"@); assert(c.len() != rating_everyone()[7]@.len()); }
        else if i == 8 { assert(rating_everyone()[8]@ == "0+"@); assert(c.len() != rating_everyone()[8]@.len()); }
        else if i == 9 { assert(rating_everyone()[9]@ == "EVERYONE"@); assert(c.len() != rating_everyone()[9]@.len()); }
    }
    lemma_not_one_of(c, rating_everyone());
    assert forall|i: int| 0 <= i < rating_guidance().len() implies (#[trigger] rating_guidance()[i])@ != c by {
        if i == 0 { assert(rating_guidance()[0]@ == "PG"@); assert(c.len() != rating_guidance()[0]@.len()); }
        else if i == 1 { assert(rating_guidance()[1]@ == "TVPG"@); assert(c.len() != rating_guidance()[1]@.len()); }
        else if i == 2 { assert(rating_guidance()[2]@ == "TVY7"@); assert(c.len() != rating_guidance()[2]@.len()); }
        else if i == 3 { assert(rating_guidance()[3]@ == "6"@); assert(c.len() != rating_guidance()[3]@.len()); }
        else if i == 4 { assert(rating_guidance()[4]@ == "6+"@); assert(c.len() != rating_guidance()[4]@.len()); }
        else if i == 5 { assert(rating_guidance()[5]@ == "7"@); assert(c.len() != rating_guidance()[5]@.len()); }
        else if i == 6 { assert(rating_guidance()[6]@ == "7+"@); assert(c.len() != rating_guidance()[6]@.len()); }
        else if i == 7 { assert(rating_guidance()[7]@ == "FSK6"@); assert(c.len() != rating_guidance()[7]@.len()); }
    }
    lemma_not_one_of(c, rating_guidance());
    assert forall|i: int| 0 <= i < rating_twelve().len() implies (#[trigger] rating_twelve()[i])@ != c by {
        if i == 0 { assert(rating_twelve()[0]@ == "PG13"@); assert(c.len() != rating_twelve()[0]@.len()); }
        else if i == 1 { assert(rating_twelve()[1]@ == "12A"@); assert(c.len() != rating_twelve()[1]@.len()); }
        else if i == 2 { assert(rating_twelve()[2]@ == "12"@); assert(c.len() != rating_twelve()[2]@.len()); }
        else if i == 3 { assert(rating_twelve()[3]@ == "TV14"@); assert(c.len() != rating_twelve()[3]@.len()); }
        else if i == 4 { assert(rating_twelve()[4]@ == "FSK12"@); assert(c[0] != rating_twelve()[i]@[0]); }
        else if i == 5 { assert(rating_twelve()[5]@ == "M"@); assert(c.len() != rating_twelve()[5]@.len()); }
    }
    lemma_not_one_of(c, rating_twelve());
    assert forall|i: int| 0 <= i < rating_thirteen().len() implies (#[trigger] rating_thirteen()[i])@ != c by {
        if i == 0 { assert(rating_thirteen()[0]@ == "13"@); assert(c.len() != rating_thirteen()[0]@.len()); }
        else if i == 1 { assert(rating_thirteen()[1]@ == "13+"@); assert(c.len() != rating_thirteen()[1]@.len()); }
        else if i == 2 { assert(rating_thirteen()[2]@ == "TEEN"@); assert(c.len() != rating_thirteen()[2]@.len()); }
    }
    lemma_not_one_of(c, rating_thirteen());
    assert forall|i: int| 0 <= i < rating_fourteen().len() implies (#[trigger] rating_fourteen()[i])@ != c by {
        if i == 0 { assert(rating_fourteen()[0]@ == "14"@); assert(c.len() != rating_fourteen()[0]@.len()); }
        else if i == 1 { assert(rating_fourteen()[1]@ == "14+"@); assert(c.len() != rating_fourteen()[1]@.len()); }
    }
    lemma_not_one_of(c, rating_fourteen());
    assert forall|i: int| 0 <= i < rating_sixteen().len() implies (#[trigger] rating_sixteen()[i])@ != c by {
        if i == 0 { assert(rating_sixteen()[0]@ == "MA15"@); assert(c.len() != rating_sixteen()[0]@.len()); }
        else if i == 1 { assert(rating_sixteen()[1]@ == "FSK16"@); assert(c[0] != rating_sixteen()[i]@[0]); }
        else if i == 2 { assert(rating_sixteen()[2]@ == "16"@); assert(c.len() != rating_sixteen()[2]@.len()); }
        else if i == 3 { assert(rating_sixteen()[3]@ == "16+"@); assert(c.len() != rating_sixteen()[3]@.len()); }
    }
    lemma_not_one_of(c, rating_sixteen());
    assert forall|i: int| 0 <= i < rating_seventeen().len() implies (#[trigger] rating_seventeen()[i])@ != c by {
        if i == 0 { assert(rating_seventeen()[0]@ == "R"@); assert(c.len() != rating_seventeen()[0]@.len()); }
        else if i == 1 { assert(rating_seventeen()[1]@ == "TVMA"@); assert(c.len() != rating_seventeen()[1]@.len()); }
        else if i == 2 { assert(rating_seventeen()[2]@ == "MA"@); assert(c.len() != rating_seventeen()[2]@.len()); }
        else if i == 3 { assert(rating_seventeen()[3]@ == "17"@); assert(c.len() != rating_seventeen()[3]@.len()); }
        else if i == 4 { assert(rating_seventeen()[4]@ == "17+"@); assert(c.len() != rating_seventeen()[4]@.len()); }
        else if i == 5 { assert(rating_seventeen()[5]@ == "NC17"@); assert(c.len() != rating_seventeen()[5]@.len()); }
    }
    lemma_not_one_of(c, rating_seventeen());
    assert(rating_adult()[6]@ == c);
}

proof fn lemma_label_ao(c: Seq<char>)
    requires
        c == "AO"@,
    ensures
        table_age(c) == Some(18u8),
        digit_prefix_len(c) == 0 || (digit_prefix_len(c) == 2 && c != c.take(2) && c != c.take(2) + "+"@
            && c != "AGE "@ + c.take(2)),
{
    reveal_strlit("0");
    reveal_strlit("0+");
    reveal_strlit("12");
    reveal_strlit("12A");
    reveal_strlit("13");
    reveal_strlit("13+");
    reveal_strlit("14");
    reveal_strlit("14+");
    reveal_strlit("15");
    reveal_strlit("16");
    reveal_strlit("16+");
    reveal_strlit("17");
    reveal_strlit("17+");
    reveal_strlit("6");
    reveal_strlit("6+");
    reveal_strlit("7");
    reveal_strlit("7+");
    reveal_strlit("AL");
    reveal_strlit("ALL");
    reveal_strlit("AO");
    reveal_strlit("E");
    reveal_strlit("EVERYONE");
    reveal_strlit("FSK12");
    reveal_strlit("FSK16");
    reveal_strlit("FSK6");
    reveal_strlit("G");
    reveal_strlit("M");
    reveal_strlit("MA");
    reveal_strlit("MA15");
    reveal_strlit("NC17");
    reveal_strlit("PG");
    reveal_strlit("PG13");
    reveal_strlit("R");
    reveal_strlit("TEEN");
    reveal_strlit("TV14");
    reveal_strlit("TVG");
    reveal_strlit("TVMA");
    reveal_strlit("TVPG");
    reveal_strlit("TVY");
    reveal_strlit("TVY7");
    reveal_strlit("U");
    assert(digit_prefix_len(c) == 0);
    assert forall|i: int| 0 <= i < rating_everyone().len() implies (#[trigger] rating_everyone()[i])@ != c by {
        if i == 0 { assert(rating_everyone()[0]@ == "U"@); assert(c.len() != rating_everyone()[0]@.len()); }
        else if i == 1 { assert(rating_everyone()[1]@ == "G"@); assert(c.len() != rating_everyone()[1]@.len()); }
        else if i == 2 { assert(rating_everyone()[2]@ == "TVY"@); assert(c.len() != rating_everyone()[2]@.len()); }
        else if i == 3 { assert(rating_everyone()[3]@ == "TVG"@); assert(c.len() != rating_everyone()[3]@.len()); }
        else if i == 4 { assert(rating_everyone()[4]@ == "ALL"@); assert(c.len() != rating_everyone()[4]@.len()); }
        else if i == 5 { assert(rating_everyone()[5]@ == "AL"@); assert(c[1] != rating_everyone()[i]@[1]); }
        else if i == 6 { assert(rating_everyone()[6]@ == "E"@); assert(c.len() != rating_everyone()[6]@.len()); }
        else if i == 7 { assert(rating_everyone()[7]@ == "0"@); assert(c.len() != rating_everyone()[7]@.len()); }
        else if i == 8 { assert(rating_everyone()[8]@ == "0+"@); assert(c[0] != rating_everyone()[i]@[0]); }
        else if i == 9 { assert(rating_everyone()[9]@ == "EVERYONE"@); assert(c.len() != rating_everyone()[9]@.len()); }
    }
    lemma_not_one_of(c, rating_everyone());
    assert forall|i: int| 0 <= i < rating_guidance().len() implies (#[trigger] rating_guidance()[i])@ != c by {
        if i == 0 { assert(rating_guidance()[0]@ == "PG"@); assert(c[0] != rating_guidance()[i]@[0]); }
        else if i == 1 { assert(rating_guidance()[1]@ == "TVPG"@); assert(c.len() != rating_guidance()[1]@.len()); }
        else if i == 2 { assert(rating_guidance()[2]@ == "TVY7"@); assert(c.len() != rating_guidance()[2]@.len()); }
        else if i == 3 { assert(rating_guidance()[3]@ == "6"@); assert(c.len() != rating_guidance()[3]@.len()); }
        else if i == 4 { assert(rating_guidance()[4]@ == "6+"@); assert(c[0] != rating_guidance()[i]@[0]); }
        else if i == 5 { assert(rating_guidance()[5]@ == "7"@); assert(c.len() != rating_guidance()[5]@.len()); }
        else if i == 6 { assert(rating_guidance()[6]@ == "7+"@); assert(c[0] != rating_guidance()[i]@[0]); }
        else if i == 7 { assert(rating_guidance()[7]@ == "FSK6"@); assert(c.len() != rating_guidance()[7]@.len()); }
    }
    lemma_not_one_of(c, rating_guidance());
    assert forall|i: int| 0 <= i < rating_twelve().len() implies (#[trigger] rating_twelve()[i])@ != c by {
        if i == 0 { assert(rating_twelve()[0]@ == "PG13"@); assert(c.len() != rating_twelve()[0]@.len()); }
        else if i == 1 { assert(rating_twelve()[1]@ == "12A"@); assert(c.len() != rating_twelve()[1]@.len()); }
        else if i == 2 { assert(rating_twelve()[2]@ == "12"@); assert(c[0] != rating_twelve()[i]@[0]); }
        else if i == 3 { assert(rating_twelve()[3]@ == "TV14"@); assert(c.len() != rating_twelve()[3]@.len()); }
        else if i == 4 { assert(rating_twelve()[4]@ == "FSK12"@); assert(c.len() != rating_twelve()[4]@.len()); }
        else if i == 5 { assert(rating_twelve()[5]@ == "M"@); assert(c.len() != rating_twelve()[5]@.len()); }
    }
    lemma_not_one_of(c, rating_twelve());
    assert forall|i: int| 0 <= i < rating_thirteen().len() implies (#[trigger] rating_thirteen()[i])@ != c by {
        if i == 0 { assert(rating_thirteen()[0]@ == "13"@); assert(c[0] != rating_thirteen()[i]@[0]); }
        else if i == 1 { assert(rating_thirteen()[1]@ == "13+"@); assert(c.len() != rating_thirteen()[1]@.len()); }
        else if i == 2 { assert(rating_thirteen()[2]@ == "TEEN"@); assert(c.len() != rating_thirteen()[2]@.len()); }
    }
    lemma_not_one_of(c, rating_thirteen());
    assert forall|i: int| 0 <= i < rating_fourteen().len() implies (#[trigger] rating_fourteen()[i])@ != c by {
        if i == 0 { assert(rating_fourteen()[0]@ == "14"@); assert(c[0] != rating_fourteen()[i]@[0]); }
        else if i == 1 { assert(rating_fourteen()[1]@ == "14+"@); assert(c.len() != rating_fourteen()[1]@.len()); }
    }
    lemma_not_one_of(c, rating_fourteen());
    assert forall|i: int| 0 <= i < rating_sixteen().len() implies (#[trigger] rating_sixteen()[i])@ != c by {
        if i == 0 { assert(rating_sixteen()[0]@ == "MA15"@); assert(c.len() != rating_sixteen()[0]@.len()); }
        else if i == 1 { assert(rating_sixteen()[1]@ == "FSK16"@); assert(c.len() != rating_sixteen()[1]@.len()); }
        else if i == 2 { assert(rating_sixteen()[2]@ == "16"@); assert(c[0] != rating_sixteen()[i]@[0]); }
        else if i == 3 { assert(rating_sixteen()[3]@ == "16+"@); assert(c.len() != rating_sixteen()[3]@.len()); }
    }
    lemma_not_one_of(c, rating_sixteen());
    assert forall|i: int| 0 <= i < rating_seventeen().len() implies (#[trigger] rating_seventeen()[i])@ != c by {
        if i == 0 { assert(rating_seventeen()[0]@ == "R"@); assert(c.len() != rating_seventeen()[0]@.len()); }
        else if i == 1 { assert(rating_seventeen()[1]@ == "TVMA"@); assert(c.len() != rating_seventeen()[1]@.len()); }
        else if i == 2 { assert(rating_seventeen()[2]@ == "MA"@); assert(c[0] != rating_seventeen()[i]@[0]); }
        else if i == 3 { assert(rating_seventeen()[3]@ == "17"@); assert(c[0] != rating_seventeen()[i]@[0]); }
        else if i == 4 { assert(rating_seventeen()[4]@ == "17+"@); assert(c.len() != rating_seventeen()[4]@.len()); }
        else if i == 5 { assert(rating_seventeen()[5]@ == "NC17"@); assert(c.len() != rating_seventeen()[5]@.len()); }
    }
    lemma_not_one_of(c, rating_seventeen());
    assert(c[0] != "15"@[0]);
    assert(rating_adult()[7]@ == c);
}

/// Every label of the age-18 group, however it was written (case, a `RATED`/`RATING`
/// prefix, dashes, spacing), means minimum age 18: allowed under a limit of 18 or
/// more, never under a lower one.
pub proof fn lemma_rated_eighteen(raw: Seq<char>, limit: AgeLimit, allow_unrated: bool)
    requires
        ({
            let c = normalized_certification(raw);
            c == "X"@ || c == "XXX"@ || c == "FSK18"@ || c == "R18"@ || c == "ADULT"@ || c == "AO"@
        }),
    ensures
        spec_min_age(raw) == Some(18u8),
        spec_is_allowed(Some(raw), Some(limit), allow_unrated) == (18 <= limit.0),
{
    let c = normalized_certification(raw);
    if c == "X"@ {
        lemma_label_x(c);
    }
    if c == "XXX"@ {
        lemma_label_xxx(c);
    }
    if c == "FSK18"@ {
        lemma_label_fsk18(c);
    }
    if c == "R18"@ {
        lemma_label_r18(c);
    }
    if c == "ADULT"@ {
        lemma_label_adult(c);
    }
    if c == "AO"@ {
        lemma_label_ao(c);
    }
}


/// A bare age is itself: one or two digits, alone or followed by `+`, mean that many
/// years, whatever the systems' labels say.
pub proof fn lemma_bare_age_is_itself(raw: Seq<char>, a: char, b: char)
    requires
        is_ascii_digit(a),
        is_ascii_digit(b),
        normalized_certification(raw) == seq![a, b] || normalized_certification(raw) == seq![a, b, '+'],
    ensures
        spec_min_age(raw) == Some(
            (digit_value(a) * 10 + digit_value(b)) as u8,
        ),
{
    let c = normalized_certification(raw);
    reveal_strlit("+");
    reveal_with_fuel(digit_prefix_len, 4);
    reveal_with_fuel(digits_value, 3);
    if c == seq![a, b] {
        assert(c.drop_first().drop_first() =~= Seq::<char>::empty());
        assert(digit_prefix_len(c) == 2);
        assert(c.take(2) =~= c);
        assert(seq![a, b].drop_last() =~= seq![a]);
        assert(seq![a].drop_last() =~= Seq::<char>::empty());
    } else if c == seq![a, b, '+'] {
        assert(c.drop_first().drop_first().drop_first() =~= Seq::<char>::empty());
        assert(digit_prefix_len(c) == 2);
        assert(c.take(2) =~= seq![a, b]);
        assert(c =~= seq![a, b] + "+"@);
        assert(seq![a, b].drop_last() =~= seq![a]);
        assert(seq![a].drop_last() =~= Seq::<char>::empty());
    }
}

} // verus!
