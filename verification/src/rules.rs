//! User rules that hide, favourite, regroup, renumber or rename playlist entries on
//! every refresh, with presets for the jobs every large playlist needs doing.

use vstd::prelude::*;
use regex::RegexBuilder;
use crate::error::CoreError;
use crate::m3u::strings_view;
use crate::model::PlaylistEntry;
use crate::pattern::{to_lowercase, unicode_lowercase};
use crate::text::{
    append, chars_of, contains, ends_with, eq_at, find_from, occurs_at, opt_view, owned, replace_all,
    replace_str, seq_eq, slice, starts_with, string_of,
};
use crate::title::join_words;
use crate::words::{join, word_bounds, words};

pub mod presets;

verus! {

broadcast use vstd::string::group_string_axioms;

#[derive(Debug, Clone, Copy, PartialEq, Eq, Structural)]
pub enum Field {
    Name,
    Group,
    Url,
    Language,
    Country,
}

#[derive(Debug, Clone, Copy, PartialEq, Eq, Structural)]
pub enum Match {
    Contains,
    Equals,
    StartsWith,
    EndsWith,
    Regex,
}

#[derive(Debug, Clone, PartialEq, Eq)]
pub enum Action {
    Hide,
    Favorite,
    SetGroup(String),
    /// Replace the matched portion. With `Match::Regex`, `$1`-style captures are supported.
    Rename(String),
    /// Strip the matched text from the name, leaving the rest.
    StripFromName,
    SetNumber(u32),
}

#[derive(Debug, Clone, PartialEq, Eq)]
pub struct Rule {
    pub id: String,
    pub enabled: bool,
    pub field: Field,
    pub match_kind: Match,
    pub pattern: String,
    pub case_sensitive: bool,
    pub action: Action,
}

/// What a rule pass did to an entry, so the UI can preview a rule before applying it.
#[derive(Debug, Clone, PartialEq, Eq)]
pub struct Outcome {
    pub hidden: bool,
    pub favorite: bool,
    pub renamed: bool,
    pub regrouped: bool,
    /// Ids of the rules that fired, in order.
    pub fired: Vec<String>,
}

// ---------------------------------------------------------------------------------------
// User patterns, through the `regex` crate.
// ---------------------------------------------------------------------------------------

/// Why `RegexBuilder` refuses `pattern` (case-insensitive or not, within its size
/// limit), as the error reads; `None` when it compiles.
pub uninterp spec fn user_regex_error(pattern: Seq<char>, case_insensitive: bool) -> Option<Seq<char>>;

/// Whether the compiled `pattern` matches somewhere in `subject`.
pub uninterp spec fn user_regex_matches(pattern: Seq<char>, case_insensitive: bool, subject: Seq<char>) -> bool;

/// `text` with every match of the compiled `pattern` replaced by `replacement`, `$1`
/// and the like standing for groups.
pub uninterp spec fn user_regex_replaced(
    pattern: Seq<char>,
    case_insensitive: bool,
    text: Seq<char>,
    replacement: Seq<char>,
) -> Seq<char>;

/// `RegexBuilder::new(pattern).case_insensitive(..).size_limit(1 << 20).build()`, the
/// error as its message.
///
/// Trusted: the contract names the outcome and claims nothing else of it.
#[verifier::external_body]
fn build_error(pattern: &str, case_insensitive: bool) -> (r: Option<String>)
    ensures
        opt_view(r) == user_regex_error(pattern@, case_insensitive),
{
    match RegexBuilder::new(pattern).case_insensitive(case_insensitive).size_limit(1 << 20).build() {
        Ok(_) => None,
        Err(e) => Some(e.to_string()),
    }
}

/// The same build, then `Regex::is_match(subject)`.
///
/// Trusted: the contract names the answer; the pattern is one that builds.
#[verifier::external_body]
fn regex_is_match(pattern: &str, case_insensitive: bool, subject: &str) -> (r: bool)
    requires
        user_regex_error(pattern@, case_insensitive) is None,
    ensures
        r == user_regex_matches(pattern@, case_insensitive, subject@),
{
    let re = RegexBuilder::new(pattern).case_insensitive(case_insensitive).size_limit(1 << 20).build();
    re.map(|re| re.is_match(subject)).unwrap_or(false)
}

/// The same build, then `Regex::replace_all(text, replacement)`.
///
/// Trusted: the contract names the result; the pattern is one that builds.
#[verifier::external_body]
fn regex_replace(pattern: &str, case_insensitive: bool, text: &str, replacement: &str) -> (r: String)
    requires
        user_regex_error(pattern@, case_insensitive) is None,
    ensures
        r@ == user_regex_replaced(pattern@, case_insensitive, text@, replacement@),
{
    let re = RegexBuilder::new(pattern).case_insensitive(case_insensitive).size_limit(1 << 20).build();
    re.map(|re| re.replace_all(text, replacement).into_owned()).unwrap_or_default()
}

// ---------------------------------------------------------------------------------------
// Rules, as the contracts see them.
// ---------------------------------------------------------------------------------------

pub enum ActionV {
    Hide,
    Favorite,
    SetGroup(Seq<char>),
    Rename(Seq<char>),
    StripFromName,
    SetNumber(u32),
}

pub struct RuleV {
    pub id: Seq<char>,
    pub enabled: bool,
    pub field: Field,
    pub match_kind: Match,
    pub pattern: Seq<char>,
    pub case_sensitive: bool,
    pub action: ActionV,
}

pub open spec fn action_view(a: Action) -> ActionV {
    match a {
        Action::Hide => ActionV::Hide,
        Action::Favorite => ActionV::Favorite,
        Action::SetGroup(g) => ActionV::SetGroup(g@),
        Action::Rename(r) => ActionV::Rename(r@),
        Action::StripFromName => ActionV::StripFromName,
        Action::SetNumber(n) => ActionV::SetNumber(n),
    }
}

pub open spec fn rule_view(r: Rule) -> RuleV {
    RuleV {
        id: r.id@,
        enabled: r.enabled,
        field: r.field,
        match_kind: r.match_kind,
        pattern: r.pattern@,
        case_sensitive: r.case_sensitive,
        action: action_view(r.action),
    }
}

pub open spec fn rules_view(rules: Seq<Rule>) -> Seq<RuleV> {
    rules.map_values(|r: Rule| rule_view(r))
}

/// The fields of an entry a rule reads or writes.
#[verifier::ext_equal]
pub struct EntryV {
    pub name: Seq<char>,
    pub group: Option<Seq<char>>,
    pub url: Seq<char>,
    pub language: Option<Seq<char>>,
    pub country: Option<Seq<char>>,
    pub number: Option<u32>,
}

pub open spec fn entry_view(e: PlaylistEntry) -> EntryV {
    EntryV {
        name: e.name@,
        group: opt_view(e.group),
        url: e.url@,
        language: opt_view(e.language),
        country: opt_view(e.country),
        number: e.number,
    }
}

/// Everything about an entry no rule touches is as it was.
pub open spec fn untouched_alike(a: PlaylistEntry, b: PlaylistEntry) -> bool {
    &&& a.url == b.url
    &&& a.kind == b.kind
    &&& a.tvg_id == b.tvg_id
    &&& a.tvg_name == b.tvg_name
    &&& a.logo == b.logo
    &&& a.shift_minutes == b.shift_minutes
    &&& a.language == b.language
    &&& a.country == b.country
    &&& a.is_radio == b.is_radio
    &&& a.catchup == b.catchup
    &&& a.http == b.http
    &&& a.source_line == b.source_line
}

#[verifier::ext_equal]
pub struct OutcomeV {
    pub hidden: bool,
    pub favorite: bool,
    pub renamed: bool,
    pub regrouped: bool,
    pub fired: Seq<Seq<char>>,
}

pub open spec fn outcome_view(o: Outcome) -> OutcomeV {
    OutcomeV {
        hidden: o.hidden,
        favorite: o.favorite,
        renamed: o.renamed,
        regrouped: o.regrouped,
        fired: strings_view(o.fired@),
    }
}

pub open spec fn no_outcome() -> OutcomeV {
    OutcomeV { hidden: false, favorite: false, renamed: false, regrouped: false, fired: Seq::empty() }
}

/// The name a field goes by.
pub open spec fn field_name(f: Field) -> Seq<char> {
    match f {
        Field::Name => "Name"@,
        Field::Group => "Group"@,
        Field::Url => "Url"@,
        Field::Language => "Language"@,
        Field::Country => "Country"@,
    }
}

/// The text of `field` in an entry; `None` for an optional field that is not set.
pub open spec fn subject_of(e: EntryV, field: Field) -> Option<Seq<char>> {
    match field {
        Field::Name => Some(e.name),
        Field::Group => e.group,
        Field::Url => Some(e.url),
        Field::Language => e.language,
        Field::Country => e.country,
    }
}

/// A plain (non-regex) comparison.
pub open spec fn plain_match(kind: Match, hay: Seq<char>, needle: Seq<char>) -> bool {
    match kind {
        Match::Contains => contains(hay, needle),
        Match::Equals => hay == needle,
        Match::StartsWith => starts_with(hay, needle),
        Match::EndsWith => ends_with(hay, needle),
        Match::Regex => false,
    }
}

/// Whether a rule's pattern matches `subject`: through the compiled pattern for a regex
/// rule, otherwise by plain comparison, both sides lower-cased unless the rule is case
/// sensitive.
pub open spec fn rule_fires(r: RuleV, subject: Seq<char>) -> bool {
    if r.match_kind == Match::Regex {
        user_regex_matches(r.pattern, !r.case_sensitive, subject)
    } else if r.case_sensitive {
        plain_match(r.match_kind, subject, r.pattern)
    } else {
        plain_match(r.match_kind, unicode_lowercase(subject), unicode_lowercase(r.pattern))
    }
}

/// `h[i..]` with every run of `k` characters whose lower case is `ln` removed, scanning
/// left to right without overlap.
pub open spec fn strip_folded_from(h: Seq<char>, ln: Seq<char>, k: nat, i: int) -> Seq<char>
    decreases h.len() - i,
{
    if i >= h.len() || k == 0 {
        h.subrange(if i < 0 { 0 } else if i > h.len() { h.len() as int } else { i }, h.len() as int)
    } else if i + k <= h.len() && unicode_lowercase(h.subrange(i, i + k)) == ln {
        strip_folded_from(h, ln, k, i + k)
    } else {
        seq![h[i]] + strip_folded_from(h, ln, k, i + 1)
    }
}

/// `h` with the plain pattern `needle` removed wherever it occurs: exactly, or ignoring
/// case; an empty pattern removes nothing.
pub open spec fn strip_plain(h: Seq<char>, needle: Seq<char>, case_sensitive: bool) -> Seq<char> {
    if case_sensitive {
        replace_all(h, needle, Seq::empty())
    } else if needle.len() == 0 {
        h
    } else {
        strip_folded_from(h, unicode_lowercase(needle), needle.len(), 0)
    }
}

/// What one rule does to an entry and to the outcome so far.
pub open spec fn apply_rule(st: (EntryV, OutcomeV), r: RuleV) -> (EntryV, OutcomeV) {
    let (e, o) = st;
    if !r.enabled {
        st
    } else {
        match subject_of(e, r.field) {
            None => st,
            Some(subject) => if !rule_fires(r, subject) {
                st
            } else {
                let o1 = OutcomeV { fired: o.fired.push(r.id), ..o };
                let is_regex = r.match_kind == Match::Regex;
                match r.action {
                    ActionV::Hide => (e, OutcomeV { hidden: true, ..o1 }),
                    ActionV::Favorite => (e, OutcomeV { favorite: true, ..o1 }),
                    ActionV::SetGroup(g) => (EntryV { group: Some(g), ..e }, OutcomeV { regrouped: true, ..o1 }),
                    ActionV::SetNumber(n) => (EntryV { number: Some(n), ..e }, o1),
                    ActionV::Rename(rep) => (
                        EntryV {
                            name: if is_regex {
                                user_regex_replaced(r.pattern, !r.case_sensitive, e.name, rep)
                            } else {
                                rep
                            },
                            ..e
                        },
                        OutcomeV { renamed: true, ..o1 },
                    ),
                    ActionV::StripFromName => (
                        EntryV {
                            name: join(
                                words(
                                    if is_regex {
                                        user_regex_replaced(
                                            r.pattern,
                                            !r.case_sensitive,
                                            e.name,
                                            Seq::empty(),
                                        )
                                    } else {
                                        strip_plain(e.name, r.pattern, r.case_sensitive)
                                    },
                                ),
                                " "@,
                            ),
                            ..e
                        },
                        OutcomeV { renamed: true, ..o1 },
                    ),
                }
            },
        }
    }
}

/// Every rule in order, each seeing the edits of those before it.
pub open spec fn apply_rules(st: (EntryV, OutcomeV), rules: Seq<RuleV>) -> (EntryV, OutcomeV)
    decreases rules.len(),
{
    if rules.len() == 0 {
        st
    } else {
        apply_rule(apply_rules(st, rules.drop_last()), rules.last())
    }
}

/// The pattern and the reason of the first regex rule whose pattern does not build.
pub open spec fn first_bad_pattern(rules: Seq<RuleV>) -> Option<(Seq<char>, Seq<char>)>
    decreases rules.len(),
{
    if rules.len() == 0 {
        None
    } else if rules[0].match_kind == Match::Regex && user_regex_error(
        rules[0].pattern,
        !rules[0].case_sensitive,
    ) is Some {
        Some((rules[0].pattern, user_regex_error(rules[0].pattern, !rules[0].case_sensitive)->0))
    } else {
        first_bad_pattern(rules.drop_first())
    }
}

/// A regex rule's pattern builds.
pub open spec fn builds(r: RuleV) -> bool {
    r.match_kind == Match::Regex ==> user_regex_error(r.pattern, !r.case_sensitive) is None
}

fn field_label(f: Field) -> (r: &'static str)
    ensures
        r@ == field_name(f),
{
    match f {
        Field::Name => "Name",
        Field::Group => "Group",
        Field::Url => "Url",
        Field::Language => "Language",
        Field::Country => "Country",
    }
}

/// The id a new rule gets: its field's name, a dash and its pattern, lower-cased.
pub open spec fn rule_id(field: Field, pattern: Seq<char>) -> Seq<char> {
    unicode_lowercase(field_name(field) + "-"@ + pattern)
}

impl Rule {
    /// An enabled, case-insensitive rule.
    pub fn new(field: Field, match_kind: Match, pattern: &str, action: Action) -> (r: Self)
        ensures
            r.id@ == rule_id(field, pattern@),
            r.enabled,
            r.field == field,
            r.match_kind == match_kind,
            r.pattern@ == pattern@,
            !r.case_sensitive,
            r.action == action,
    {
        let mut label: Vec<char> = Vec::new();
        crate::text::append_str(&mut label, field_label(field));
        crate::text::append_str(&mut label, "-");
        crate::text::append_str(&mut label, pattern);
        let joined = string_of(label.as_slice());
        Rule {
            id: to_lowercase(joined.as_str()),
            enabled: true,
            field,
            match_kind,
            pattern: owned(pattern),
            case_sensitive: false,
            action,
        }
    }
}

fn copy_action(a: &Action) -> (r: Action)
    ensures
        r == *a,
{
    match a {
        Action::Hide => Action::Hide,
        Action::Favorite => Action::Favorite,
        Action::SetGroup(g) => Action::SetGroup(g.clone()),
        Action::Rename(x) => Action::Rename(x.clone()),
        Action::StripFromName => Action::StripFromName,
        Action::SetNumber(n) => Action::SetNumber(*n),
    }
}

fn copy_rule(r: &Rule) -> (c: Rule)
    ensures
        c == *r,
{
    Rule {
        id: r.id.clone(),
        enabled: r.enabled,
        field: r.field,
        match_kind: r.match_kind,
        pattern: r.pattern.clone(),
        case_sensitive: r.case_sensitive,
        action: copy_action(&r.action),
    }
}

fn plain_compare(kind: Match, hay: &Vec<char>, needle: &Vec<char>) -> (r: bool)
    ensures
        r == plain_match(kind, hay@, needle@),
{
    match kind {
        Match::Contains => match find_from(hay, needle, 0) {
            Some(_) => true,
            None => {
                assert forall|j: int| !occurs_at(hay@, needle@, j) by {
                    if j < 0 {
                    }
                }
                false
            },
        },
        Match::Equals => seq_eq(hay, needle),
        Match::StartsWith => {
            let r = eq_at(hay, 0, needle);
            assert(r ==> hay@.subrange(0, needle@.len() as int) =~= hay@.take(needle@.len() as int));
            assert(starts_with(hay@, needle@) ==> hay@.subrange(0, needle@.len() as int) =~= hay@.take(
                needle@.len() as int,
            ));
            r
        },
        Match::EndsWith => {
            if needle.len() > hay.len() {
                false
            } else {
                let at = hay.len() - needle.len();
                let r = eq_at(hay, at, needle);
                assert(hay@.subrange(at as int, hay@.len() as int) =~= hay@.skip(at as int));
                r
            }
        },
        Match::Regex => false,
    }
}

fn fires(rule: &Rule, subject: &str) -> (r: bool)
    requires
        builds(rule_view(*rule)),
    ensures
        r == rule_fires(rule_view(*rule), subject@),
{
    if rule.match_kind == Match::Regex {
        regex_is_match(rule.pattern.as_str(), !rule.case_sensitive, subject)
    } else if rule.case_sensitive {
        let hay = chars_of(subject);
        let needle = chars_of(rule.pattern.as_str());
        plain_compare(rule.match_kind, &hay, &needle)
    } else {
        let hs = to_lowercase(subject);
        let ns = to_lowercase(rule.pattern.as_str());
        let hay = chars_of(hs.as_str());
        let needle = chars_of(ns.as_str());
        plain_compare(rule.match_kind, &hay, &needle)
    }
}

fn strip_folded(h: &Vec<char>, needle: &Vec<char>) -> (r: Vec<char>)
    requires
        needle@.len() > 0,
    ensures
        r@ == strip_folded_from(h@, unicode_lowercase(needle@), needle@.len(), 0),
{
    let ns = string_of(needle.as_slice());
    let lows = to_lowercase(ns.as_str());
    let ln = chars_of(lows.as_str());
    let k = needle.len();
    let ghost full = strip_folded_from(h@, ln@, k as nat, 0);
    let mut out: Vec<char> = Vec::new();
    let mut i: usize = 0;
    while i < h.len()
        invariant
            i <= h.len(),
            k == needle@.len() > 0,
            ln@ == unicode_lowercase(needle@),
            full == strip_folded_from(h@, ln@, k as nat, 0),
            out@ + strip_folded_from(h@, ln@, k as nat, i as int) == full,
        decreases h.len() - i,
    {
        if k <= h.len() - i {
            let piece = slice(h, i, i + k);
            let ps = string_of(piece.as_slice());
            let pl = to_lowercase(ps.as_str());
            let low = chars_of(pl.as_str());
            if seq_eq(&low, &ln) {
                i = i + k;
                continue;
            }
        }
        let ghost rest = strip_folded_from(h@, ln@, k as nat, i + 1);
        assert(strip_folded_from(h@, ln@, k as nat, i as int) == seq![h@[i as int]] + rest);
        out.push(h[i]);
        assert(out@ + rest =~= old_out_plus(out@.drop_last(), h@[i as int], rest));
        i += 1;
    }
    assert(strip_folded_from(h@, ln@, k as nat, i as int) =~= Seq::<char>::empty());
    assert(out@ + Seq::<char>::empty() =~= out@);
    out
}

spec fn old_out_plus(o: Seq<char>, c: char, rest: Seq<char>) -> Seq<char> {
    o + (seq![c] + rest)
}

fn strip_plain_chars(h: &Vec<char>, needle: &Vec<char>, case_sensitive: bool) -> (r: Vec<char>)
    ensures
        r@ == strip_plain(h@, needle@, case_sensitive),
{
    if case_sensitive {
        let empty: Vec<char> = Vec::new();
        assert(empty@ =~= Seq::<char>::empty());
        replace_str(h, needle, &empty)
    } else if needle.len() == 0 {
        let mut out: Vec<char> = Vec::new();
        append(&mut out, h);
        assert(out@ =~= h@);
        out
    } else {
        strip_folded(h, needle)
    }
}

/// A checked rule set: every regex rule's pattern builds.
#[derive(Debug)]
pub struct RuleSet {
    compiled: Vec<Rule>,
}

impl View for RuleSet {
    type V = Seq<RuleV>;

    closed spec fn view(&self) -> Seq<RuleV> {
        rules_view(self.compiled@)
    }
}

impl RuleSet {
    #[verifier::type_invariant]
    spec fn patterns_build(self) -> bool {
        forall|k: int| 0 <= k < self.compiled@.len() ==> builds(#[trigger] rule_view(self.compiled@[k]))
    }

    /// Check every rule's pattern: the rule set, or the first pattern that does not build
    /// and why.
    pub fn compile(rules: &[Rule]) -> (r: Result<Self, CoreError>)
        ensures
            match r {
                Ok(rs) => first_bad_pattern(rules_view(rules@)) is None && rs@ == rules_view(rules@),
                Err(CoreError::Rule { pattern, reason }) => first_bad_pattern(rules_view(rules@))
                    == Some((pattern@, reason@)),
                Err(_) => false,
            },
    {
        let ghost all = rules_view(rules@);
        let mut compiled: Vec<Rule> = Vec::new();
        let mut k: usize = 0;
        assert(all.skip(0) =~= all);
        while k < rules.len()
            invariant
                k <= rules.len(),
                all == rules_view(rules@),
                first_bad_pattern(all) == first_bad_pattern(all.skip(k as int)),
                rules_view(compiled@) == all.take(k as int),
                forall|j: int| 0 <= j < compiled@.len() ==> builds(#[trigger] rule_view(compiled@[j])),
            decreases rules.len() - k,
        {
            let rule = &rules[k];
            assert(all.skip(k as int)[0] == rule_view(rules@[k as int]));
            assert(all.skip(k as int).drop_first() =~= all.skip(k + 1));
            if rule.match_kind == Match::Regex {
                match build_error(rule.pattern.as_str(), !rule.case_sensitive) {
                    Some(reason) => {
                        return Err(CoreError::Rule { pattern: rule.pattern.clone(), reason });
                    },
                    None => {},
                }
            }
            let c = copy_rule(rule);
            let ghost prev = rules_view(compiled@);
            compiled.push(c);
            assert(rules_view(compiled@) =~= prev.push(rule_view(c)));
            assert(all.take(k + 1) =~= all.take(k as int).push(all[k as int]));
            k += 1;
        }
        assert(all.take(all.len() as int) =~= all);
        assert(all.skip(all.len() as int) =~= Seq::<RuleV>::empty());
        Ok(RuleSet { compiled })
    }

    pub fn len(&self) -> (r: usize)
        ensures
            r == self@.len(),
    {
        self.compiled.len()
    }

    pub fn is_empty(&self) -> (r: bool)
        ensures
            r == (self@.len() == 0),
    {
        self.compiled.len() == 0
    }

    /// Apply every enabled rule to an entry, in order; later rules see earlier edits.
    pub fn apply(&self, entry: &mut PlaylistEntry) -> (r: Outcome)
        ensures
            (entry_view(*final(entry)), outcome_view(r)) == apply_rules(
                (entry_view(*old(entry)), no_outcome()),
                self@,
            ),
            untouched_alike(*old(entry), *final(entry)),
    {
        proof {
            use_type_invariant(self);
        }
        let mut out = Outcome {
            hidden: false,
            favorite: false,
            renamed: false,
            regrouped: false,
            fired: Vec::new(),
        };
        assert(outcome_view(out) =~= no_outcome());
        let ghost all = self@;
        let mut k: usize = 0;
        while k < self.compiled.len()
            invariant
                k <= self.compiled.len(),
                all == rules_view(self.compiled@),
                forall|j: int| 0 <= j < self.compiled@.len() ==> builds(#[trigger] rule_view(self.compiled@[j])),
                (entry_view(*entry), outcome_view(out)) == apply_rules(
                    (entry_view(*old(entry)), no_outcome()),
                    all.take(k as int),
                ),
                untouched_alike(*old(entry), *entry),
            decreases self.compiled.len() - k,
        {
            assert(all.take(k + 1).drop_last() =~= all.take(k as int));
            assert(all.take(k + 1).last() == rule_view(self.compiled@[k as int]));
            apply_one(&self.compiled[k], entry, &mut out);
            k += 1;
        }
        assert(all.take(all.len() as int) =~= all);
        out
    }
}

fn subject_text(entry: &PlaylistEntry, field: Field) -> (r: Option<String>)
    ensures
        opt_view(r) == subject_of(entry_view(*entry), field),
{
    match field {
        Field::Name => Some(entry.name.clone()),
        Field::Group => match &entry.group {
            Some(g) => Some(g.clone()),
            None => None,
        },
        Field::Url => Some(entry.url.clone()),
        Field::Language => match &entry.language {
            Some(g) => Some(g.clone()),
            None => None,
        },
        Field::Country => match &entry.country {
            Some(g) => Some(g.clone()),
            None => None,
        },
    }
}

fn stripped_name(rule: &Rule, name: &str) -> (r: String)
    requires
        builds(rule_view(*rule)),
    ensures
        r@ == join(
            words(
                if rule.match_kind == Match::Regex {
                    user_regex_replaced(rule.pattern@, !rule.case_sensitive, name@, Seq::empty())
                } else {
                    strip_plain(name@, rule.pattern@, rule.case_sensitive)
                },
            ),
            " "@,
        ),
{
    let stripped: Vec<char> = if rule.match_kind == Match::Regex {
        let nothing = "";
        proof {
            reveal_strlit("");
        }
        assert(nothing@ =~= Seq::<char>::empty());
        let t = regex_replace(rule.pattern.as_str(), !rule.case_sensitive, name, nothing);
        chars_of(t.as_str())
    } else {
        let h = chars_of(name);
        let n = chars_of(rule.pattern.as_str());
        strip_plain_chars(&h, &n, rule.case_sensitive)
    };
    let wb = word_bounds(&stripped);
    let joined = join_words(&stripped, &wb);
    assert(Seq::new(wb@.len(), |j: int| stripped@.subrange(wb@[j].0 as int, wb@[j].1 as int))
        =~= words(stripped@));
    string_of(joined.as_slice())
}

fn apply_one(rule: &Rule, entry: &mut PlaylistEntry, out: &mut Outcome)
    requires
        builds(rule_view(*rule)),
    ensures
        (entry_view(*final(entry)), outcome_view(*final(out))) == apply_rule(
            (entry_view(*old(entry)), outcome_view(*old(out))),
            rule_view(*rule),
        ),
        untouched_alike(*old(entry), *final(entry)),
{
    if !rule.enabled {
        return;
    }
    let subject = match subject_text(entry, rule.field) {
        Some(s) => s,
        None => return,
    };
    if !fires(rule, subject.as_str()) {
        return;
    }
    let ghost before = strings_view(out.fired@);
    out.fired.push(rule.id.clone());
    assert(strings_view(out.fired@) =~= before.push(rule.id@));
    match &rule.action {
        Action::Hide => {
            out.hidden = true;
        },
        Action::Favorite => {
            out.favorite = true;
        },
        Action::SetGroup(g) => {
            entry.group = Some(g.clone());
            out.regrouped = true;
        },
        Action::SetNumber(n) => {
            entry.number = Some(*n);
        },
        Action::Rename(rep) => {
            let name = if rule.match_kind == Match::Regex {
                regex_replace(rule.pattern.as_str(), !rule.case_sensitive, entry.name.as_str(), rep.as_str())
            } else {
                rep.clone()
            };
            entry.name = name;
            out.renamed = true;
        },
        Action::StripFromName => {
            let name = stripped_name(rule, entry.name.as_str());
            entry.name = name;
            out.renamed = true;
        },
    }
    assert(entry_view(*entry) =~= apply_rule(
        (entry_view(*old(entry)), outcome_view(*old(out))),
        rule_view(*rule),
    ).0);
    assert(outcome_view(*out) =~= apply_rule(
        (entry_view(*old(entry)), outcome_view(*old(out))),
        rule_view(*rule),
    ).1);
}

/// Rules apply in order, each seeing what those before it did: applying `a` then `b`
/// is applying `a` followed by `b`.
pub proof fn lemma_rules_compose(st: (EntryV, OutcomeV), a: Seq<RuleV>, b: Seq<RuleV>)
    ensures
        apply_rules(st, a + b) == apply_rules(apply_rules(st, a), b),
    decreases b.len(),
{
    if b.len() == 0 {
        assert(a + b =~= a);
    } else {
        assert((a + b).drop_last() =~= a + b.drop_last());
        assert((a + b).last() == b.last());
        lemma_rules_compose(st, a, b.drop_last());
    }
}

/// A disabled rule does nothing, to the entry or to the outcome.
pub proof fn lemma_disabled_rules_do_nothing(st: (EntryV, OutcomeV), rules: Seq<RuleV>)
    requires
        forall|k: int| 0 <= k < rules.len() ==> !(#[trigger] rules[k]).enabled,
    ensures
        apply_rules(st, rules) == st,
    decreases rules.len(),
{
    if rules.len() > 0 {
        assert(!rules[rules.len() - 1].enabled);
        lemma_disabled_rules_do_nothing(st, rules.drop_last());
    }
}

/// A rule on an optional field the entry does not have never fires.
pub proof fn lemma_unset_fields_never_match(st: (EntryV, OutcomeV), r: RuleV)
    requires
        subject_of(st.0, r.field) is None,
    ensures
        apply_rule(st, r) == st,
{
}

/// The outcome lists one id per rule that fired, so never more than there are rules,
/// and hiding or favouriting is never undone by a later rule.
pub proof fn lemma_outcome_only_grows(st: (EntryV, OutcomeV), rules: Seq<RuleV>)
    ensures
        apply_rules(st, rules).1.fired.len() <= st.1.fired.len() + rules.len(),
        st.1.fired.is_prefix_of(apply_rules(st, rules).1.fired),
        st.1.hidden ==> apply_rules(st, rules).1.hidden,
        st.1.favorite ==> apply_rules(st, rules).1.favorite,
    decreases rules.len(),
{
    if rules.len() > 0 {
        lemma_outcome_only_grows(st, rules.drop_last());
        let mid = apply_rules(st, rules.drop_last());
        let fin = apply_rule(mid, rules.last());
        assert(mid.1.fired.is_prefix_of(fin.1.fired)) by {
            if fin.1.fired != mid.1.fired {
                assert(fin.1.fired == mid.1.fired.push(rules.last().id));
            }
        }
    }
}


/// A rule sees only the field it names: two entries that agree on that field get the
/// same verdict from it — it fires on both or on neither, and the outcome it leaves is the
/// same.
pub proof fn lemma_rule_sees_only_its_field(e1: EntryV, e2: EntryV, o: OutcomeV, r: RuleV)
    requires
        r.field == Field::Name ==> e1.name == e2.name,
        r.field == Field::Group ==> e1.group == e2.group,
        r.field == Field::Url ==> e1.url == e2.url,
        r.field == Field::Language ==> e1.language == e2.language,
        r.field == Field::Country ==> e1.country == e2.country,
    ensures
        apply_rule((e1, o), r).1 == apply_rule((e2, o), r).1,
{
}

/// An exact, case-sensitive hiding rule hides an entry precisely when the field it names
/// holds exactly its text: the name, the URL, or the group, language or country when set.
pub proof fn lemma_exact_rule_compares_its_field(e: EntryV, o: OutcomeV, r: RuleV)
    requires
        r.enabled,
        r.case_sensitive,
        r.match_kind == Match::Equals,
        r.action == ActionV::Hide,
        !o.hidden,
    ensures
        apply_rule((e, o), r).1.hidden == match r.field {
            Field::Name => e.name == r.pattern,
            Field::Group => e.group == Some(r.pattern),
            Field::Url => e.url == r.pattern,
            Field::Language => e.language == Some(r.pattern),
            Field::Country => e.country == Some(r.pattern),
        },
        apply_rule((e, o), r).0 == e,
{
}


/// The same for a rule that ignores case: it hides an entry precisely when the field it
/// names, lower-cased, equals its text lower-cased.
pub proof fn lemma_caseless_rule_compares_its_field(e: EntryV, o: OutcomeV, r: RuleV)
    requires
        r.enabled,
        !r.case_sensitive,
        r.match_kind == Match::Equals,
        r.action == ActionV::Hide,
        !o.hidden,
    ensures
        apply_rule((e, o), r).1.hidden == match r.field {
            Field::Name => unicode_lowercase(e.name) == unicode_lowercase(r.pattern),
            Field::Group => e.group is Some && unicode_lowercase(e.group->0) == unicode_lowercase(
                r.pattern,
            ),
            Field::Url => unicode_lowercase(e.url) == unicode_lowercase(r.pattern),
            Field::Language => e.language is Some && unicode_lowercase(e.language->0)
                == unicode_lowercase(r.pattern),
            Field::Country => e.country is Some && unicode_lowercase(e.country->0)
                == unicode_lowercase(r.pattern),
        },
{
}

} // verus!
