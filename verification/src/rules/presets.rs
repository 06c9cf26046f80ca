//! The presets every large playlist wants.

use vstd::prelude::*;
use crate::rules::{Action, Field, Match, Rule};
use crate::text::owned;

verus! {

broadcast use vstd::string::group_string_axioms;

/// Hide groups that announce adult content.
pub fn hide_adult() -> (r: Rule)
    ensures
        r.id@ == "preset-hide-adult"@,
        r.enabled,
        r.field == Field::Group,
        r.match_kind == Match::Regex,
        r.pattern@ == r"(?i)\b(adult|xxx|porn|18\+)\b"@,
        !r.case_sensitive,
        r.action == Action::Hide,
{
    let mut r = Rule::new(Field::Group, Match::Regex, r"(?i)\b(adult|xxx|porn|18\+)\b", Action::Hide);
    r.id = owned("preset-hide-adult");
    r
}

/// Hide the round-the-clock loop channels (`24/7`, `24-7`, `24 7`).
pub fn hide_247() -> (r: Rule)
    ensures
        r.id@ == "preset-hide-247"@,
        r.enabled,
        r.field == Field::Name,
        r.match_kind == Match::Regex,
        r.pattern@ == r"(?i)\b24[\s/\-]?7\b"@,
        !r.case_sensitive,
        r.action == Action::Hide,
{
    let mut r = Rule::new(Field::Name, Match::Regex, r"(?i)\b24[\s/\-]?7\b", Action::Hide);
    r.id = owned("preset-hide-247");
    r
}

/// Strip a trailing quality tag (`HD`, `FHD`, `4K`, `1080p`) from a name.
pub fn strip_quality_suffix() -> (r: Rule)
    ensures
        r.id@ == "preset-strip-quality"@,
        r.enabled,
        r.field == Field::Name,
        r.match_kind == Match::Regex,
        r.pattern@ == r"(?i)\s*\b(FHD|UHD|HD|SD|4K|1080p?|720p?)\b\s*$"@,
        !r.case_sensitive,
        r.action == Action::StripFromName,
{
    let mut r = Rule::new(
        Field::Name,
        Match::Regex,
        r"(?i)\s*\b(FHD|UHD|HD|SD|4K|1080p?|720p?)\b\s*$",
        Action::StripFromName,
    );
    r.id = owned("preset-strip-quality");
    r
}

/// All the presets, in the order they are offered.
pub fn all() -> (r: Vec<Rule>)
    ensures
        r@.len() == 3,
        r@[0].id@ == "preset-hide-adult"@,
        r@[1].id@ == "preset-hide-247"@,
        r@[2].id@ == "preset-strip-quality"@,
{
    let mut v: Vec<Rule> = Vec::new();
    v.push(hide_adult());
    v.push(hide_247());
    v.push(strip_quality_suffix());
    v
}

} // verus!
