//! Turning a programme title into a filename Windows will actually accept.
//!
//! Every part of this exists because Windows refuses something Linux allows, and the
//! failure mode is a recording that silently never appears. `Ratched: Season 1` is a
//! perfectly ordinary show title and an illegal filename.

use vstd::prelude::*;
use crate::text::{
    append, append_str, ascii_upper, chars_of, first_index, padded, push_decimal, push_padded,
    push_signed, signed_decimal, slice, str_eq, string_of, trim_end, upper_all, white_space,
    is_whitespace, has_char, upper_char,
};
use crate::title::join_words;
use crate::words::{
    join, lemma_word_end, strip_by, strip_end_by, strip_start_by, word_bounds, word_end, words,
    words_from,
};

verus! {

broadcast use vstd::string::group_string_axioms;

/// Leave room for the directory, the episode suffix and the extension inside MAX_PATH.
pub const MAX_STEM_LEN: usize = 120;

/// Characters Win32 rejects outright in a path component, and control characters.
pub open spec fn is_rejected(c: char) -> bool {
    c == '<' || c == '>' || c == ':' || c == '"' || c == '/' || c == '\\' || c == '|' || c == '?'
        || c == '*' || (c as u32) < 0x20
}

/// Device names that are reserved whatever the extension: `CON.ts` is still `CON`.
pub open spec fn is_reserved_name(s: Seq<char>) -> bool {
    s == "CON"@ || s == "PRN"@ || s == "AUX"@ || s == "NUL"@ || s == "COM1"@ || s == "COM2"@ || s
        == "COM3"@ || s == "COM4"@ || s == "COM5"@ || s == "COM6"@ || s == "COM7"@ || s == "COM8"@
        || s == "COM9"@ || s == "LPT1"@ || s == "LPT2"@ || s == "LPT3"@ || s == "LPT4"@ || s
        == "LPT5"@ || s == "LPT6"@ || s == "LPT7"@ || s == "LPT8"@ || s == "LPT9"@
}

/// Each rejected character becomes a separator (one, and none at the start) rather than
/// nothing, so `S01:E02` does not become `S01E02`.
pub open spec fn separated(s: Seq<char>) -> Seq<char>
    decreases s.len(),
{
    if s.len() == 0 {
        s
    } else {
        let out = separated(s.drop_last());
        if is_rejected(s.last()) {
            if out.len() > 0 && out.last() != ' ' {
                out.push(' ')
            } else {
                out
            }
        } else {
            out.push(s.last())
        }
    }
}

pub open spec fn dot_or_space() -> spec_fn(char) -> bool {
    |c: char| c == '.' || white_space(c)
}

/// A title made safe as one component of a Windows path, as `safe_filename` builds it.
pub open spec fn spec_safe_filename(title: Seq<char>) -> Seq<char> {
    let joined = join(words(separated(title)), " "@);
    let cut = if joined.len() > 120 {
        trim_end(joined.take(120))
    } else {
        joined
    };
    let out = strip_by(cut, dot_or_space());
    if out.len() == 0 {
        "untitled"@
    } else if is_reserved_name(ascii_upper(out.take(first_index(out, '.')))) {
        out.push('_')
    } else {
        out
    }
}

fn rejected(c: char) -> (r: bool)
    ensures
        r == is_rejected(c),
{
    c == '<' || c == '>' || c == ':' || c == '"' || c == '/' || c == '\\' || c == '|' || c == '?'
        || c == '*' || (c as u32) < 0x20
}

fn reserved_name(s: &Vec<char>) -> (r: bool)
    ensures
        r == is_reserved_name(s@),
{
    str_eq(s, "CON") || str_eq(s, "PRN") || str_eq(s, "AUX") || str_eq(s, "NUL") || str_eq(s, "COM1")
        || str_eq(s, "COM2") || str_eq(s, "COM3") || str_eq(s, "COM4") || str_eq(s, "COM5")
        || str_eq(s, "COM6") || str_eq(s, "COM7") || str_eq(s, "COM8") || str_eq(s, "COM9")
        || str_eq(s, "LPT1") || str_eq(s, "LPT2") || str_eq(s, "LPT3") || str_eq(s, "LPT4")
        || str_eq(s, "LPT5") || str_eq(s, "LPT6") || str_eq(s, "LPT7") || str_eq(s, "LPT8")
        || str_eq(s, "LPT9")
}

fn separate(s: &Vec<char>) -> (r: Vec<char>)
    ensures
        r@ == separated(s@),
{
    let mut out: Vec<char> = Vec::new();
    let mut i: usize = 0;
    while i < s.len()
        invariant
            i <= s.len(),
            out@ == separated(s@.take(i as int)),
        decreases s.len() - i,
    {
        assert(s@.take(i + 1).drop_last() =~= s@.take(i as int));
        let ch = s[i];
        if rejected(ch) {
            if out.len() > 0 && out[out.len() - 1] != ' ' {
                out.push(' ');
            }
        } else {
            out.push(ch);
        }
        i += 1;
    }
    assert(s@.take(s@.len() as int) =~= s@);
    out
}

fn safe_chars(title: &str) -> (r: Vec<char>)
    ensures
        r@ == spec_safe_filename(title@),
{
    let v = chars_of(title);
    let sep = separate(&v);
    let bounds = word_bounds(&sep);
    let joined = join_words(&sep, &bounds);
    assert(Seq::new(bounds@.len(), |j: int| sep@.subrange(bounds@[j].0 as int, bounds@[j].1 as int))
        =~= words(sep@));
    let cut = if joined.len() > MAX_STEM_LEN {
        let mut b = MAX_STEM_LEN;
        let ghost t = joined@.take(120);
        assert(t.take(120) =~= t);
        while b > 0 && is_whitespace(joined[b - 1])
            invariant
                b <= 120 < joined.len(),
                t == joined@.take(120),
                trim_end(t) == trim_end(t.take(b as int)),
            decreases b,
        {
            assert(t.take(b as int).drop_last() =~= t.take(b - 1));
            b -= 1;
        }
        assert(t.take(b as int) =~= joined@.subrange(0, b as int));
        slice(&joined, 0, b)
    } else {
        joined
    };
    let mut a: usize = 0;
    let ghost c0 = cut@;
    assert(c0.subrange(0, c0.len() as int) =~= c0);
    while a < cut.len() && (cut[a] == '.' || is_whitespace(cut[a]))
        invariant
            a <= cut.len(),
            c0 == cut@,
            strip_start_by(c0, dot_or_space()) == strip_start_by(c0.subrange(a as int, c0.len() as int), dot_or_space()),
        decreases cut.len() - a,
    {
        assert(c0.subrange(a as int, c0.len() as int).drop_first() =~= c0.subrange(a + 1, c0.len() as int));
        a += 1;
    }
    let mut b = cut.len();
    while b > a && (cut[b - 1] == '.' || is_whitespace(cut[b - 1]))
        invariant
            a <= b <= cut.len(),
            c0 == cut@,
            strip_start_by(c0, dot_or_space()) == c0.subrange(a as int, c0.len() as int),
            strip_end_by(c0.subrange(a as int, c0.len() as int), dot_or_space()) == strip_end_by(
                c0.subrange(a as int, b as int),
                dot_or_space(),
            ),
        decreases b - a,
    {
        assert(c0.subrange(a as int, b as int).drop_last() =~= c0.subrange(a as int, b - 1));
        b -= 1;
    }
    let mut out = slice(&cut, a, b);
    if out.len() == 0 {
        return chars_of("untitled");
    }
    let mut d: usize = 0;
    while d < out.len() && out[d] != '.'
        invariant
            d <= out.len(),
            forall|k: int| 0 <= k < d ==> out@[k] != '.',
        decreases out.len() - d,
    {
        d += 1;
    }
    proof {
        if d < out.len() {
            crate::text::lemma_first_index(out@, '.', d as int);
        } else {
            lemma_no_dot(out@);
        }
    }
    let stem = slice(&out, 0, d);
    assert(out@.subrange(0, d as int) =~= out@.take(d as int));
    let upper = upper_all(&stem);
    if reserved_name(&upper) {
        out.push('_');
    }
    out
}

proof fn lemma_no_dot(s: Seq<char>)
    requires
        forall|k: int| 0 <= k < s.len() ==> s[k] != '.',
    ensures
        first_index(s, '.') == s.len(),
    decreases s.len(),
{
    if s.len() > 0 {
        lemma_no_dot(s.drop_first());
    }
}

/// Make `title` safe to use as one component of a Windows path.
///
/// Returns `"untitled"` rather than an empty string, so a title made entirely of
/// illegal characters still produces a file instead of a path ending in a separator.
pub fn safe_filename(title: &str) -> (r: String)
    ensures
        r@ == spec_safe_filename(title@),
{
    let v = safe_chars(title);
    string_of(v.as_slice())
}

/// The filename for one recording: title, then a season/episode or date suffix so two
/// airings of the same show never collide.
pub open spec fn spec_recording_filename(title: Seq<char>, season: Option<u16>, episode: Option<u16>, air_start: i64) -> Seq<char> {
    let stem = spec_safe_filename(title);
    match (season, episode) {
        (Some(s), Some(e)) => stem + " - S"@ + padded(s as nat, 2) + "E"@ + padded(e as nat, 2)
            + " - "@ + signed_decimal(air_start as int) + ".ts"@,
        _ => stem + " - "@ + signed_decimal(air_start as int) + ".ts"@,
    }
}

pub fn recording_filename(title: &str, season: Option<u16>, episode: Option<u16>, air_start: i64) -> (r: String)
    ensures
        r@ == spec_recording_filename(title@, season, episode, air_start),
{
    let mut out = safe_chars(title);
    match (season, episode) {
        (Some(s), Some(e)) => {
            append_str(&mut out, " - S");
            push_padded(&mut out, s as u64, 2);
            append_str(&mut out, "E");
            push_padded(&mut out, e as u64, 2);
            append_str(&mut out, " - ");
        },
        _ => {
            append_str(&mut out, " - ");
        },
    }
    push_signed(&mut out, air_start);
    append_str(&mut out, ".ts");
    string_of(out.as_slice())
}

// ---------------------------------------------------------------------------------------
// What every filename this builds is like.
// ---------------------------------------------------------------------------------------

/// No character of `s` fails `p`.
pub open spec fn all_chars(s: Seq<char>, p: spec_fn(char) -> bool) -> bool {
    forall|i: int| 0 <= i < s.len() ==> #[trigger] p(s[i])
}

pub open spec fn accepted_char() -> spec_fn(char) -> bool {
    |c: char| !is_rejected(c)
}

proof fn lemma_separated_accepted(s: Seq<char>)
    ensures
        all_chars(separated(s), accepted_char()),
        separated(s).len() <= s.len(),
    decreases s.len(),
{
    if s.len() > 0 {
        lemma_separated_accepted(s.drop_last());
        let out = separated(s.drop_last());
        assert(!is_rejected(' '));
        assert forall|i: int| 0 <= i < separated(s).len() implies #[trigger] accepted_char()(
            separated(s)[i],
        ) by {
            if i < out.len() {
                assert(separated(s)[i] == out[i]);
            }
        }
    }
}

proof fn lemma_words_keep(s: Seq<char>, i: int, p: spec_fn(char) -> bool)
    requires
        all_chars(s, p),
    ensures
        forall|k: int| 0 <= k < words_from(s, i).len() ==> all_chars(#[trigger] words_from(s, i)[k], p),
    decreases s.len() - i,
{
    if 0 <= i < s.len() {
        if white_space(s[i]) {
            lemma_words_keep(s, i + 1, p);
            assert(words_from(s, i) == words_from(s, i + 1));
        } else {
            let e = word_end(s, i + 1);
            if i < e <= s.len() {
                lemma_words_keep(s, e, p);
                let ws = words_from(s, i);
                let rest = words_from(s, e);
                assert(ws == seq![s.subrange(i, e)] + rest);
                assert forall|k: int| 0 <= k < ws.len() implies all_chars(#[trigger] ws[k], p) by {
                    if k == 0 {
                        assert(ws[0] == s.subrange(i, e));
                        assert forall|j: int| 0 <= j < ws[0].len() implies #[trigger] p(ws[0][j]) by {
                            assert(ws[0][j] == s[i + j]);
                        }
                    } else {
                        assert(ws[k] == rest[k - 1]);
                        assert(all_chars(rest[k - 1], p));
                    }
                }
            }
        }
    }
}

proof fn lemma_join_keeps(ws: Seq<Seq<char>>, sep: Seq<char>, p: spec_fn(char) -> bool)
    requires
        forall|k: int| 0 <= k < ws.len() ==> all_chars(#[trigger] ws[k], p),
        all_chars(sep, p),
    ensures
        all_chars(join(ws, sep), p),
    decreases ws.len(),
{
    if ws.len() > 1 {
        lemma_join_keeps(ws.drop_last(), sep, p);
        let a = join(ws.drop_last(), sep);
        let l = ws.last();
        assert(all_chars(l, p)) by {
            assert(ws[ws.len() - 1] == l);
        }
        assert forall|i: int| 0 <= i < join(ws, sep).len() implies #[trigger] p(join(ws, sep)[i]) by {
            if i < a.len() {
                assert(join(ws, sep)[i] == a[i]);
            } else if i < a.len() + sep.len() {
                assert(join(ws, sep)[i] == sep[i - a.len()]);
            } else {
                assert(join(ws, sep)[i] == l[i - a.len() - sep.len()]);
            }
        }
    } else if ws.len() == 1 {
        assert(join(ws, sep) == ws[0]);
    }
}

proof fn lemma_trim_end_keeps(x: Seq<char>, p: spec_fn(char) -> bool)
    requires
        all_chars(x, p),
    ensures
        all_chars(trim_end(x), p),
        trim_end(x).len() <= x.len(),
    decreases x.len(),
{
    if x.len() > 0 && white_space(x.last()) {
        lemma_trim_end_keeps(x.drop_last(), p);
    }
}

proof fn lemma_strip_start_keeps(x: Seq<char>, q: spec_fn(char) -> bool, p: spec_fn(char) -> bool)
    requires
        all_chars(x, p),
    ensures
        all_chars(strip_start_by(x, q), p),
        strip_start_by(x, q).len() <= x.len(),
    decreases x.len(),
{
    if x.len() > 0 && q(x[0]) {
        assert forall|i: int| 0 <= i < x.drop_first().len() implies #[trigger] p(x.drop_first()[i]) by {
            assert(x.drop_first()[i] == x[i + 1]);
        }
        lemma_strip_start_keeps(x.drop_first(), q, p);
    }
}

proof fn lemma_strip_end_keeps(x: Seq<char>, q: spec_fn(char) -> bool, p: spec_fn(char) -> bool)
    requires
        all_chars(x, p),
    ensures
        all_chars(strip_end_by(x, q), p),
        strip_end_by(x, q).len() <= x.len(),
        strip_end_by(x, q).len() > 0 ==> !q(strip_end_by(x, q).last()),
    decreases x.len(),
{
    if x.len() > 0 && q(x.last()) {
        lemma_strip_end_keeps(x.drop_last(), q, p);
    }
}

/// Whatever the title, the name is one Windows accepts: never empty, no character it
/// rejects, not ending in a dot or a space (which Windows would drop, opening another
/// file), and no longer than `MAX_STEM_LEN` plus the one character that escapes a
/// reserved device name.
pub proof fn lemma_safe_filename_is_accepted(title: Seq<char>)
    ensures
        spec_safe_filename(title).len() > 0,
        spec_safe_filename(title).len() <= MAX_STEM_LEN + 1,
        all_chars(spec_safe_filename(title), accepted_char()),
        spec_safe_filename(title).last() != '.',
        !white_space(spec_safe_filename(title).last()),
{
    reveal_strlit("untitled");
    reveal_strlit(" ");
    let sep = separated(title);
    lemma_separated_accepted(title);
    lemma_words_keep(sep, 0, accepted_char());
    assert(all_chars(" "@, accepted_char())) by {
        assert(" "@[0] == ' ');
    }
    lemma_join_keeps(words(sep), " "@, accepted_char());
    let joined = join(words(sep), " "@);
    let cut = if joined.len() > 120 {
        trim_end(joined.take(120))
    } else {
        joined
    };
    if joined.len() > 120 {
        assert forall|i: int| 0 <= i < joined.take(120).len() implies #[trigger] accepted_char()(
            joined.take(120)[i],
        ) by {
            assert(joined.take(120)[i] == joined[i]);
        }
        lemma_trim_end_keeps(joined.take(120), accepted_char());
    }
    assert(all_chars(cut, accepted_char()) && cut.len() <= 120);
    let start = strip_start_by(cut, dot_or_space());
    lemma_strip_start_keeps(cut, dot_or_space(), accepted_char());
    lemma_strip_end_keeps(start, dot_or_space(), accepted_char());
    let out = strip_by(cut, dot_or_space());
    assert(out == strip_end_by(start, dot_or_space()));
    if out.len() == 0 {
        assert(spec_safe_filename(title) == "untitled"@);
    } else if is_reserved_name(ascii_upper(out.take(first_index(out, '.')))) {
        let r = out.push('_');
        assert(spec_safe_filename(title) == r);
        assert forall|i: int| 0 <= i < r.len() implies #[trigger] accepted_char()(r[i]) by {
            if i < out.len() {
                assert(r[i] == out[i]);
            }
        }
        assert(r.last() == '_');
    } else {
        assert(spec_safe_filename(title) == out);
        assert(!dot_or_space()(out.last()));
    }
}


/// No two spaces stand side by side.
pub open spec fn no_double_space(s: Seq<char>) -> bool {
    forall|i: int| 0 <= i < s.len() - 1 ==> !(#[trigger] s[i] == ' ' && s[i + 1] == ' ')
}

proof fn lemma_no_double_drop_last(x: Seq<char>)
    requires
        no_double_space(x),
        x.len() > 0,
    ensures
        no_double_space(x.drop_last()),
{
    assert forall|i: int| 0 <= i < x.drop_last().len() - 1 implies !(#[trigger] x.drop_last()[i]
        == ' ' && x.drop_last()[i + 1] == ' ') by {
        assert(x.drop_last()[i] == x[i] && x.drop_last()[i + 1] == x[i + 1]);
        assert(!(x[i] == ' ' && x[i + 1] == ' '));
    }
}

proof fn lemma_no_double_drop_first(x: Seq<char>)
    requires
        no_double_space(x),
        x.len() > 0,
    ensures
        no_double_space(x.drop_first()),
{
    assert forall|i: int| 0 <= i < x.drop_first().len() - 1 implies !(#[trigger] x.drop_first()[i]
        == ' ' && x.drop_first()[i + 1] == ' ') by {
        assert(x.drop_first()[i] == x[i + 1] && x.drop_first()[i + 1] == x[i + 2]);
        assert(!(x[i + 1] == ' ' && x[i + 2] == ' '));
    }
}

proof fn lemma_no_double_trim_end(x: Seq<char>)
    requires
        no_double_space(x),
    ensures
        no_double_space(trim_end(x)),
    decreases x.len(),
{
    if x.len() > 0 && white_space(x.last()) {
        lemma_no_double_drop_last(x);
        lemma_no_double_trim_end(x.drop_last());
    }
}

proof fn lemma_no_double_strip_start(x: Seq<char>, q: spec_fn(char) -> bool)
    requires
        no_double_space(x),
    ensures
        no_double_space(strip_start_by(x, q)),
        strip_start_by(x, q).len() > 0 ==> !q(strip_start_by(x, q)[0]),
    decreases x.len(),
{
    if x.len() > 0 && q(x[0]) {
        lemma_no_double_drop_first(x);
        lemma_no_double_strip_start(x.drop_first(), q);
    }
}

proof fn lemma_no_double_strip_end(x: Seq<char>, q: spec_fn(char) -> bool)
    requires
        no_double_space(x),
    ensures
        no_double_space(strip_end_by(x, q)),
        strip_end_by(x, q).len() > 0 ==> strip_end_by(x, q)[0] == x[0],
    decreases x.len(),
{
    if x.len() > 0 && q(x.last()) {
        lemma_no_double_drop_last(x);
        lemma_no_double_strip_end(x.drop_last(), q);
        if strip_end_by(x, q).len() > 0 {
            assert(x.drop_last()[0] == x[0]);
        }
    }
}

/// The words of `s` from `i` on are non-empty and hold no whitespace.
proof fn lemma_words_are_solid(s: Seq<char>, i: int)
    ensures
        forall|k: int|
            0 <= k < words_from(s, i).len() ==> (#[trigger] words_from(s, i)[k]).len() > 0
                && forall|j: int|
                0 <= j < words_from(s, i)[k].len() ==> !white_space(#[trigger] words_from(s, i)[k][j]),
    decreases s.len() - i,
{
    if 0 <= i < s.len() {
        if white_space(s[i]) {
            lemma_words_are_solid(s, i + 1);
            assert(words_from(s, i) == words_from(s, i + 1));
        } else {
            let e = word_end(s, i + 1);
            lemma_word_end(s, i + 1);
            if i < e <= s.len() {
                lemma_words_are_solid(s, e);
                let ws = words_from(s, i);
                let rest = words_from(s, e);
                assert(ws == seq![s.subrange(i, e)] + rest);
                assert forall|k: int| 0 <= k < ws.len() implies (#[trigger] ws[k]).len() > 0 && forall|
                    j: int,
                | 0 <= j < ws[k].len() ==> !white_space(#[trigger] ws[k][j]) by {
                    if k == 0 {
                        assert(ws[0] == s.subrange(i, e));
                        assert forall|j: int| 0 <= j < ws[0].len() implies !white_space(
                            #[trigger] ws[0][j],
                        ) by {
                            assert(ws[0][j] == s[i + j]);
                            if j > 0 {
                                assert(i + 1 <= i + j < e);
                            }
                        }
                    } else {
                        assert(ws[k] == rest[k - 1]);
                    }
                }
            }
        }
    }
}

/// Joining solid words with single spaces puts no two spaces together and does not end
/// in one.
proof fn lemma_join_no_double(ws: Seq<Seq<char>>)
    requires
        forall|k: int|
            0 <= k < ws.len() ==> (#[trigger] ws[k]).len() > 0 && forall|j: int|
                0 <= j < ws[k].len() ==> !white_space(#[trigger] ws[k][j]),
    ensures
        no_double_space(join(ws, " "@)),
        ws.len() > 0 ==> join(ws, " "@).len() > 0 && join(ws, " "@).last() != ' ',
    decreases ws.len(),
{
    reveal_strlit(" ");
    assert(white_space(' '));
    if ws.len() == 1 {
        let w = ws[0];
        assert(join(ws, " "@) == w);
        assert forall|i: int| 0 <= i < w.len() - 1 implies !(#[trigger] w[i] == ' ' && w[i + 1]
            == ' ') by {
            assert(!white_space(w[i]));
        }
        assert(!white_space(w[w.len() - 1]));
    } else if ws.len() > 1 {
        let d = ws.drop_last();
        assert forall|k: int| 0 <= k < d.len() implies (#[trigger] d[k]).len() > 0 && forall|j: int|
            0 <= j < d[k].len() ==> !white_space(#[trigger] d[k][j]) by {
            assert(d[k] == ws[k]);
        }
        lemma_join_no_double(d);
        let a = join(d, " "@);
        let l = ws.last();
        assert(ws[ws.len() - 1] == l);
        let r = join(ws, " "@);
        assert(r == a + " "@ + l);
        assert forall|i: int| 0 <= i < r.len() - 1 implies !(#[trigger] r[i] == ' ' && r[i + 1]
            == ' ') by {
            if i < a.len() - 1 {
                assert(r[i] == a[i] && r[i + 1] == a[i + 1]);
            } else if i == a.len() - 1 {
                assert(r[i] == a[a.len() - 1]);
            } else if i == a.len() {
                assert(r[i + 1] == l[0]);
                assert(!white_space(l[0]));
            } else {
                assert(r[i] == l[i - a.len() - 1] && r[i + 1] == l[i - a.len()]);
                assert(!white_space(l[i - a.len() - 1]));
            }
        }
        assert(r.last() == l[l.len() - 1]);
        assert(!white_space(l[l.len() - 1]));
    }
}

proof fn lemma_first_index_absent(s: Seq<char>, c: char)
    requires
        forall|i: int| 0 <= i < s.len() ==> s[i] != c,
    ensures
        first_index(s, c) == s.len(),
    decreases s.len(),
{
    if s.len() > 0 {
        assert forall|i: int| 0 <= i < s.drop_first().len() implies s.drop_first()[i] != c by {
            assert(s.drop_first()[i] == s[i + 1]);
        }
        lemma_first_index_absent(s.drop_first(), c);
    }
}

/// A reserved device name is three or four capital letters and digits.
proof fn lemma_reserved_shape(u: Seq<char>)
    requires
        is_reserved_name(u),
    ensures
        3 <= u.len() <= 4,
        forall|i: int| 0 <= i < u.len() ==> ('A' <= #[trigger] u[i] <= 'Z' || '1' <= u[i] <= '9'),
{
    reveal_strlit("CON");
    reveal_strlit("PRN");
    reveal_strlit("AUX");
    reveal_strlit("NUL");
    reveal_strlit("COM1");
    reveal_strlit("COM2");
    reveal_strlit("COM3");
    reveal_strlit("COM4");
    reveal_strlit("COM5");
    reveal_strlit("COM6");
    reveal_strlit("COM7");
    reveal_strlit("COM8");
    reveal_strlit("COM9");
    reveal_strlit("LPT1");
    reveal_strlit("LPT2");
    reveal_strlit("LPT3");
    reveal_strlit("LPT4");
    reveal_strlit("LPT5");
    reveal_strlit("LPT6");
    reveal_strlit("LPT7");
    reveal_strlit("LPT8");
    reveal_strlit("LPT9");
}

/// Whatever the title, the name neither starts nor ends with a dot or whitespace, has no
/// two spaces in a row, and in capitals is never a device name Windows reserves.
pub proof fn lemma_safe_filename_is_tidy(title: Seq<char>)
    ensures
        !dot_or_space()(spec_safe_filename(title)[0]),
        !dot_or_space()(spec_safe_filename(title).last()),
        no_double_space(spec_safe_filename(title)),
        !is_reserved_name(ascii_upper(spec_safe_filename(title))),
{
    reveal_strlit("untitled");
    reveal_strlit("CON");
    reveal_strlit("PRN");
    reveal_strlit("AUX");
    reveal_strlit("NUL");
    reveal_strlit("COM1");
    reveal_strlit("COM2");
    reveal_strlit("COM3");
    reveal_strlit("COM4");
    reveal_strlit("COM5");
    reveal_strlit("COM6");
    reveal_strlit("COM7");
    reveal_strlit("COM8");
    reveal_strlit("COM9");
    reveal_strlit("LPT1");
    reveal_strlit("LPT2");
    reveal_strlit("LPT3");
    reveal_strlit("LPT4");
    reveal_strlit("LPT5");
    reveal_strlit("LPT6");
    reveal_strlit("LPT7");
    reveal_strlit("LPT8");
    reveal_strlit("LPT9");
    lemma_safe_filename_is_accepted(title);
    let sep = separated(title);
    lemma_words_are_solid(sep, 0);
    lemma_join_no_double(words(sep));
    let joined = join(words(sep), " "@);
    let cut = if joined.len() > 120 {
        trim_end(joined.take(120))
    } else {
        joined
    };
    if joined.len() > 120 {
        assert forall|i: int| 0 <= i < joined.take(120).len() - 1 implies !(#[trigger] joined.take(
            120,
        )[i] == ' ' && joined.take(120)[i + 1] == ' ') by {
            assert(joined.take(120)[i] == joined[i] && joined.take(120)[i + 1] == joined[i + 1]);
            assert(!(joined[i] == ' ' && joined[i + 1] == ' '));
        }
        lemma_no_double_trim_end(joined.take(120));
    }
    let start = strip_start_by(cut, dot_or_space());
    lemma_no_double_strip_start(cut, dot_or_space());
    lemma_no_double_strip_end(start, dot_or_space());
    let out = strip_by(cut, dot_or_space());
    let r = spec_safe_filename(title);
    if out.len() == 0 {
        assert(r == "untitled"@);
        assert(r[0] == 'u');
        assert(no_double_space(r)) by {
            assert forall|i: int| 0 <= i < r.len() - 1 implies !(#[trigger] r[i] == ' ' && r[i + 1]
                == ' ') by {
            }
        }
        if is_reserved_name(ascii_upper(r)) {
            lemma_reserved_shape(ascii_upper(r));
        }
    } else if is_reserved_name(ascii_upper(out.take(first_index(out, '.')))) {
        assert(r == out.push('_'));
        assert(r[0] == out[0]);
        assert forall|i: int| 0 <= i < r.len() - 1 implies !(#[trigger] r[i] == ' ' && r[i + 1]
            == ' ') by {
            assert(r[i] == out[i]);
            if i + 1 < out.len() {
                assert(r[i + 1] == out[i + 1]);
                assert(!(out[i] == ' ' && out[i + 1] == ' '));
            }
        }
        let u = ascii_upper(r);
        assert(u[u.len() - 1] == upper_char('_'));
        assert(u[u.len() - 1] == '_');
        if is_reserved_name(u) {
            lemma_reserved_shape(u);
        }
    } else {
        assert(r == out);
        let u = ascii_upper(out);
        if has_char(out, '.') {
            let i = choose|i: int| 0 <= i < out.len() && out[i] == '.';
            assert(u[i] == '.');
            if is_reserved_name(u) {
                lemma_reserved_shape(u);
            }
        } else {
            lemma_first_index_absent(out, '.');
            assert(out.take(out.len() as int) =~= out);
        }
    }
}

} // verus!
