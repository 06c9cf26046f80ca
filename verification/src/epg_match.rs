//! EPG channel matching.
//!
//! Channel matching is the hard part: exact `tvg-id` first, then a normalized name
//! match, then a near miss on the name, with a mapping the user pinned by hand winning
//! over all of them. A coverage report lets the UI say "2,847 of 3,102 channels have EPG
//! data" and list the rest.

use vstd::prelude::*;
use vstd::hash_map::StringHashMap;
use crate::m3u::strings_view;
use crate::model::EpgChannel;
use crate::pattern::{byte_count, byte_len};
use crate::text::{ascii_lower, chars_of, lower_all, owned, string_of, trim, trim_bounds, slice};
use crate::title::{match_key, spec_match_key};

verus! {

broadcast use vstd::string::group_string_axioms;

// ---------------------------------------------------------------------------------------
// Edit distance.
// ---------------------------------------------------------------------------------------

/// Levenshtein distance: the fewest single-character insertions, deletions and
/// substitutions that turn `a` into `b`.
pub open spec fn lev(a: Seq<char>, b: Seq<char>) -> nat
    decreases a.len() + b.len(),
{
    if a.len() == 0 {
        b.len()
    } else if b.len() == 0 {
        a.len()
    } else {
        let del = lev(a.drop_last(), b) + 1;
        let ins = lev(a, b.drop_last()) + 1;
        let sub = lev(a.drop_last(), b.drop_last()) + if a.last() == b.last() {
            0nat
        } else {
            1nat
        };
        if del <= ins && del <= sub {
            del
        } else if ins <= sub {
            ins
        } else {
            sub
        }
    }
}

/// The distance, when it is at most `max`.
pub open spec fn lev_at_most(a: Seq<char>, b: Seq<char>, max: nat) -> Option<nat> {
    if lev(a, b) <= max {
        Some(lev(a, b))
    } else {
        None
    }
}

proof fn lemma_lev_at_least_length_gap(a: Seq<char>, b: Seq<char>)
    ensures
        lev(a, b) >= a.len() - b.len(),
        lev(a, b) >= b.len() - a.len(),
    decreases a.len() + b.len(),
{
    if a.len() > 0 && b.len() > 0 {
        lemma_lev_at_least_length_gap(a.drop_last(), b);
        lemma_lev_at_least_length_gap(a, b.drop_last());
        lemma_lev_at_least_length_gap(a.drop_last(), b.drop_last());
    }
}

/// Every entry of row `i` of the table is at least `m`.
pub open spec fn row_at_least(a: Seq<char>, b: Seq<char>, i: int, m: int) -> bool {
    forall|j: int| 0 <= j <= b.len() ==> lev(a.take(i), #[trigger] b.take(j)) >= m
}

proof fn lemma_next_row_at_least(a: Seq<char>, b: Seq<char>, i: int, m: int, j: int)
    requires
        0 <= i < a.len(),
        0 <= j <= b.len(),
        row_at_least(a, b, i, m),
    ensures
        lev(a.take(i + 1), b.take(j)) >= m,
    decreases j,
{
    let a1 = a.take(i + 1);
    assert(a1.drop_last() =~= a.take(i));
    assert(lev(a.take(i), b.take(j)) >= m);
    if j > 0 {
        lemma_next_row_at_least(a, b, i, m, j - 1);
        assert(b.take(j).drop_last() =~= b.take(j - 1));
        assert(lev(a.take(i), b.take(j - 1)) >= m);
    } else {
        assert(b.take(0).len() == 0);
        assert(lev(a.take(i), b.take(0)) == i);
    }
}

proof fn lemma_rows_stay_at_least(a: Seq<char>, b: Seq<char>, i: int, m: int)
    requires
        0 <= i <= a.len(),
        row_at_least(a, b, i, m),
    ensures
        lev(a, b) >= m,
    decreases a.len() - i,
{
    if i < a.len() {
        assert forall|j: int| 0 <= j <= b.len() implies lev(a.take(i + 1), #[trigger] b.take(j))
            >= m by {
            lemma_next_row_at_least(a, b, i, m, j);
        }
        lemma_rows_stay_at_least(a, b, i + 1, m);
    } else {
        assert(a.take(i) =~= a);
        assert(b.take(b.len() as int) =~= b);
    }
}

/// Levenshtein distance, bailing out as soon as it is sure to exceed `max`.
pub fn edit_distance_at_most(a: &str, b: &str, max: usize) -> (r: Option<usize>)
    requires
        a@.len() < usize::MAX,
        b@.len() < usize::MAX,
    ensures
        match r {
            Some(d) => lev_at_most(a@, b@, max as nat) == Some(d as nat),
            None => lev_at_most(a@, b@, max as nat) is None,
        },
{
    let av = chars_of(a);
    let bv = chars_of(b);
    let n = av.len();
    let m = bv.len();
    let gap = if n > m {
        n - m
    } else {
        m - n
    };
    if gap > max {
        proof {
            lemma_lev_at_least_length_gap(a@, b@);
        }
        return None;
    }
    let mut prev: Vec<usize> = Vec::new();
    prev.push(0);
    let mut j: usize = 0;
    while j < m
        invariant
            j <= m,
            m == bv.len(),
            prev@.len() == j + 1,
            forall|k: int| 0 <= k <= j ==> prev@[k] == k,
        decreases m - j,
    {
        prev.push(j + 1);
        j += 1;
    }
    proof {
        assert forall|k: int| 0 <= k <= m implies prev@[k] == lev(av@.take(0), #[trigger] bv@.take(k)) by {
            assert(av@.take(0).len() == 0);
        }
    }
    let mut cur: Vec<usize> = Vec::new();
    cur.push(0);
    let mut j: usize = 0;
    while j < m
        invariant
            j <= m,
            m == bv.len(),
            cur@.len() == j + 1,
        decreases m - j,
    {
        cur.push(0);
        j += 1;
    }
    let mut i: usize = 0;
    while i < n
        invariant
            i <= n,
            av@ == a@,
            bv@ == b@,
            n == av.len(),
            m == bv.len(),
            n < usize::MAX,
            m < usize::MAX,
            prev@.len() == m + 1,
            cur@.len() == m + 1,
            forall|k: int| 0 <= k <= m ==> prev@[k] == lev(av@.take(i as int), #[trigger] bv@.take(k)),
            forall|k: int| 0 <= k <= m ==> prev@[k] <= (if i > k { i as int } else { k }),
        decreases n - i,
    {
        let ghost ai = av@.take(i + 1);
        assert(ai.drop_last() =~= av@.take(i as int));
        assert(ai.last() == av@[i as int]);
        cur.set(0, i + 1);
        assert(bv@.take(0).len() == 0);
        let mut row_min = i + 1;
        let mut j: usize = 0;
        while j < m
            invariant
                i < n,
                j <= m,
                n == av.len(),
                m == bv.len(),
                n < usize::MAX,
                m < usize::MAX,
                prev@.len() == m + 1,
                cur@.len() == m + 1,
                ai == av@.take(i + 1),
                ai.drop_last() == av@.take(i as int),
                ai.last() == av@[i as int],
                forall|k: int| 0 <= k <= m ==> prev@[k] == lev(av@.take(i as int), #[trigger] bv@.take(k)),
                forall|k: int| 0 <= k <= m ==> prev@[k] <= (if i > k { i as int } else { k }),
                forall|k: int| 0 <= k <= j ==> cur@[k] == lev(ai, #[trigger] bv@.take(k)),
                forall|k: int| 0 <= k <= j ==> cur@[k] <= (if i + 1 > k { i + 1 } else { k }),
                forall|k: int| 0 <= k <= j ==> row_min <= #[trigger] cur@[k],
            decreases m - j,
        {
            let jj = j + 1;
            let ghost bj = bv@.take(jj as int);
            assert(bj.drop_last() =~= bv@.take(j as int));
            assert(bj.last() == bv@[j as int]);
            let cost: usize = if av[i] != bv[j] {
                1
            } else {
                0
            };
            let del = prev[jj] + 1;
            let ins = cur[j] + 1;
            let sub = prev[j] + cost;
            let v = if del <= ins && del <= sub {
                del
            } else if ins <= sub {
                ins
            } else {
                sub
            };
            assert(v == lev(ai, bj));
            cur.set(jj, v);
            if v < row_min {
                row_min = v;
            }
            j += 1;
        }
        if row_min > max {
            proof {
                assert forall|k: int| 0 <= k <= m implies lev(av@.take(i + 1), #[trigger] bv@.take(k))
                    >= row_min by {
                    assert(cur@[k] == lev(ai, bv@.take(k)));
                }
                lemma_rows_stay_at_least(av@, bv@, i + 1, row_min as int);
                assert(lev(a@, b@) >= row_min);
                assert(lev_at_most(a@, b@, max as nat) is None);
            }
            return None;
        }
        std::mem::swap(&mut prev, &mut cur);
        i += 1;
    }
    assert(av@.take(n as int) =~= a@);
    assert(bv@.take(m as int) =~= b@);
    let d = prev[m];
    if d <= max {
        Some(d)
    } else {
        None
    }
}

// ---------------------------------------------------------------------------------------
// The index and resolution.
// ---------------------------------------------------------------------------------------

#[derive(Debug, Clone, Copy, PartialEq, Eq)]
pub enum MatchMethod {
    /// User pinned this mapping by hand; never overridden by a refresh.
    Manual,
    /// `tvg-id` equals an XMLTV channel id.
    ExactId,
    /// Normalized channel name equals a normalized XMLTV display name.
    NormalizedName,
    /// Normalized names differ only by a short edit distance.
    Fuzzy,
}

#[derive(Debug, Clone, PartialEq, Eq)]
pub struct Match {
    pub epg_channel_id: String,
    pub method: MatchMethod,
    /// 0-100. Exact matches are 100.
    pub confidence: u8,
}

#[derive(Debug, Clone, PartialEq, Eq)]
pub struct Coverage {
    pub total: usize,
    pub matched: usize,
    /// Names of channels with no EPG, for the "fix these" list in Settings.
    pub unmatched: Vec<String>,
}

/// What an index knows: lower-cased ids to ids, match keys to the first id that had
/// them, and every display name's key with its id, in order, for the fuzzy pass.
pub struct IndexV {
    pub by_id: Map<Seq<char>, Seq<char>>,
    pub by_key: Map<Seq<char>, Seq<char>>,
    pub keys: Seq<(Seq<char>, Seq<char>)>,
}

/// Display names folded in: each non-empty key joins the fuzzy list, and claims the key
/// for `id` unless an earlier channel has it.
pub open spec fn add_names(
    by_key: Map<Seq<char>, Seq<char>>,
    keys: Seq<(Seq<char>, Seq<char>)>,
    names: Seq<Seq<char>>,
    id: Seq<char>,
) -> (Map<Seq<char>, Seq<char>>, Seq<(Seq<char>, Seq<char>)>)
    decreases names.len(),
{
    if names.len() == 0 {
        (by_key, keys)
    } else {
        let (m, ks) = add_names(by_key, keys, names.drop_last(), id);
        let k = spec_match_key(names.last());
        if k.len() == 0 {
            (m, ks)
        } else {
            (
                if m.contains_key(k) {
                    m
                } else {
                    m.insert(k, id)
                },
                ks.push((k, id)),
            )
        }
    }
}

/// The index of a channel list, channel by channel: a later channel with the same id
/// (in any case) takes the id over; a key keeps the first channel that had it, the id's
/// own key coming before the display names'.
pub open spec fn build_model(chs: Seq<EpgChannel>) -> IndexV
    decreases chs.len(),
{
    if chs.len() == 0 {
        IndexV { by_id: Map::empty(), by_key: Map::empty(), keys: seq![] }
    } else {
        let prev = build_model(chs.drop_last());
        let c = chs.last();
        let id = c.id@;
        let idk = spec_match_key(id);
        let bk = if idk.len() > 0 && !prev.by_key.contains_key(idk) {
            prev.by_key.insert(idk, id)
        } else {
            prev.by_key
        };
        let (bk2, ks) = add_names(bk, prev.keys, strings_view(c.display_names@), id);
        IndexV { by_id: prev.by_id.insert(ascii_lower(id), id), by_key: bk2, keys: ks }
    }
}

/// Index of EPG channels, built once per import and reused for every playlist channel.
pub struct EpgIndex {
    by_id: StringHashMap<String>,
    by_key: StringHashMap<String>,
    /// Keys kept in a flat list for the fuzzy pass.
    keys: Vec<(String, String)>,
}

pub open spec fn values_view(m: Map<Seq<char>, String>) -> Map<Seq<char>, Seq<char>> {
    m.map_values(|v: String| v@)
}

impl EpgIndex {
    /// What the index knows, by value.
    pub closed spec fn model(&self) -> IndexV {
        IndexV {
            by_id: values_view(self.by_id@),
            by_key: values_view(self.by_key@),
            keys: crate::m3u::pairs_view(self.keys@),
        }
    }

    fn claim(m: &mut StringHashMap<String>, k: &String, id: &String)
        ensures
            values_view(final(m)@) == if old(m)@.contains_key(k@) {
                values_view(old(m)@)
            } else {
                values_view(old(m)@).insert(k@, id@)
            },
    {
        if !m.contains_key(k.as_str()) {
            m.insert(owned(k.as_str()), owned(id.as_str()));
            assert(values_view(m@) =~= values_view(old(m)@).insert(k@, id@));
        }
    }

    pub fn build(channels: &[EpgChannel]) -> (r: Self)
        ensures
            r.model() == build_model(channels@),
    {
        let mut by_id: StringHashMap<String> = StringHashMap::new();
        let mut by_key: StringHashMap<String> = StringHashMap::new();
        let mut keys: Vec<(String, String)> = Vec::new();
        assert(values_view(by_id@) =~= Map::<Seq<char>, Seq<char>>::empty());
        assert(values_view(by_key@) =~= Map::<Seq<char>, Seq<char>>::empty());
        assert(crate::m3u::pairs_view(keys@) =~= Seq::<(Seq<char>, Seq<char>)>::empty());
        let mut i: usize = 0;
        while i < channels.len()
            invariant
                i <= channels.len(),
                (IndexV {
                    by_id: values_view(by_id@),
                    by_key: values_view(by_key@),
                    keys: crate::m3u::pairs_view(keys@),
                }) == build_model(channels@.take(i as int)),
            decreases channels.len() - i,
        {
            let c = &channels[i];
            assert(channels@.take(i + 1).drop_last() =~= channels@.take(i as int));
            assert(channels@.take(i + 1).last() == channels@[i as int]);
            let idv = chars_of(c.id.as_str());
            let lid = lower_all(&idv);
            let ghost bi0 = values_view(by_id@);
            by_id.insert(string_of(lid.as_slice()), owned(c.id.as_str()));
            assert(values_view(by_id@) =~= bi0.insert(ascii_lower(c.id@), c.id@));
            let id_key = match_key(c.id.as_str());
            if chars_of(id_key.as_str()).len() > 0 {
                Self::claim(&mut by_key, &id_key, &c.id);
            }
            let ghost names = strings_view(c.display_names@);
            let ghost bk0 = values_view(by_key@);
            let ghost ks0 = crate::m3u::pairs_view(keys@);
            let mut j: usize = 0;
            while j < c.display_names.len()
                invariant
                    j <= c.display_names.len(),
                    names == strings_view(c.display_names@),
                    (values_view(by_key@), crate::m3u::pairs_view(keys@)) == add_names(
                        bk0,
                        ks0,
                        names.take(j as int),
                        c.id@,
                    ),
                decreases c.display_names.len() - j,
            {
                assert(names.take(j + 1).drop_last() =~= names.take(j as int));
                assert(names.take(j + 1).last() == names[j as int]);
                let k = match_key(c.display_names[j].as_str());
                if chars_of(k.as_str()).len() > 0 {
                    Self::claim(&mut by_key, &k, &c.id);
                    let ghost before = crate::m3u::pairs_view(keys@);
                    keys.push((k, owned(c.id.as_str())));
                    assert(crate::m3u::pairs_view(keys@) =~= before.push((k@, c.id@)));
                }
                j += 1;
            }
            assert(names.take(names.len() as int) =~= names);
            i += 1;
        }
        assert(channels@.take(channels@.len() as int) =~= channels@);
        EpgIndex { by_id, by_key, keys }
    }
}

/// The closest display-name key to `key`: within one byte of its length and one edit
/// of it, the first of the nearest in index order. Keys too long to exist in memory are
/// not compared.
pub open spec fn fuzzy_best(keys: Seq<(Seq<char>, Seq<char>)>, key: Seq<char>) -> Option<(nat, Seq<char>)>
    decreases keys.len(),
{
    if keys.len() == 0 {
        None
    } else {
        let prev = fuzzy_best(keys.drop_last(), key);
        let (k, id) = keys.last();
        let close = byte_len(k) - byte_len(key) <= 1 && byte_len(key) - byte_len(k) <= 1;
        if !close || !(k.len() < usize::MAX && key.len() < usize::MAX) {
            prev
        } else {
            match lev_at_most(key, k, 1) {
                None => prev,
                Some(d) => match prev {
                    None => Some((d, id)),
                    Some((bd, _)) => if d < bd {
                        Some((d, id))
                    } else {
                        prev
                    },
                },
            }
        }
    }
}

/// One playlist channel resolved: a manual mapping first; then a non-blank `tvg-id` as an
/// id (in any case), or failing that as a name; then the channel name's key; then, for
/// keys of five bytes or more, the nearest display name one edit away.
pub open spec fn spec_resolve(
    ix: IndexV,
    tvg_id: Option<Seq<char>>,
    name: Seq<char>,
    manual: Option<Seq<char>>,
) -> Option<(Seq<char>, MatchMethod, u8)> {
    if manual is Some {
        Some((manual->0, MatchMethod::Manual, 100u8))
    } else if tvg_id is Some && trim(tvg_id->0).len() > 0 && ix.by_id.contains_key(
        ascii_lower(trim(tvg_id->0)),
    ) {
        Some((ix.by_id[ascii_lower(trim(tvg_id->0))], MatchMethod::ExactId, 100u8))
    } else if tvg_id is Some && trim(tvg_id->0).len() > 0 && ix.by_key.contains_key(
        spec_match_key(trim(tvg_id->0)),
    ) {
        Some((ix.by_key[spec_match_key(trim(tvg_id->0))], MatchMethod::NormalizedName, 90u8))
    } else {
        let key = spec_match_key(name);
        if key.len() == 0 {
            None
        } else if ix.by_key.contains_key(key) {
            Some((ix.by_key[key], MatchMethod::NormalizedName, 85u8))
        } else if byte_len(key) >= 5 {
            match fuzzy_best(ix.keys, key) {
                Some((_, id)) => Some((id, MatchMethod::Fuzzy, 60u8)),
                None => None,
            }
        } else {
            None
        }
    }
}

pub open spec fn match_view(m: Option<Match>) -> Option<(Seq<char>, MatchMethod, u8)> {
    match m {
        Some(m) => Some((m.epg_channel_id@, m.method, m.confidence)),
        None => None,
    }
}

fn found(id: &String, method: MatchMethod, confidence: u8) -> (r: Option<Match>)
    ensures
        match_view(r) == Some((id@, method, confidence)),
{
    Some(Match { epg_channel_id: owned(id.as_str()), method, confidence })
}

impl EpgIndex {
    pub fn len(&self) -> (r: usize)
        ensures
            r == self.model().by_id.len(),
    {
        assert(values_view(self.by_id@).dom() =~= self.by_id@.dom());
        self.by_id.len()
    }

    pub fn is_empty(&self) -> (r: bool)
        ensures
            r == (self.model().by_id.len() == 0),
    {
        assert(values_view(self.by_id@).dom() =~= self.by_id@.dom());
        self.len() == 0
    }

    fn fuzzy(&self, key: &String) -> (r: Option<String>)
        ensures
            match r {
                Some(id) => fuzzy_best(self.model().keys, key@) matches Some((_, fid)) && fid == id@,
                None => fuzzy_best(self.model().keys, key@) is None,
            },
    {
        let ghost ks = self.model().keys;
        let kv = chars_of(key.as_str());
        let key_bytes = byte_count(&kv);
        let mut best: Option<(usize, usize)> = None;
        let mut i: usize = 0;
        while i < self.keys.len()
            invariant
                i <= self.keys.len(),
                ks == self.model().keys,
                ks.len() == self.keys@.len(),
                kv@ == key@,
                key_bytes == byte_len(key@),
                key_bytes <= 4 * kv@.len(),
                match best {
                    Some((d, at)) => at < i && fuzzy_best(ks.take(i as int), key@) == Some(
                        (d as nat, ks[at as int].1),
                    ),
                    None => fuzzy_best(ks.take(i as int), key@) is None,
                },
            decreases self.keys.len() - i,
        {
            assert(ks.take(i + 1).drop_last() =~= ks.take(i as int));
            assert(ks.take(i + 1).last() == ks[i as int]);
            let k = &self.keys[i].0;
            let kc = chars_of(k.as_str());
            let kb = byte_count(&kc);
            assert(kc@.len() == kc.len() && kv@.len() == kv.len());
            assert(kb < 0xffff_ffff_ffff_ffff_ffff_ffff_ffff_fff0u128);
            assert(key_bytes < 0xffff_ffff_ffff_ffff_ffff_ffff_ffff_fff0u128);
            let close = kb <= key_bytes + 1 && key_bytes <= kb + 1;
            if close && kc.len() < usize::MAX && kv.len() < usize::MAX {
                match edit_distance_at_most(key.as_str(), k.as_str(), 1) {
                    Some(d) => {
                        let better = match best {
                            None => true,
                            Some((bd, _)) => d < bd,
                        };
                        if better {
                            best = Some((d, i));
                        }
                    },
                    None => {},
                }
            }
            i += 1;
        }
        assert(ks.take(ks.len() as int) =~= ks);
        match best {
            Some((_, at)) => Some(owned(self.keys[at].1.as_str())),
            None => None,
        }
    }

    /// Resolve one playlist channel to an EPG channel.
    pub fn resolve(&self, tvg_id: Option<&str>, channel_name: &str, manual: Option<&str>) -> (r: Option<Match>)
        ensures
            match_view(r) == spec_resolve(
                self.model(),
                match tvg_id {
                    Some(t) => Some(t@),
                    None => None,
                },
                channel_name@,
                match manual {
                    Some(m) => Some(m@),
                    None => None,
                },
            ),
    {
        if let Some(m) = manual {
            return Some(Match { epg_channel_id: owned(m), method: MatchMethod::Manual, confidence: 100 });
        }
        if let Some(t) = tvg_id {
            let tv = chars_of(t);
            let (a, b) = trim_bounds(&tv, 0, tv.len());
            assert(tv@.subrange(0, tv@.len() as int) =~= tv@);
            if a < b {
                let id = slice(&tv, a, b);
                let lower = lower_all(&id);
                let ls = string_of(lower.as_slice());
                if let Some(hit) = self.by_id.get(ls.as_str()) {
                    return found(hit, MatchMethod::ExactId, 100);
                }
                let ids = string_of(id.as_slice());
                let k = match_key(ids.as_str());
                if let Some(hit) = self.by_key.get(k.as_str()) {
                    return found(hit, MatchMethod::NormalizedName, 90);
                }
            }
        }
        let key = match_key(channel_name);
        let kv = chars_of(key.as_str());
        if kv.len() == 0 {
            return None;
        }
        if let Some(hit) = self.by_key.get(key.as_str()) {
            return found(hit, MatchMethod::NormalizedName, 85);
        }
        if byte_count(&kv) >= 5 {
            if let Some(id) = self.fuzzy(&key) {
                return Some(Match { epg_channel_id: id, method: MatchMethod::Fuzzy, confidence: 60 });
            }
        }
        None
    }
}

/// The coverage of a channel list, channel by channel: how many there are, how many
/// resolve, and the names of those that do not.
pub open spec fn spec_coverage(ix: IndexV, channels: Seq<(Seq<char>, Option<Seq<char>>)>) -> (int, int, Seq<Seq<char>>)
    decreases channels.len(),
{
    if channels.len() == 0 {
        (0, 0, seq![])
    } else {
        let (t, m, u) = spec_coverage(ix, channels.drop_last());
        let (name, tvg) = channels.last();
        if spec_resolve(ix, tvg, name, None) is Some {
            (t + 1, m + 1, u)
        } else {
            (t + 1, m, u.push(name))
        }
    }
}

pub open spec fn channels_view(v: Seq<(&str, Option<&str>)>) -> Seq<(Seq<char>, Option<Seq<char>>)> {
    v.map_values(
        |c: (&str, Option<&str>)|
            (
                c.0@,
                match c.1 {
                    Some(t) => Some(t@),
                    None => None,
                },
            ),
    )
}

/// Build a coverage report over a whole channel list of `(name, tvg-id)` pairs.
pub fn coverage(index: &EpgIndex, channels: &[(&str, Option<&str>)]) -> (r: Coverage)
    ensures
        (r.total as int, r.matched as int, strings_view(r.unmatched@)) == spec_coverage(
            index.model(),
            channels_view(channels@),
        ),
{
    let ghost cs = channels_view(channels@);
    let mut total: usize = 0;
    let mut matched: usize = 0;
    let mut unmatched: Vec<String> = Vec::new();
    let mut i: usize = 0;
    assert(strings_view(unmatched@) =~= Seq::<Seq<char>>::empty());
    while i < channels.len()
        invariant
            i <= channels.len(),
            cs == channels_view(channels@),
            total == i,
            matched <= i,
            (total as int, matched as int, strings_view(unmatched@)) == spec_coverage(
                index.model(),
                cs.take(i as int),
            ),
        decreases channels.len() - i,
    {
        assert(cs.take(i + 1).drop_last() =~= cs.take(i as int));
        assert(cs.take(i + 1).last() == cs[i as int]);
        let (name, tvg_id) = channels[i];
        total += 1;
        if index.resolve(tvg_id, name, None).is_some() {
            matched += 1;
        } else {
            let ghost before = strings_view(unmatched@);
            unmatched.push(owned(name));
            assert(strings_view(unmatched@) =~= before.push(name@));
        }
        i += 1;
    }
    assert(cs.take(cs.len() as int) =~= cs);
    Coverage { total, matched, unmatched }
}

/// A guide key close enough in length to be worth comparing.
pub open spec fn comparable(k: Seq<char>, key: Seq<char>) -> bool {
    &&& byte_len(k) - byte_len(key) <= 1
    &&& byte_len(key) - byte_len(k) <= 1
    &&& k.len() < usize::MAX
    &&& key.len() < usize::MAX
}

/// The fuzzy pass forgives one typo and no more: what it finds is a guide channel whose
/// key is within one edit of the channel's, and no comparable key is closer; when it
/// finds nothing, no comparable key is within one edit.
pub proof fn lemma_fuzzy_is_one_edit_away(keys: Seq<(Seq<char>, Seq<char>)>, key: Seq<char>)
    ensures
        fuzzy_best(keys, key) matches Some((d, id)) ==> {
            &&& d <= 1
            &&& exists|i: int| 0 <= i < keys.len() && keys[i].1 == id && lev(key, keys[i].0) == d
            &&& forall|i: int|
                0 <= i < keys.len() && comparable(keys[i].0, key) ==> d <= lev(key, #[trigger] keys[i].0)
        },
        fuzzy_best(keys, key) is None ==> forall|i: int|
            0 <= i < keys.len() && comparable(keys[i].0, key) ==> lev(key, #[trigger] keys[i].0) > 1,
    decreases keys.len(),
{
    if keys.len() > 0 {
        lemma_fuzzy_is_one_edit_away(keys.drop_last(), key);
        let prev = fuzzy_best(keys.drop_last(), key);
        let n = keys.len() - 1;
        assert(keys[n] == keys.last());
        assert forall|i: int| 0 <= i < n implies #[trigger] keys[i] == keys.drop_last()[i] by {}
        match fuzzy_best(keys, key) {
            Some((d, id)) => {
                if fuzzy_best(keys, key) == prev {
                    let (pd, pid) = prev->0;
                    let i = choose|i: int|
                        0 <= i < keys.drop_last().len() && keys.drop_last()[i].1 == pid && lev(
                            key,
                            keys.drop_last()[i].0,
                        ) == pd;
                    assert(keys[i] == keys.drop_last()[i]);
                }
                assert forall|i: int|
                    0 <= i < keys.len() && comparable(keys[i].0, key) implies d <= lev(
                    key,
                    #[trigger] keys[i].0,
                ) by {
                    if i < n {
                        assert(keys[i] == keys.drop_last()[i]);
                    }
                }
            },
            None => {
                assert forall|i: int| 0 <= i < keys.len() && comparable(keys[i].0, key) implies lev(
                    key,
                    #[trigger] keys[i].0,
                ) > 1 by {
                    if i < n {
                        assert(keys[i] == keys.drop_last()[i]);
                    }
                }
            },
        }
    }
}


/// Some channel of the list carries `id`.
pub open spec fn is_channel_id(chs: Seq<EpgChannel>, id: Seq<char>) -> bool {
    exists|i: int| 0 <= i < chs.len() && chs[i].id@ == id
}

/// Every id an index can answer with, through any of its three tables, satisfies `p`.
pub open spec fn answers_within(ix: IndexV, p: spec_fn(Seq<char>) -> bool) -> bool {
    &&& forall|k: Seq<char>| ix.by_id.contains_key(k) ==> p(#[trigger] ix.by_id[k])
    &&& forall|k: Seq<char>| ix.by_key.contains_key(k) ==> p(#[trigger] ix.by_key[k])
    &&& forall|j: int| 0 <= j < ix.keys.len() ==> p(#[trigger] ix.keys[j].1)
}

proof fn lemma_add_names_within(
    by_key: Map<Seq<char>, Seq<char>>,
    keys: Seq<(Seq<char>, Seq<char>)>,
    names: Seq<Seq<char>>,
    id: Seq<char>,
    p: spec_fn(Seq<char>) -> bool,
)
    requires
        p(id),
        forall|k: Seq<char>| by_key.contains_key(k) ==> p(#[trigger] by_key[k]),
        forall|j: int| 0 <= j < keys.len() ==> p(#[trigger] keys[j].1),
    ensures
        forall|k: Seq<char>|
            add_names(by_key, keys, names, id).0.contains_key(k) ==> p(
                #[trigger] add_names(by_key, keys, names, id).0[k],
            ),
        forall|j: int|
            0 <= j < add_names(by_key, keys, names, id).1.len() ==> p(
                #[trigger] add_names(by_key, keys, names, id).1[j].1,
            ),
    decreases names.len(),
{
    if names.len() > 0 {
        lemma_add_names_within(by_key, keys, names.drop_last(), id, p);
        let (m, ks) = add_names(by_key, keys, names.drop_last(), id);
        let r = add_names(by_key, keys, names, id);
        let k0 = spec_match_key(names.last());
        if k0.len() > 0 {
            assert forall|j: int| 0 <= j < r.1.len() implies p(#[trigger] r.1[j].1) by {
                if j < ks.len() {
                    assert(r.1[j] == ks[j]);
                }
            }
            assert forall|k: Seq<char>| r.0.contains_key(k) implies p(#[trigger] r.0[k]) by {
                if !m.contains_key(k0) && k == k0 {
                } else {
                    assert(m.contains_key(k));
                }
            }
        }
    }
}

proof fn lemma_build_model_within(chs: Seq<EpgChannel>)
    ensures
        answers_within(build_model(chs), |x: Seq<char>| is_channel_id(chs, x)),
    decreases chs.len(),
{
    let p = |x: Seq<char>| is_channel_id(chs, x);
    if chs.len() > 0 {
        let d = chs.drop_last();
        lemma_build_model_within(d);
        let prev = build_model(d);
        let c = chs.last();
        let id = c.id@;
        assert(chs[chs.len() - 1] == c);
        assert(p(id));
        assert forall|x: Seq<char>| is_channel_id(d, x) implies #[trigger] p(x) by {
            let i = choose|i: int| 0 <= i < d.len() && d[i].id@ == x;
            assert(chs[i] == d[i]);
        }
        let idk = spec_match_key(id);
        let bk = if idk.len() > 0 && !prev.by_key.contains_key(idk) {
            prev.by_key.insert(idk, id)
        } else {
            prev.by_key
        };
        assert forall|k: Seq<char>| bk.contains_key(k) implies p(#[trigger] bk[k]) by {
            if idk.len() > 0 && !prev.by_key.contains_key(idk) && k == idk {
            } else {
                assert(prev.by_key.contains_key(k));
                assert(is_channel_id(d, prev.by_key[k]));
            }
        }
        assert forall|j: int| 0 <= j < prev.keys.len() implies p(#[trigger] prev.keys[j].1) by {
            assert(is_channel_id(d, prev.keys[j].1));
        }
        lemma_add_names_within(bk, prev.keys, strings_view(c.display_names@), id, p);
        let m = build_model(chs);
        assert forall|k: Seq<char>| m.by_id.contains_key(k) implies p(#[trigger] m.by_id[k]) by {
            if k != ascii_lower(id) {
                assert(prev.by_id.contains_key(k));
                assert(is_channel_id(d, prev.by_id[k]));
            }
        }
    }
}

/// Without a manual mapping, every match names a channel the index was built from: an
/// exact id or a name found through the id or key tables, or the nearest display name
/// of the fuzzy pass. A manual mapping wins outright, at full confidence.
pub proof fn lemma_matches_name_indexed_channels(
    chs: Seq<EpgChannel>,
    tvg_id: Option<Seq<char>>,
    name: Seq<char>,
    manual: Option<Seq<char>>,
)
    ensures
        manual matches Some(m) ==> spec_resolve(build_model(chs), tvg_id, name, manual) == Some(
            (m, MatchMethod::Manual, 100u8),
        ),
        manual is None ==> (spec_resolve(build_model(chs), tvg_id, name, manual) matches Some((id, _, _))
            ==> is_channel_id(chs, id)),
{
    lemma_build_model_within(chs);
    let ix = build_model(chs);
    if manual is None {
        let key = spec_match_key(name);
        lemma_fuzzy_is_one_edit_away(ix.keys, key);
        if let Some((_, id)) = fuzzy_best(ix.keys, key) {
            let i = choose|i: int| 0 <= i < ix.keys.len() && ix.keys[i].1 == id && lev(key, ix.keys[i].0) <= 1;
            assert(is_channel_id(chs, ix.keys[i].1));
        }
    }
}


proof fn lemma_add_names_keys(
    by_key: Map<Seq<char>, Seq<char>>,
    keys: Seq<(Seq<char>, Seq<char>)>,
    names: Seq<Seq<char>>,
    id: Seq<char>,
)
    ensures
        forall|k: Seq<char>| by_key.contains_key(k) ==> #[trigger] add_names(by_key, keys, names, id).0.contains_key(k),
        forall|j: int|
            0 <= j < names.len() && spec_match_key(#[trigger] names[j]).len() > 0 ==> add_names(
                by_key,
                keys,
                names,
                id,
            ).0.contains_key(spec_match_key(names[j])),
    decreases names.len(),
{
    if names.len() > 0 {
        let d = names.drop_last();
        lemma_add_names_keys(by_key, keys, d, id);
        assert forall|k: Seq<char>| by_key.contains_key(k) implies #[trigger] add_names(
            by_key,
            keys,
            names,
            id,
        ).0.contains_key(k) by {
            assert(add_names(by_key, keys, d, id).0.contains_key(k));
        }
        assert forall|j: int|
            0 <= j < names.len() && spec_match_key(#[trigger] names[j]).len() > 0 implies add_names(
            by_key,
            keys,
            names,
            id,
        ).0.contains_key(spec_match_key(names[j])) by {
            if j < d.len() {
                assert(d[j] == names[j]);
            }
        }
    }
}

proof fn lemma_build_model_keys(chs: Seq<EpgChannel>)
    ensures
        forall|k: Seq<char>|
            build_model(chs).by_id.contains_key(k) ==> exists|i: int|
                0 <= i < chs.len() && ascii_lower(chs[i].id@) == k,
        forall|i: int, j: int|
            0 <= i < chs.len() && 0 <= j < chs[i].display_names@.len() && spec_match_key(
                (#[trigger] chs[i].display_names@[j])@,
            ).len() > 0 ==> build_model(chs).by_key.contains_key(spec_match_key(chs[i].display_names@[j]@)),
    decreases chs.len(),
{
    if chs.len() > 0 {
        let d = chs.drop_last();
        lemma_build_model_keys(d);
        let prev = build_model(d);
        let c = chs.last();
        let id = c.id@;
        let idk = spec_match_key(id);
        let bk = if idk.len() > 0 && !prev.by_key.contains_key(idk) {
            prev.by_key.insert(idk, id)
        } else {
            prev.by_key
        };
        let names = strings_view(c.display_names@);
        lemma_add_names_keys(bk, prev.keys, names, id);
        let m = build_model(chs);
        assert forall|k: Seq<char>| m.by_id.contains_key(k) implies exists|i: int|
            0 <= i < chs.len() && ascii_lower(chs[i].id@) == k by {
            if k == ascii_lower(id) {
                assert(chs[chs.len() - 1] == c);
            } else {
                assert(prev.by_id.contains_key(k));
                let i = choose|i: int| 0 <= i < d.len() && ascii_lower(d[i].id@) == k;
                assert(chs[i] == d[i]);
            }
        }
        assert forall|i: int, j: int|
            0 <= i < chs.len() && 0 <= j < chs[i].display_names@.len() && spec_match_key(
                (#[trigger] chs[i].display_names@[j])@,
            ).len() > 0 implies m.by_key.contains_key(spec_match_key(chs[i].display_names@[j]@)) by {
            if i < d.len() {
                assert(chs[i] == d[i]);
                assert(prev.by_key.contains_key(spec_match_key(d[i].display_names@[j]@)));
            } else {
                assert(chs[i] == c);
                assert(names[j] == c.display_names@[j]@);
            }
        }
    }
}

/// A `tvg-id` that is no channel's id is still read as a name: when its match key is the
/// key of some channel's display name, the playlist channel resolves, by normalized
/// name at confidence 90, to a channel of the guide.
pub proof fn lemma_tvg_id_is_read_as_a_name(
    chs: Seq<EpgChannel>,
    tvg_id: Seq<char>,
    name: Seq<char>,
    i: int,
    j: int,
)
    requires
        trim(tvg_id).len() > 0,
        forall|m: int| 0 <= m < chs.len() ==> ascii_lower((#[trigger] chs[m]).id@) != ascii_lower(trim(tvg_id)),
        0 <= i < chs.len(),
        0 <= j < chs[i].display_names@.len(),
        spec_match_key(chs[i].display_names@[j]@) == spec_match_key(trim(tvg_id)),
        spec_match_key(trim(tvg_id)).len() > 0,
    ensures
        (spec_resolve(build_model(chs), Some(tvg_id), name, None) matches Some((id, method, conf))
            && method == MatchMethod::NormalizedName && conf == 90u8 && is_channel_id(chs, id)),
{
    lemma_build_model_keys(chs);
    lemma_build_model_within(chs);
    let ix = build_model(chs);
    let t = trim(tvg_id);
    if ix.by_id.contains_key(ascii_lower(t)) {
        let m = choose|m: int| 0 <= m < chs.len() && ascii_lower(chs[m].id@) == ascii_lower(t);
        assert(ascii_lower(chs[m].id@) != ascii_lower(t));
    }
    assert(ix.by_key.contains_key(spec_match_key(chs[i].display_names@[j]@)));
    assert(is_channel_id(chs, ix.by_key[spec_match_key(t)]));
}

/// A `tvg-id` that is, in any case, the id of a guide channel resolves to that id, by
/// exact id at full confidence.
pub proof fn lemma_tvg_id_matches_an_id(chs: Seq<EpgChannel>, tvg_id: Seq<char>, name: Seq<char>, i: int)
    requires
        trim(tvg_id).len() > 0,
        0 <= i < chs.len(),
        ascii_lower(chs[i].id@) == ascii_lower(trim(tvg_id)),
    ensures
        (spec_resolve(build_model(chs), Some(tvg_id), name, None) matches Some((id, method, conf))
            && method == MatchMethod::ExactId && conf == 100u8 && is_channel_id(chs, id) && ascii_lower(
            id,
        ) == ascii_lower(trim(tvg_id))),
{
    lemma_build_model_within(chs);
    lemma_build_model_id_table(chs, i);
}

proof fn lemma_build_model_id_table(chs: Seq<EpgChannel>, i: int)
    requires
        0 <= i < chs.len(),
    ensures
        build_model(chs).by_id.contains_key(ascii_lower(chs[i].id@)),
        ascii_lower(build_model(chs).by_id[ascii_lower(chs[i].id@)]) == ascii_lower(chs[i].id@),
    decreases chs.len(),
{
    let d = chs.drop_last();
    let c = chs.last();
    if i < chs.len() - 1 {
        assert(chs[i] == d[i]);
        lemma_build_model_id_table(d, i);
        let prev = build_model(d);
        if ascii_lower(c.id@) != ascii_lower(chs[i].id@) {
        }
    }
}


/// Without a usable `tvg-id`, a channel whose name has the match key of some guide
/// channel's display name resolves to a channel of the guide by normalized name, at
/// confidence 85.
pub proof fn lemma_name_matches_a_display_name(
    chs: Seq<EpgChannel>,
    tvg_id: Option<Seq<char>>,
    name: Seq<char>,
    i: int,
    j: int,
)
    requires
        tvg_id matches Some(t) ==> trim(t).len() == 0,
        0 <= i < chs.len(),
        0 <= j < chs[i].display_names@.len(),
        spec_match_key(chs[i].display_names@[j]@) == spec_match_key(name),
        spec_match_key(name).len() > 0,
    ensures
        (spec_resolve(build_model(chs), tvg_id, name, None) matches Some((id, method, conf))
            && method == MatchMethod::NormalizedName && conf == 85u8 && is_channel_id(chs, id)),
{
    lemma_build_model_keys(chs);
    lemma_build_model_within(chs);
    let ix = build_model(chs);
    assert(ix.by_key.contains_key(spec_match_key(chs[i].display_names@[j]@)));
    assert(is_channel_id(chs, ix.by_key[spec_match_key(name)]));
}

} // verus!
