//! Recording scheduling logic: padding, conflict detection against the provider's
//! connection limit, and matching series rules onto guide entries.

use vstd::prelude::*;
use vstd::slice::slice_to_vec;
use crate::civil::{
    lemma_civil_split, local_civil, local_time_in_range, offset_in_range, timestamp_in_range,
};
use crate::model::Programme;
use crate::text::{chars_of, seq_eq, str_eq};
use crate::title::{match_key, spec_match_key};

verus! {

/// Default padding before a scheduled programme.
pub const DEFAULT_PRE_PADDING_SECS: i64 = 60;
/// Default padding after a scheduled programme: broadcasters overrun.
pub const DEFAULT_POST_PADDING_SECS: i64 = 300;

#[derive(Debug, Clone, Copy, PartialEq, Eq)]
pub enum RecordingState {
    Scheduled,
    Recording,
    Completed,
    /// Did not record, or recorded incompletely.
    Failed,
    /// Dropped because a higher-priority recording needed the connection.
    Skipped,
}

/// The name a recording state is stored and filtered under.
pub open spec fn state_name(s: RecordingState) -> Seq<char> {
    match s {
        RecordingState::Scheduled => "scheduled"@,
        RecordingState::Recording => "recording"@,
        RecordingState::Completed => "completed"@,
        RecordingState::Failed => "failed"@,
        RecordingState::Skipped => "skipped"@,
    }
}

/// Read a state back from its name; any other text names no state.
pub fn parse_state(s: &str) -> (r: Option<RecordingState>)
    ensures
        match r {
            Some(st) => state_name(st) == s@,
            None => forall|st: RecordingState| state_name(st) != s@,
        },
{
    proof {
        reveal_strlit("scheduled");
        reveal_strlit("recording");
        reveal_strlit("completed");
        reveal_strlit("failed");
        reveal_strlit("skipped");
    }
    let v = chars_of(s);
    if str_eq(&v, "scheduled") {
        Some(RecordingState::Scheduled)
    } else if str_eq(&v, "recording") {
        Some(RecordingState::Recording)
    } else if str_eq(&v, "completed") {
        Some(RecordingState::Completed)
    } else if str_eq(&v, "failed") {
        Some(RecordingState::Failed)
    } else if str_eq(&v, "skipped") {
        Some(RecordingState::Skipped)
    } else {
        assert forall|st: RecordingState| state_name(st) != s@ by {
            match st {
                RecordingState::Scheduled => {},
                RecordingState::Recording => {},
                RecordingState::Completed => {},
                RecordingState::Failed => {},
                RecordingState::Skipped => {},
            }
        }
        None
    }
}

/// A recording as scheduled, in absolute time with padding already applied.
#[derive(Debug, Clone, Copy, PartialEq, Eq)]
pub struct Slot {
    pub id: i64,
    pub channel_id: i64,
    /// Unix seconds, padding included.
    pub start: i64,
    pub stop: i64,
    /// Higher wins a conflict. A manual recording outranks a series rule.
    pub priority: i32,
}

/// Two half-open intervals `[start, stop)` share a moment.
pub open spec fn spec_overlaps(a: Slot, b: Slot) -> bool {
    a.start < b.stop && b.start < a.stop
}

impl Slot {
    pub fn overlaps(&self, other: &Slot) -> (r: bool)
        ensures
            r == spec_overlaps(*self, *other),
    {
        self.start < other.stop && other.start < self.stop
    }

    pub fn duration_secs(&self) -> (r: i64)
        requires
            i64::MIN <= self.stop - self.start <= i64::MAX,
        ensures
            r == if self.stop - self.start > 0 {
                self.stop - self.start
            } else {
                0
            },
    {
        let d = self.stop - self.start;
        if d > 0 {
            d
        } else {
            0
        }
    }
}

pub open spec fn clamp_low(x: int) -> int {
    if x > 0 {
        x
    } else {
        0
    }
}

/// Airtime with padding applied: earlier start (never before the epoch), later stop,
/// and, if that would leave an empty window, the unpadded airtime made at least one
/// second long.
pub open spec fn spec_padded(start: int, stop: int, pre: int, post: int) -> (int, int) {
    let padded_start = clamp_low(start - clamp_low(pre));
    let padded_stop = stop + clamp_low(post);
    if padded_stop <= padded_start {
        (start, if stop > start + 1 {
            stop
        } else {
            start + 1
        })
    } else {
        (padded_start, padded_stop)
    }
}

/// Apply padding to a programme's airtime.
///
/// Never lets padding invert the window, and never pads a recording to start before
/// the epoch.
pub fn with_padding(start: i64, stop: i64, pre_secs: i64, post_secs: i64) -> (r: (i64, i64))
    requires
        start - clamp_low(pre_secs as int) >= i64::MIN,
        stop + clamp_low(post_secs as int) <= i64::MAX,
        clamp_low(start - clamp_low(pre_secs as int)) >= stop + clamp_low(post_secs as int)
            ==> start < i64::MAX,
    ensures
        (r.0 as int, r.1 as int) == spec_padded(
            start as int,
            stop as int,
            pre_secs as int,
            post_secs as int,
        ),
        r.0 < r.1,
{
    let pre = if pre_secs > 0 {
        pre_secs
    } else {
        0
    };
    let post = if post_secs > 0 {
        post_secs
    } else {
        0
    };
    let s = start - pre;
    let padded_start = if s > 0 {
        s
    } else {
        0
    };
    let padded_stop = stop + post;
    if padded_stop <= padded_start {
        let min_stop = start + 1;
        (start, if stop > min_stop {
            stop
        } else {
            min_stop
        })
    } else {
        (padded_start, padded_stop)
    }
}

// ---------------------------------------------------------------------------------------
// Conflicts.
// ---------------------------------------------------------------------------------------

/// A period where more recordings overlap than the subscription can carry.
#[derive(Debug, Clone, PartialEq, Eq)]
pub struct Conflict {
    pub start: i64,
    pub stop: i64,
    /// Everything scheduled across that window, most important first.
    pub slot_ids: Vec<i64>,
    /// How many would have to be dropped.
    pub over_by: usize,
}

/// A conflict as a value: the id list as a sequence.
pub struct ConflictV {
    pub start: i64,
    pub stop: i64,
    pub slot_ids: Seq<i64>,
    pub over_by: nat,
}

impl View for Conflict {
    type V = ConflictV;

    open spec fn view(&self) -> ConflictV {
        ConflictV {
            start: self.start,
            stop: self.stop,
            slot_ids: self.slot_ids@,
            over_by: self.over_by as nat,
        }
    }
}

/// `a` is more important than `b`: higher priority, then earlier start, then lower id.
pub open spec fn ranks_before(a: Slot, b: Slot) -> bool {
    a.priority > b.priority || (a.priority == b.priority && (a.start < b.start || (a.start
        == b.start && a.id < b.id)))
}

/// Where a stable insertion puts `x` into `sorted`: before the first element that `x`
/// ranks ahead of, or at the end.
pub open spec fn insert_position(sorted: Seq<Slot>, x: Slot) -> int
    decreases sorted.len(),
{
    if sorted.len() == 0 || ranks_before(x, sorted[0]) {
        0
    } else {
        1 + insert_position(sorted.drop_first(), x)
    }
}

/// The slots in order of importance, equal keys keeping their input order: a stable
/// sort on (priority descending, start, id).
pub open spec fn ranked(s: Seq<Slot>) -> Seq<Slot>
    decreases s.len(),
{
    if s.len() == 0 {
        s
    } else {
        let prev = ranked(s.drop_last());
        prev.insert(insert_position(prev, s.last()), s.last())
    }
}

pub open spec fn ids_of(s: Seq<Slot>) -> Seq<i64> {
    s.map_values(|x: Slot| x.id)
}

/// The ids of `s`, most important first.
pub open spec fn spec_ranked_ids(s: Seq<Slot>) -> Seq<i64> {
    ids_of(ranked(s))
}

/// Every instant at which some slot starts or stops.
pub open spec fn is_endpoint(slots: Seq<Slot>, x: i64) -> bool {
    exists|i: int| 0 <= i < slots.len() && (slots[i].start == x || slots[i].stop == x)
}

pub open spec fn strictly_increasing(b: Seq<i64>) -> bool {
    forall|i: int, j: int| 0 <= i < j < b.len() ==> b[i] < b[j]
}

/// The boundaries of a schedule: its endpoints, each once, in increasing order.
pub open spec fn boundaries_of(slots: Seq<Slot>, b: Seq<i64>) -> bool {
    &&& strictly_increasing(b)
    &&& forall|x: i64| b.contains(x) <==> is_endpoint(slots, x)
}

pub open spec fn boundaries(slots: Seq<Slot>) -> Seq<i64> {
    choose|b: Seq<i64>| boundaries_of(slots, b)
}

/// Slots on the air somewhere in `[from, to)`, in input order.
pub open spec fn active(slots: Seq<Slot>, from: i64, to: i64) -> Seq<Slot> {
    slots.filter(|s: Slot| s.start < to && from < s.stop)
}

/// Conflicts over the first `k` windows between consecutive boundaries `b`: each window
/// carrying more than `max` slots is one, and a window continuing the previous
/// conflict with the same slots extends it rather than opening another.
pub open spec fn conflicts_upto(slots: Seq<Slot>, b: Seq<i64>, max: nat, k: int) -> Seq<ConflictV>
    decreases k,
{
    if k <= 0 {
        Seq::empty()
    } else {
        let prev = conflicts_upto(slots, b, max, k - 1);
        let from = b[k - 1];
        let to = b[k];
        let act = active(slots, from, to);
        if act.len() <= max {
            prev
        } else {
            let ids = spec_ranked_ids(act);
            if prev.len() > 0 && prev.last().stop == from && prev.last().slot_ids == ids {
                prev.update(
                    prev.len() - 1,
                    ConflictV { stop: to, ..prev.last() },
                )
            } else {
                prev.push(ConflictV { start: from, stop: to, slot_ids: ids, over_by: (act.len() - max) as nat })
            }
        }
    }
}

pub open spec fn min_start(slots: Seq<Slot>) -> i64
    decreases slots.len(),
{
    if slots.len() <= 1 {
        if slots.len() == 0 { 0 } else { slots[0].start }
    } else {
        let m = min_start(slots.drop_last());
        if slots.last().start < m {
            slots.last().start
        } else {
            m
        }
    }
}

pub open spec fn max_stop(slots: Seq<Slot>) -> i64
    decreases slots.len(),
{
    if slots.len() <= 1 {
        if slots.len() == 0 { 0 } else { slots[0].stop }
    } else {
        let m = max_stop(slots.drop_last());
        if slots.last().stop > m {
            slots.last().stop
        } else {
            m
        }
    }
}

/// What `find_conflicts` reports.
pub open spec fn spec_conflicts(slots: Seq<Slot>, max: nat) -> Seq<ConflictV> {
    if max == 0 {
        if slots.len() == 0 {
            Seq::empty()
        } else {
            seq![
                ConflictV {
                    start: min_start(slots),
                    stop: max_stop(slots),
                    slot_ids: spec_ranked_ids(slots),
                    over_by: slots.len(),
                },
            ]
        }
    } else {
        let b = boundaries(slots);
        conflicts_upto(slots, b, max, b.len() - 1)
    }
}


// ---------------------------------------------------------------------------------------
// Ranking.
// ---------------------------------------------------------------------------------------

pub proof fn lemma_insert_position_bounds(sorted: Seq<Slot>, x: Slot)
    ensures
        0 <= insert_position(sorted, x) <= sorted.len(),
    decreases sorted.len(),
{
    if sorted.len() > 0 && !ranks_before(x, sorted[0]) {
        lemma_insert_position_bounds(sorted.drop_first(), x);
    }
}

fn rank_key_before(a: &Slot, b: &Slot) -> (r: bool)
    ensures
        r == ranks_before(*a, *b),
{
    a.priority > b.priority || (a.priority == b.priority && (a.start < b.start || (a.start
        == b.start && a.id < b.id)))
}

fn position_for(sorted: &Vec<Slot>, x: &Slot) -> (k: usize)
    ensures
        k == insert_position(sorted@, *x),
{
    let mut k: usize = 0;
    assert(sorted@.skip(0) =~= sorted@);
    while k < sorted.len() && !rank_key_before(x, &sorted[k])
        invariant
            k <= sorted.len(),
            insert_position(sorted@, *x) == k + insert_position(sorted@.skip(k as int), *x),
        decreases sorted.len() - k,
    {
        assert(sorted@.skip(k as int).drop_first() =~= sorted@.skip(k + 1));
        k += 1;
    }
    assert(k < sorted.len() ==> sorted@.skip(k as int)[0] == sorted@[k as int]);
    k
}

/// The slots in importance order (stable).
fn ranked_slots(slots: &[Slot]) -> (r: Vec<Slot>)
    ensures
        r@ == ranked(slots@),
{
    let mut sorted: Vec<Slot> = Vec::new();
    let mut i: usize = 0;
    while i < slots.len()
        invariant
            i <= slots.len(),
            sorted@ == ranked(slots@.take(i as int)),
        decreases slots.len() - i,
    {
        let x = slots[i];
        let k = position_for(&sorted, &x);
        proof {
            lemma_insert_position_bounds(sorted@, x);
        }
        sorted.insert(k, x);
        i += 1;
        assert(slots@.take(i as int).drop_last() =~= slots@.take(i - 1));
        assert(sorted@ =~= ranked(slots@.take(i as int)));
    }
    assert(slots@.take(slots.len() as int) =~= slots@);
    sorted
}

/// Most important first: higher priority, then the one that started earlier, then id
/// — so the ordering is stable and a UI can show a deterministic list.
fn ranked_ids(slots: &[Slot]) -> (r: Vec<i64>)
    ensures
        r@ == spec_ranked_ids(slots@),
{
    let sorted = ranked_slots(slots);
    let mut ids: Vec<i64> = Vec::new();
    let mut i: usize = 0;
    while i < sorted.len()
        invariant
            i <= sorted.len(),
            ids@ == ids_of(sorted@.take(i as int)),
        decreases sorted.len() - i,
    {
        ids.push(sorted[i].id);
        i += 1;
        assert(ids@ =~= ids_of(sorted@.take(i as int)));
    }
    assert(sorted@.take(sorted.len() as int) =~= sorted@);
    ids
}

// ---------------------------------------------------------------------------------------
// Boundaries.
// ---------------------------------------------------------------------------------------

/// Two increasing enumerations of one set of instants are the same sequence.
pub proof fn lemma_increasing_unique(a: Seq<i64>, b: Seq<i64>)
    requires
        strictly_increasing(a),
        strictly_increasing(b),
        forall|x: i64| a.contains(x) <==> b.contains(x),
    ensures
        a == b,
    decreases a.len(),
{
    if a.len() == 0 {
        if b.len() > 0 {
            assert(b.contains(b[0]));
        }
        assert(a =~= b);
    } else {
        assert(a.contains(a[0]));
        assert(b.len() > 0);
        assert(b.contains(b[0]));
        let i = choose|i: int| 0 <= i < a.len() && a[i] == b[0];
        let j = choose|j: int| 0 <= j < b.len() && b[j] == a[0];
        assert(a[0] == b[0]) by {
            if i > 0 {
                assert(a[0] < a[i]);
            }
            if j > 0 {
                assert(b[0] < b[j]);
            }
        }
        let a1 = a.drop_first();
        let b1 = b.drop_first();
        assert forall|x: i64| a1.contains(x) <==> b1.contains(x) by {
            if a1.contains(x) {
                let p = choose|p: int| 0 <= p < a1.len() && a1[p] == x;
                assert(a[p + 1] == x);
                assert(a[0] < a[p + 1]);
                assert(b.contains(x));
                let q = choose|q: int| 0 <= q < b.len() && b[q] == x;
                assert(q != 0);
                assert(b1[q - 1] == x);
            }
            if b1.contains(x) {
                let p = choose|p: int| 0 <= p < b1.len() && b1[p] == x;
                assert(b[p + 1] == x);
                assert(b[0] < b[p + 1]);
                assert(a.contains(x));
                let q = choose|q: int| 0 <= q < a.len() && a[q] == x;
                assert(q != 0);
                assert(a1[q - 1] == x);
            }
        }
        lemma_increasing_unique(a1, b1);
        assert(a =~= seq![a[0]] + a1);
        assert(b =~= seq![b[0]] + b1);
    }
}

/// Add `x` to an increasing sequence unless it is already there.
fn insert_unique(b: &mut Vec<i64>, x: i64)
    requires
        strictly_increasing(old(b)@),
    ensures
        strictly_increasing(final(b)@),
        forall|y: i64| final(b)@.contains(y) <==> (old(b)@.contains(y) || y == x),
{
    let mut k: usize = 0;
    while k < b.len() && b[k] < x
        invariant
            k <= b.len(),
            b@ == old(b)@,
            forall|j: int| 0 <= j < k ==> b@[j] < x,
        decreases b.len() - k,
    {
        k += 1;
    }
    if k < b.len() && b[k] == x {
        assert(b@[k as int] == x);
        return;
    }
    let ghost before = b@;
    b.insert(k, x);
    proof {
        before.insert_ensures(k as int, x);
    }
    assert forall|y: i64| b@.contains(y) <==> (before.contains(y) || y == x) by {
        if b@.contains(y) {
            let p = choose|p: int| 0 <= p < b@.len() && b@[p] == y;
            if p == k {
                assert(y == x);
            } else if p < k {
                assert(before[p] == y);
            } else if p > k {
                assert(before[p - 1] == y);
            }
        }
        if before.contains(y) {
            let p = choose|p: int| 0 <= p < before.len() && before[p] == y;
            if p < k {
                assert(b@[p] == y);
            } else {
                assert(b@[p + 1] == y);
            }
        }
        if y == x {
            assert(b@[k as int] == x);
        }
    }
    assert forall|i: int, j: int| 0 <= i < j < b@.len() implies b@[i] < b@[j] by {
        if j < k {
            assert(b@[i] == before[i] && b@[j] == before[j]);
        } else if j == k {
            assert(b@[i] == before[i]);
        } else if i < k {
            assert(b@[i] == before[i] && b@[j] == before[j - 1]);
            assert(before[k as int] > x || before[k as int] == x);
            assert(b@[i] < x);
            if j - 1 > k {
                assert(before[k as int] < before[j - 1]);
            }
        } else if i == k {
            assert(b@[j] == before[j - 1]);
            if j - 1 > k {
                assert(before[k as int] < before[j - 1]);
            }
        } else {
            assert(b@[i] == before[i - 1] && b@[j] == before[j - 1]);
        }
    }
}

/// Every endpoint of the schedule, once each, in increasing order.
fn sorted_boundaries(slots: &[Slot]) -> (b: Vec<i64>)
    ensures
        boundaries_of(slots@, b@),
        b@ == boundaries(slots@),
{
    let mut b: Vec<i64> = Vec::new();
    let mut i: usize = 0;
    while i < slots.len()
        invariant
            i <= slots.len(),
            strictly_increasing(b@),
            forall|x: i64| b@.contains(x) <==> is_endpoint(slots@.take(i as int), x),
        decreases slots.len() - i,
    {
        let ghost b0 = b@;
        insert_unique(&mut b, slots[i].start);
        insert_unique(&mut b, slots[i].stop);
        i += 1;
        assert forall|x: i64| b@.contains(x) <==> is_endpoint(slots@.take(i as int), x) by {
            let t = slots@.take(i as int);
            let t0 = slots@.take(i - 1);
            if is_endpoint(t, x) {
                let p = choose|p: int| 0 <= p < t.len() && (t[p].start == x || t[p].stop == x);
                if p < i - 1 {
                    assert(t0[p] == t[p]);
                    assert(is_endpoint(t0, x));
                }
            }
            if is_endpoint(t0, x) {
                let p = choose|p: int| 0 <= p < t0.len() && (t0[p].start == x || t0[p].stop == x);
                assert(t[p] == t0[p]);
            }
            if x == slots@[i - 1].start || x == slots@[i - 1].stop {
                assert(t[i - 1] == slots@[i - 1]);
            }
        }
    }
    assert(slots@.take(slots.len() as int) =~= slots@);
    proof {
        assert(boundaries_of(slots@, b@));
        let c = boundaries(slots@);
        assert(boundaries_of(slots@, c));
        lemma_increasing_unique(b@, c);
    }
    b
}

// ---------------------------------------------------------------------------------------
// Conflict detection.
// ---------------------------------------------------------------------------------------

fn active_slots(slots: &[Slot], from: i64, to: i64) -> (r: Vec<Slot>)
    ensures
        r@ == active(slots@, from, to),
{
    let ghost pred = |s: Slot| s.start < to && from < s.stop;
    let mut r: Vec<Slot> = Vec::new();
    let mut i: usize = 0;
    while i < slots.len()
        invariant
            i <= slots.len(),
            pred == (|s: Slot| s.start < to && from < s.stop),
            r@ == slots@.take(i as int).filter(pred),
        decreases slots.len() - i,
    {
        let s = slots[i];
        proof {
            slots@.take(i as int).lemma_filter_push(s, pred);
            assert(slots@.take(i + 1) =~= slots@.take(i as int).push(s));
        }
        if s.start < to && from < s.stop {
            r.push(s);
        }
        i += 1;
    }
    assert(slots@.take(slots.len() as int) =~= slots@);
    r
}

fn ids_equal(a: &Vec<i64>, b: &Vec<i64>) -> (r: bool)
    ensures
        r == (a@ == b@),
{
    if a.len() != b.len() {
        return false;
    }
    let mut i: usize = 0;
    while i < a.len()
        invariant
            a.len() == b.len(),
            i <= a.len(),
            forall|j: int| 0 <= j < i ==> a@[j] == b@[j],
        decreases a.len() - i,
    {
        if a[i] != b[i] {
            return false;
        }
        i += 1;
    }
    assert(a@ =~= b@);
    true
}

pub open spec fn views(cs: Seq<Conflict>) -> Seq<ConflictV> {
    cs.map_values(|c: Conflict| c@)
}

/// Find windows where concurrent recordings exceed `max_concurrent`.
///
/// This is the provider's connection limit made concrete: conflicts are surfaced
/// before the recording silently fails.
pub fn find_conflicts(slots: &[Slot], max_concurrent: usize) -> (r: Vec<Conflict>)
    ensures
        views(r@) == spec_conflicts(slots@, max_concurrent as nat),
{
    if max_concurrent == 0 {
        // Nothing may record at all; every slot is in conflict.
        if slots.len() == 0 {
            let r: Vec<Conflict> = Vec::new();
            assert(views(r@) =~= spec_conflicts(slots@, 0));
            return r;
        }
        let mut start = slots[0].start;
        let mut stop = slots[0].stop;
        let mut i: usize = 1;
        while i < slots.len()
            invariant
                1 <= i <= slots.len(),
                start == min_start(slots@.take(i as int)),
                stop == max_stop(slots@.take(i as int)),
            decreases slots.len() - i,
        {
            assert(slots@.take(i + 1).drop_last() =~= slots@.take(i as int));
            if slots[i].start < start {
                start = slots[i].start;
            }
            if slots[i].stop > stop {
                stop = slots[i].stop;
            }
            i += 1;
        }
        assert(slots@.take(slots.len() as int) =~= slots@);
        let mut r: Vec<Conflict> = Vec::new();
        r.push(
            Conflict { start, stop, slot_ids: ranked_ids(slots), over_by: slots.len() },
        );
        assert(views(r@) =~= spec_conflicts(slots@, 0));
        return r;
    }
    // Sweep the boundaries; between two consecutive boundaries the active set is
    // constant, so the count only has to be computed once per interval.
    let b = sorted_boundaries(slots);
    let mut conflicts: Vec<Conflict> = Vec::new();
    let mut k: usize = 1;
    while k < b.len()
        invariant
            1 <= k,
            b@ == boundaries(slots@),
            k <= b.len() || k == 1,
            views(conflicts@) == conflicts_upto(slots@, b@, max_concurrent as nat, k - 1),
            max_concurrent > 0,
        decreases b.len() - k,
    {
        let from = b[k - 1];
        let to = b[k];
        let act = active_slots(slots, from, to);
        let ghost prev = views(conflicts@);
        if act.len() > max_concurrent {
            let over_by = act.len() - max_concurrent;
            let ids = ranked_ids(&act);
            let n = conflicts.len();
            // Merge with the previous window when it is contiguous and identical, so a
            // long clash is reported once rather than per boundary.
            if n > 0 && conflicts[n - 1].stop == from && ids_equal(&conflicts[n - 1].slot_ids, &ids) {
                let mut last = conflicts.pop().unwrap();
                last.stop = to;
                conflicts.push(last);
                assert(views(conflicts@) =~= prev.update(
                    prev.len() - 1,
                    ConflictV { stop: to, ..prev.last() },
                ));
            } else {
                conflicts.push(Conflict { start: from, stop: to, slot_ids: ids, over_by });
                assert(views(conflicts@) =~= prev.push(
                    ConflictV {
                        start: from,
                        stop: to,
                        slot_ids: ids@,
                        over_by: (act@.len() - max_concurrent) as nat,
                    },
                ));
            }
        }
        k += 1;
    }
    proof {
        if b.len() == 0 {
            assert(conflicts_upto(slots@, b@, max_concurrent as nat, -1) == Seq::<ConflictV>::empty());
            assert(conflicts_upto(slots@, b@, max_concurrent as nat, 0) == Seq::<ConflictV>::empty());
            assert(views(conflicts@) == conflicts_upto(slots@, b@, max_concurrent as nat, b.len() - 1));
        } else {
            assert(k == b.len());
            assert(views(conflicts@) == conflicts_upto(slots@, b@, max_concurrent as nat, b.len() - 1));
        }
        assert(spec_conflicts(slots@, max_concurrent as nat) == conflicts_upto(
            slots@,
            b@,
            max_concurrent as nat,
            b.len() - 1,
        ));
    }
    conflicts
}


// ---------------------------------------------------------------------------------------
// What the ranking and the conflicts are made of.
// ---------------------------------------------------------------------------------------

/// Ranking neither loses nor invents a slot.
pub proof fn lemma_ranked_members(s: Seq<Slot>)
    ensures
        ranked(s).len() == s.len(),
        forall|i: int| 0 <= i < ranked(s).len() ==> s.contains(#[trigger] ranked(s)[i]),
        forall|i: int| 0 <= i < s.len() ==> ranked(s).contains(#[trigger] s[i]),
    decreases s.len(),
{
    if s.len() > 0 {
        let prev = ranked(s.drop_last());
        lemma_ranked_members(s.drop_last());
        lemma_insert_position_bounds(prev, s.last());
        let k = insert_position(prev, s.last());
        prev.insert_ensures(k, s.last());
        let r = ranked(s);
        assert forall|i: int| 0 <= i < r.len() implies s.contains(#[trigger] r[i]) by {
            if i < k {
                assert(s.drop_last().contains(prev[i]));
                let j = choose|j: int| 0 <= j < s.drop_last().len() && s.drop_last()[j] == prev[i];
                assert(s[j] == r[i]);
            } else if i == k {
                assert(s[s.len() - 1] == r[i]);
            } else {
                assert(s.drop_last().contains(prev[i - 1]));
                let j = choose|j: int| 0 <= j < s.drop_last().len() && s.drop_last()[j] == prev[i - 1];
                assert(s[j] == r[i]);
            }
        }
        assert forall|i: int| 0 <= i < s.len() implies r.contains(#[trigger] s[i]) by {
            if i == s.len() - 1 {
                assert(r[k] == s[i]);
            } else {
                assert(s.drop_last()[i] == s[i]);
                assert(prev.contains(s.drop_last()[i]));
                let j = choose|j: int| 0 <= j < prev.len() && prev[j] == s[i];
                if j < k {
                    assert(r[j] == s[i]);
                } else {
                    assert(r[j + 1] == s[i]);
                }
            }
        }
    }
}

/// Some slot of `slots` carries `id`.
pub open spec fn has_id(slots: Seq<Slot>, id: i64) -> bool {
    exists|i: int| 0 <= i < slots.len() && slots[i].id == id
}

/// Every conflict names at least one slot, and only slots of the schedule.
pub open spec fn conflicts_well_formed(slots: Seq<Slot>, cs: Seq<ConflictV>) -> bool {
    forall|c: int|
        0 <= c < cs.len() ==> {
            &&& (#[trigger] cs[c]).slot_ids.len() > 0
            &&& forall|j: int|
                0 <= j < cs[c].slot_ids.len() ==> has_id(slots, #[trigger] cs[c].slot_ids[j])
        }
}

proof fn lemma_ranked_ids_of_part(slots: Seq<Slot>, part: Seq<Slot>)
    requires
        forall|i: int| 0 <= i < part.len() ==> slots.contains(#[trigger] part[i]),
    ensures
        forall|j: int|
            0 <= j < spec_ranked_ids(part).len() ==> has_id(slots, #[trigger] spec_ranked_ids(part)[j]),
        spec_ranked_ids(part).len() == part.len(),
{
    lemma_ranked_members(part);
    let r = ranked(part);
    assert forall|j: int| 0 <= j < spec_ranked_ids(part).len() implies has_id(
        slots,
        #[trigger] spec_ranked_ids(part)[j],
    ) by {
        assert(part.contains(r[j]));
        let p = choose|p: int| 0 <= p < part.len() && part[p] == r[j];
        assert(slots.contains(part[p]));
        let q = choose|q: int| 0 <= q < slots.len() && slots[q] == part[p];
        assert(slots[q].id == spec_ranked_ids(part)[j]);
    }
}

proof fn lemma_conflicts_upto_well_formed(slots: Seq<Slot>, b: Seq<i64>, max: nat, k: int)
    requires
        k < b.len(),
    ensures
        conflicts_well_formed(slots, conflicts_upto(slots, b, max, k)),
    decreases k,
{
    if k > 0 {
        lemma_conflicts_upto_well_formed(slots, b, max, k - 1);
        let act = active(slots, b[k - 1], b[k]);
        let pred = |s: Slot| s.start < b[k] && b[k - 1] < s.stop;
        assert forall|i: int| 0 <= i < act.len() implies slots.contains(#[trigger] act[i]) by {
            assert(act.contains(act[i]));
            slots.lemma_filter_contains_rev(pred, act[i]);
        }
        lemma_ranked_ids_of_part(slots, act);
    }
}

/// What `find_conflicts` reports is well formed.
pub proof fn lemma_conflicts_well_formed(slots: Seq<Slot>, max: nat)
    ensures
        conflicts_well_formed(slots, spec_conflicts(slots, max)),
{
    if max == 0 {
        if slots.len() > 0 {
            assert forall|i: int| 0 <= i < slots.len() implies slots.contains(#[trigger] slots[i]) by {
            }
            lemma_ranked_ids_of_part(slots, slots);
        }
    } else {
        let b = boundaries(slots);
        if b.len() > 0 {
            lemma_conflicts_upto_well_formed(slots, b, max, b.len() - 1);
        }
    }
}

/// `b` with `x` put in its place, unless it is there already.
pub open spec fn insert_sorted(b: Seq<i64>, x: i64) -> Seq<i64>
    decreases b.len(),
{
    if b.len() == 0 {
        seq![x]
    } else if x < b[0] {
        seq![x] + b
    } else if x == b[0] {
        b
    } else {
        seq![b[0]] + insert_sorted(b.drop_first(), x)
    }
}

proof fn lemma_insert_sorted(b: Seq<i64>, x: i64)
    requires
        strictly_increasing(b),
    ensures
        strictly_increasing(insert_sorted(b, x)),
        forall|y: i64| #[trigger] insert_sorted(b, x).contains(y) <==> (b.contains(y) || y == x),
    decreases b.len(),
{
    let r = insert_sorted(b, x);
    if b.len() == 0 {
        assert(r =~= seq![x]);
        assert forall|y: i64| r.contains(y) <==> (b.contains(y) || y == x) by {
            if r.contains(y) {
                assert(r[0] == x);
            }
            if y == x {
                assert(r[0] == y);
            }
        }
    } else if x < b[0] {
        assert forall|y: i64| r.contains(y) <==> (b.contains(y) || y == x) by {
            if r.contains(y) {
                let i = choose|i: int| 0 <= i < r.len() && r[i] == y;
                if i > 0 {
                    assert(b[i - 1] == y);
                }
            }
            if b.contains(y) {
                let i = choose|i: int| 0 <= i < b.len() && b[i] == y;
                assert(r[i + 1] == y);
            }
            if y == x {
                assert(r[0] == y);
            }
        }
        assert forall|i: int, j: int| 0 <= i < j < r.len() implies r[i] < r[j] by {
            if i > 0 {
                assert(r[i] == b[i - 1] && r[j] == b[j - 1]);
            } else {
                assert(r[j] == b[j - 1]);
                if j - 1 > 0 {
                    assert(b[0] < b[j - 1]);
                }
            }
        }
    } else if x == b[0] {
        assert forall|y: i64| r.contains(y) <==> (b.contains(y) || y == x) by {
            if y == x {
                assert(b[0] == y);
            }
        }
    } else {
        let d = b.drop_first();
        assert forall|i: int, j: int| 0 <= i < j < d.len() implies d[i] < d[j] by {
            assert(d[i] == b[i + 1] && d[j] == b[j + 1]);
        }
        lemma_insert_sorted(d, x);
        let rd = insert_sorted(d, x);
        assert(r == seq![b[0]] + rd);
        assert forall|y: i64| rd.contains(y) implies b[0] < y by {
            if d.contains(y) {
                let i = choose|i: int| 0 <= i < d.len() && d[i] == y;
                assert(b[i + 1] == y);
            }
        }
        assert forall|y: i64| r.contains(y) <==> (b.contains(y) || y == x) by {
            if r.contains(y) {
                let i = choose|i: int| 0 <= i < r.len() && r[i] == y;
                if i > 0 {
                    assert(rd[i - 1] == y);
                    assert(rd.contains(y));
                    if d.contains(y) {
                        let k = choose|k: int| 0 <= k < d.len() && d[k] == y;
                        assert(b[k + 1] == y);
                    }
                }
            }
            if b.contains(y) {
                let i = choose|i: int| 0 <= i < b.len() && b[i] == y;
                if i == 0 {
                    assert(r[0] == y);
                } else {
                    assert(d[i - 1] == y);
                    assert(d.contains(y));
                    assert(rd.contains(y));
                    let k = choose|k: int| 0 <= k < rd.len() && rd[k] == y;
                    assert(r[k + 1] == y);
                }
            }
            if y == x {
                assert(rd.contains(y));
                let k = choose|k: int| 0 <= k < rd.len() && rd[k] == y;
                assert(r[k + 1] == y);
            }
        }
        assert forall|i: int, j: int| 0 <= i < j < r.len() implies r[i] < r[j] by {
            assert(r[j] == rd[j - 1]);
            if i > 0 {
                assert(r[i] == rd[i - 1]);
            } else {
                assert(rd.contains(rd[j - 1]));
            }
        }
    }
}

/// The boundaries of the first `n` slots, built one slot at a time.
pub open spec fn boundaries_upto(slots: Seq<Slot>, n: int) -> Seq<i64>
    decreases n,
{
    if n <= 0 {
        Seq::empty()
    } else {
        insert_sorted(
            insert_sorted(boundaries_upto(slots, n - 1), slots[n - 1].start),
            slots[n - 1].stop,
        )
    }
}

proof fn lemma_boundaries_upto(slots: Seq<Slot>, n: int)
    requires
        0 <= n <= slots.len(),
    ensures
        boundaries_of(slots.take(n), boundaries_upto(slots, n)),
    decreases n,
{
    if n > 0 {
        lemma_boundaries_upto(slots, n - 1);
        let b0 = boundaries_upto(slots, n - 1);
        let b1 = insert_sorted(b0, slots[n - 1].start);
        lemma_insert_sorted(b0, slots[n - 1].start);
        lemma_insert_sorted(b1, slots[n - 1].stop);
        let t = slots.take(n);
        let t0 = slots.take(n - 1);
        assert forall|x: i64| boundaries_upto(slots, n).contains(x) <==> is_endpoint(t, x) by {
            if is_endpoint(t, x) {
                let p = choose|p: int| 0 <= p < t.len() && (t[p].start == x || t[p].stop == x);
                if p < n - 1 {
                    assert(t0[p] == t[p]);
                    assert(is_endpoint(t0, x));
                }
            }
            if is_endpoint(t0, x) {
                let p = choose|p: int| 0 <= p < t0.len() && (t0[p].start == x || t0[p].stop == x);
                assert(t[p] == t0[p]);
            }
            if x == slots[n - 1].start || x == slots[n - 1].stop {
                assert(t[n - 1] == slots[n - 1]);
            }
        }
    }
}

/// Every schedule has its boundaries.
pub proof fn lemma_boundaries_exist(slots: Seq<Slot>)
    ensures
        boundaries_of(slots, boundaries(slots)),
{
    lemma_boundaries_upto(slots, slots.len() as int);
    assert(slots.take(slots.len() as int) =~= slots);
    assert(boundaries_of(slots, boundaries_upto(slots, slots.len() as int)));
}

/// The slots on the air at instant `t`.
pub open spec fn on_air(slots: Seq<Slot>, t: int) -> Seq<Slot> {
    slots.filter(|s: Slot| s.start <= t && t < s.stop)
}

/// Instant `t` lies in one of the reported windows.
pub open spec fn in_some_window(cs: Seq<ConflictV>, t: int) -> bool {
    exists|c: int| 0 <= c < cs.len() && cs[c].start <= t && t < cs[c].stop
}

/// Windows that are non-empty, in time order, and do not overlap.
pub open spec fn windows_ordered(cs: Seq<ConflictV>) -> bool {
    &&& forall|c: int| 0 <= c < cs.len() ==> (#[trigger] cs[c]).start < cs[c].stop
    &&& forall|i: int, j: int| 0 <= i < j < cs.len() ==> (#[trigger] cs[i]).stop <= (#[trigger] cs[j]).start
}

proof fn lemma_filter_agree(s: Seq<Slot>, p: spec_fn(Slot) -> bool, q: spec_fn(Slot) -> bool)
    requires
        forall|i: int| 0 <= i < s.len() ==> p(#[trigger] s[i]) == q(s[i]),
    ensures
        s.filter(p) == s.filter(q),
    decreases s.len(),
{
    reveal(Seq::filter);
    if s.len() > 0 {
        assert forall|i: int| 0 <= i < s.drop_last().len() implies p(#[trigger] s.drop_last()[i])
            == q(s.drop_last()[i]) by {
            assert(s.drop_last()[i] == s[i]);
        }
        lemma_filter_agree(s.drop_last(), p, q);
        assert(p(s[s.len() - 1]) == q(s[s.len() - 1]));
    }
}

proof fn lemma_endpoint_in_boundaries(slots: Seq<Slot>, b: Seq<i64>, i: int)
    requires
        boundaries_of(slots, b),
        0 <= i < slots.len(),
    ensures
        b.len() > 0,
        b[0] <= slots[i].start <= b[b.len() - 1],
        b[0] <= slots[i].stop <= b[b.len() - 1],
        forall|k: int| 1 <= k < b.len() ==> !(b[k - 1] < slots[i].start < #[trigger] b[k]) && !(b[k
            - 1] < slots[i].stop < b[k]),
{
    assert(is_endpoint(slots, slots[i].start));
    assert(is_endpoint(slots, slots[i].stop));
    assert(b.contains(slots[i].start));
    assert(b.contains(slots[i].stop));
    let m = choose|m: int| 0 <= m < b.len() && b[m] == slots[i].start;
    let n = choose|n: int| 0 <= n < b.len() && b[n] == slots[i].stop;
    assert(b[0] <= b[m]) by {
        if m > 0 {
        }
    }
    assert(b[m] <= b[b.len() - 1]) by {
        if m < b.len() - 1 {
        }
    }
    assert(b[0] <= b[n]) by {
        if n > 0 {
        }
    }
    assert(b[n] <= b[b.len() - 1]) by {
        if n < b.len() - 1 {
        }
    }
    assert forall|k: int| 1 <= k < b.len() implies !(b[k - 1] < slots[i].start < #[trigger] b[k])
        && !(b[k - 1] < slots[i].stop < b[k]) by {
        if b[k - 1] < b[m] < b[k] {
            if m <= k - 1 {
                if m < k - 1 {
                    assert(b[m] < b[k - 1]);
                }
            } else if m >= k {
                if m > k {
                    assert(b[k] < b[m]);
                }
            }
        }
        if b[k - 1] < b[n] < b[k] {
            if n <= k - 1 {
                if n < k - 1 {
                    assert(b[n] < b[k - 1]);
                }
            } else if n >= k {
                if n > k {
                    assert(b[k] < b[n]);
                }
            }
        }
    }
}

/// Between two consecutive boundaries the slots on the air are exactly those active in
/// that window.
proof fn lemma_on_air_in_window(slots: Seq<Slot>, b: Seq<i64>, k: int, t: int)
    requires
        boundaries_of(slots, b),
        1 <= k < b.len(),
        b[k - 1] <= t < b[k],
    ensures
        on_air(slots, t) == active(slots, b[k - 1], b[k]),
{
    let from = b[k - 1];
    let to = b[k];
    let p = |s: Slot| s.start <= t && t < s.stop;
    let q = |s: Slot| s.start < to && from < s.stop;
    assert forall|i: int| 0 <= i < slots.len() implies p(#[trigger] slots[i]) == q(slots[i]) by {
        lemma_endpoint_in_boundaries(slots, b, i);
        assert(!(from < slots[i].start < to));
        assert(!(from < slots[i].stop < to));
    }
    lemma_filter_agree(slots, p, q);
}

/// Outside the span of the boundaries nothing is on the air.
proof fn lemma_on_air_outside(slots: Seq<Slot>, b: Seq<i64>, t: int)
    requires
        boundaries_of(slots, b),
        b.len() == 0 || t < b[0] || t >= b[b.len() - 1],
    ensures
        on_air(slots, t).len() == 0,
{
    let p = |s: Slot| s.start <= t && t < s.stop;
    if on_air(slots, t).len() > 0 {
        let x = on_air(slots, t)[0];
        assert(on_air(slots, t).contains(x));
        slots.lemma_filter_pred(p, 0);
        slots.lemma_filter_contains_rev(p, x);
        let i = choose|i: int| 0 <= i < slots.len() && slots[i] == x;
        lemma_endpoint_in_boundaries(slots, b, i);
    }
}

proof fn lemma_conflicts_upto_windows(slots: Seq<Slot>, b: Seq<i64>, max: nat, k: int)
    requires
        boundaries_of(slots, b),
        0 <= k < b.len(),
    ensures
        windows_ordered(conflicts_upto(slots, b, max, k)),
        forall|c: int|
            0 <= c < conflicts_upto(slots, b, max, k).len() ==> b[0] <= (#[trigger] conflicts_upto(
                slots,
                b,
                max,
                k,
            )[c]).start && conflicts_upto(slots, b, max, k)[c].stop <= b[k],
        forall|t: int|
            b[0] <= t < b[k] ==> (in_some_window(conflicts_upto(slots, b, max, k), t) <==> #[trigger] on_air(
                slots,
                t,
            ).len() > max),
    decreases k,
{
    if k > 0 {
        lemma_conflicts_upto_windows(slots, b, max, k - 1);
        let prev = conflicts_upto(slots, b, max, k - 1);
        let cur = conflicts_upto(slots, b, max, k);
        let from = b[k - 1];
        let to = b[k];
        let act = active(slots, from, to);
        assert(from < to);
        assert(b[0] <= from) by {
            if k - 1 > 0 {
            }
        }
        assert forall|t: int| b[0] <= t < b[k] implies (in_some_window(cur, t) <==> #[trigger] on_air(
            slots,
            t,
        ).len() > max) by {
            if t >= from {
                lemma_on_air_in_window(slots, b, k, t);
                if in_some_window(prev, t) {
                    let c = choose|c: int| 0 <= c < prev.len() && prev[c].start <= t && t < prev[c].stop;
                    assert(false);
                }
                if act.len() <= max {
                    assert(cur == prev);
                } else {
                    let c = cur.len() - 1;
                    assert(cur[c].start <= t && t < cur[c].stop);
                }
            } else {
                assert(b[0] <= t < b[k - 1]);
                if act.len() > max {
                    if in_some_window(prev, t) {
                        let c = choose|c: int| 0 <= c < prev.len() && prev[c].start <= t && t < prev[c].stop;
                        assert(cur[c].start <= t && t < cur[c].stop);
                    }
                    if in_some_window(cur, t) {
                        let c = choose|c: int| 0 <= c < cur.len() && cur[c].start <= t && t < cur[c].stop;
                        if c < prev.len() {
                            assert(prev[c].start <= t && t < prev[c].stop);
                        }
                    }
                }
            }
        }
    }
}

/// The windows `find_conflicts` reports are exactly where too much is on the air: an
/// instant lies in a reported window if and only if more than `max` slots are recording
/// then. The windows are non-empty, come in time order and do not overlap.
pub proof fn lemma_conflict_windows(slots: Seq<Slot>, max: nat)
    requires
        max >= 1,
    ensures
        windows_ordered(spec_conflicts(slots, max)),
        forall|t: int| in_some_window(spec_conflicts(slots, max), t) <==> #[trigger] on_air(slots, t).len() > max,
{
    let b = boundaries(slots);
    let cs = spec_conflicts(slots, max);
    lemma_boundaries_exist(slots);
    assert(boundaries_of(slots, b));
    if b.len() == 0 {
        assert(cs =~= Seq::<ConflictV>::empty());
        assert forall|t: int| in_some_window(cs, t) <==> #[trigger] on_air(slots, t).len() > max by {
            lemma_on_air_outside(slots, b, t);
        }
    } else {
        lemma_conflicts_upto_windows(slots, b, max, b.len() - 1);
        assert forall|t: int| in_some_window(cs, t) <==> #[trigger] on_air(slots, t).len() > max by {
            if !(b[0] <= t < b[b.len() - 1]) {
                lemma_on_air_outside(slots, b, t);
                if in_some_window(cs, t) {
                    let c = choose|c: int| 0 <= c < cs.len() && cs[c].start <= t && t < cs[c].stop;
                }
            }
        }
    }
}

// ---------------------------------------------------------------------------------------
// Resolution.
// ---------------------------------------------------------------------------------------

/// The schedule with every slot carrying `id` removed.
pub open spec fn without(slots: Seq<Slot>, id: i64) -> Seq<Slot> {
    slots.filter(|s: Slot| s.id != id)
}

/// Removing an id that occurs shortens the schedule.
proof fn lemma_without_shrinks(slots: Seq<Slot>, id: i64)
    requires
        has_id(slots, id),
    ensures
        without(slots, id).len() < slots.len(),
    decreases slots.len(),
{
    let pred = |s: Slot| s.id != id;
    slots.drop_last().lemma_filter_push(slots.last(), pred);
    assert(slots.drop_last().push(slots.last()) =~= slots);
    slots.drop_last().lemma_filter_len(pred);
    if slots.last().id != id {
        let i = choose|i: int| 0 <= i < slots.len() && slots[i].id == id;
        assert(slots.drop_last()[i] == slots[i]);
        lemma_without_shrinks(slots.drop_last(), id);
    }
}

/// The id the first conflict would drop: the least important slot in it.
pub open spec fn first_victim(kept: Seq<Slot>, max: nat) -> Option<i64> {
    let cs = spec_conflicts(kept, max);
    if cs.len() == 0 || cs[0].slot_ids.len() == 0 {
        None
    } else {
        Some(cs[0].slot_ids.last())
    }
}

/// The ids `resolve_conflicts` drops, in the order it drops them: while the schedule
/// has a conflict, the least important slot of the first one goes.
pub open spec fn spec_resolve(kept: Seq<Slot>, max: nat) -> Seq<i64>
    decreases kept.len(),
    via resolve_decreases
{
    match first_victim(kept, max) {
        None => Seq::empty(),
        Some(victim) => {
            let rest = without(kept, victim);
            if rest.len() == 0 {
                seq![victim]
            } else {
                seq![victim] + spec_resolve(rest, max)
            }
        },
    }
}

#[via_fn]
proof fn resolve_decreases(kept: Seq<Slot>, max: nat) {
    lemma_victim_shrinks(kept, max);
}

/// The slot a conflict drops is one of the schedule's, so dropping it shortens it.
pub proof fn lemma_victim_shrinks(kept: Seq<Slot>, max: nat)
    ensures
        first_victim(kept, max) matches Some(victim) ==> has_id(kept, victim) && without(
            kept,
            victim,
        ).len() < kept.len(),
{
    if let Some(victim) = first_victim(kept, max) {
        lemma_conflicts_well_formed(kept, max);
        let cs = spec_conflicts(kept, max);
        assert(has_id(kept, cs[0].slot_ids[cs[0].slot_ids.len() - 1]));
        lemma_without_shrinks(kept, victim);
    }
}

fn without_id(kept: &Vec<Slot>, id: i64) -> (r: Vec<Slot>)
    ensures
        r@ == without(kept@, id),
{
    let ghost pred = |s: Slot| s.id != id;
    let mut r: Vec<Slot> = Vec::new();
    let mut i: usize = 0;
    while i < kept.len()
        invariant
            i <= kept.len(),
            pred == (|s: Slot| s.id != id),
            r@ == kept@.take(i as int).filter(pred),
        decreases kept.len() - i,
    {
        let s = kept[i];
        proof {
            kept@.take(i as int).lemma_filter_push(s, pred);
            assert(kept@.take(i + 1) =~= kept@.take(i as int).push(s));
        }
        if s.id != id {
            r.push(s);
        }
        i += 1;
    }
    assert(kept@.take(kept.len() as int) =~= kept@);
    r
}

/// Which slots to drop so nothing exceeds the limit. Lowest priority goes first.
pub fn resolve_conflicts(slots: &[Slot], max_concurrent: usize) -> (r: Vec<i64>)
    ensures
        r@ == spec_resolve(slots@, max_concurrent as nat),
{
    let mut dropped: Vec<i64> = Vec::new();
    let mut kept: Vec<Slot> = slice_to_vec(slots);
    loop
        invariant_except_break
            dropped@ + spec_resolve(kept@, max_concurrent as nat) == spec_resolve(
                slots@,
                max_concurrent as nat,
            ),
        ensures
            dropped@ == spec_resolve(slots@, max_concurrent as nat),
        decreases kept.len(),
    {
        let conflicts = find_conflicts(&kept, max_concurrent);
        if conflicts.len() == 0 {
            assert(dropped@ =~= spec_resolve(slots@, max_concurrent as nat));
            break ;
        }
        let n = conflicts[0].slot_ids.len();
        if n == 0 {
            assert(dropped@ =~= spec_resolve(slots@, max_concurrent as nat));
            break ;
        }
        // The last id in a ranked list is the least important one in that window.
        let victim = conflicts[0].slot_ids[n - 1];
        proof {
            assert(first_victim(kept@, max_concurrent as nat) == Some(victim));
            lemma_victim_shrinks(kept@, max_concurrent as nat);
        }
        let ghost before = kept@;
        dropped.push(victim);
        kept = without_id(&kept, victim);
        if kept.len() == 0 {
            assert(spec_resolve(before, max_concurrent as nat) == seq![victim]);
            assert(dropped@ =~= spec_resolve(slots@, max_concurrent as nat));
            break ;
        }
        assert(dropped@ + spec_resolve(kept@, max_concurrent as nat) =~= spec_resolve(
            slots@,
            max_concurrent as nat,
        ));
    }
    dropped
}


// ---------------------------------------------------------------------------------------
// Laws of resolution.
// ---------------------------------------------------------------------------------------

/// The schedule once every dropped id is gone.
pub open spec fn remaining(slots: Seq<Slot>, dropped: Seq<i64>) -> Seq<Slot> {
    slots.filter(|s: Slot| !dropped.contains(s.id))
}

proof fn lemma_filter_ext(s: Seq<Slot>, p: spec_fn(Slot) -> bool, q: spec_fn(Slot) -> bool)
    requires
        forall|x: Slot| #[trigger] p(x) == q(x),
    ensures
        s.filter(p) == s.filter(q),
    decreases s.len(),
{
    reveal(Seq::filter);
    if s.len() > 0 {
        lemma_filter_ext(s.drop_last(), p, q);
    }
}

proof fn lemma_filter_twice(s: Seq<Slot>, p: spec_fn(Slot) -> bool, q: spec_fn(Slot) -> bool)
    ensures
        s.filter(p).filter(q) == s.filter(|x: Slot| p(x) && q(x)),
    decreases s.len(),
{
    reveal(Seq::filter);
    if s.len() > 0 {
        lemma_filter_twice(s.drop_last(), p, q);
        let pq = |x: Slot| p(x) && q(x);
        s.drop_last().lemma_filter_push(s.last(), p);
        s.drop_last().filter(p).lemma_filter_push(s.last(), q);
        s.drop_last().lemma_filter_push(s.last(), pq);
        assert(s.drop_last().push(s.last()) =~= s);
    }
}

proof fn lemma_filter_everything(s: Seq<Slot>, p: spec_fn(Slot) -> bool)
    requires
        forall|x: Slot| #[trigger] p(x),
    ensures
        s.filter(p) == s,
    decreases s.len(),
{
    reveal(Seq::filter);
    if s.len() > 0 {
        lemma_filter_everything(s.drop_last(), p);
        assert(s.drop_last().push(s.last()) =~= s);
    }
}

/// An empty schedule has nothing to conflict.
pub proof fn lemma_empty_has_no_conflicts(max: nat)
    ensures
        spec_conflicts(Seq::<Slot>::empty(), max).len() == 0,
{
    if max > 0 {
        let e = Seq::<Slot>::empty();
        let none = Seq::<i64>::empty();
        assert(boundaries_of(e, none));
        let b = boundaries(e);
        assert(boundaries_of(e, b));
        lemma_increasing_unique(b, none);
    }
}

/// The law resolution exists for: once every slot it names is dropped, what is left
/// fits the connection limit everywhere.
pub proof fn lemma_resolution_fits(slots: Seq<Slot>, max: nat)
    ensures
        spec_conflicts(remaining(slots, spec_resolve(slots, max)), max).len() == 0,
    decreases slots.len(),
{
    let dropped = spec_resolve(slots, max);
    lemma_conflicts_well_formed(slots, max);
    match first_victim(slots, max) {
        None => {
            lemma_filter_everything(slots, |s: Slot| !dropped.contains(s.id));
        },
        Some(victim) => {
            lemma_victim_shrinks(slots, max);
            let rest = without(slots, victim);
            if rest.len() == 0 {
                let p_all = |s: Slot| !dropped.contains(s.id);
                let p_v = |s: Slot| s.id != victim;
                assert(dropped == seq![victim]);
                assert forall|s: Slot| #[trigger] p_all(s) == p_v(s) by {
                    if dropped.contains(s.id) {
                        let i = choose|i: int| 0 <= i < dropped.len() && dropped[i] == s.id;
                    }
                    if s.id == victim {
                        assert(dropped[0] == s.id);
                    }
                }
                lemma_filter_ext(slots, p_all, p_v);
                lemma_empty_has_no_conflicts(max);
                assert(rest =~= Seq::<Slot>::empty());
            } else {
                let later = spec_resolve(rest, max);
                assert(dropped == seq![victim] + later);
                lemma_resolution_fits(rest, max);
                let p_all = |s: Slot| !dropped.contains(s.id);
                let p_v = |s: Slot| s.id != victim;
                let p_later = |s: Slot| !later.contains(s.id);
                let p_both = |x: Slot| p_v(x) && p_later(x);
                lemma_filter_twice(slots, p_v, p_later);
                assert forall|s: Slot| #[trigger] p_all(s) == p_both(s) by {
                    if dropped.contains(s.id) {
                        let i = choose|i: int| 0 <= i < dropped.len() && dropped[i] == s.id;
                        if i > 0 {
                            assert(later[i - 1] == s.id);
                        }
                    }
                    if later.contains(s.id) {
                        let i = choose|i: int| 0 <= i < later.len() && later[i] == s.id;
                        assert(dropped[i + 1] == s.id);
                    }
                    if s.id == victim {
                        assert(dropped[0] == s.id);
                    }
                }
                lemma_filter_ext(slots, p_all, p_both);
                assert(remaining(slots, dropped) == slots.filter(p_all));
                assert(rest == slots.filter(p_v));
                assert(remaining(rest, later) == rest.filter(p_later));
            }
        },
    }
}

/// Resolution only ever drops slots the schedule actually has.
pub proof fn lemma_resolution_drops_scheduled(slots: Seq<Slot>, max: nat)
    ensures
        forall|i: int|
            0 <= i < spec_resolve(slots, max).len() ==> has_id(
                slots,
                #[trigger] spec_resolve(slots, max)[i],
            ),
    decreases slots.len(),
{
    if let Some(victim) = first_victim(slots, max) {
        lemma_victim_shrinks(slots, max);
        let rest = without(slots, victim);
        if rest.len() > 0 {
            lemma_resolution_drops_scheduled(rest, max);
            let later = spec_resolve(rest, max);
            assert forall|i: int| 0 <= i < spec_resolve(slots, max).len() implies has_id(
                slots,
                #[trigger] spec_resolve(slots, max)[i],
            ) by {
                if i > 0 {
                    assert(spec_resolve(slots, max)[i] == later[i - 1]);
                    assert(has_id(rest, later[i - 1]));
                    let j = choose|j: int| 0 <= j < rest.len() && rest[j].id == later[i - 1];
                    assert(rest.contains(rest[j]));
                    slots.lemma_filter_contains_rev(|s: Slot| s.id != victim, rest[j]);
                    let k = choose|k: int| 0 <= k < slots.len() && slots[k] == rest[j];
                    assert(slots[k].id == later[i - 1]);
                }
            }
        }
    }
}

/// No id is dropped twice.
pub open spec fn no_repeats(ids: Seq<i64>) -> bool {
    forall|i: int, j: int| 0 <= i < j < ids.len() ==> ids[i] != ids[j]
}

/// Resolution drops each id at most once: once a slot's id is dropped, no slot with it is
/// left to drop again.
pub proof fn lemma_resolution_drops_each_once(slots: Seq<Slot>, max: nat)
    ensures
        no_repeats(spec_resolve(slots, max)),
    decreases slots.len(),
{
    if let Some(victim) = first_victim(slots, max) {
        lemma_victim_shrinks(slots, max);
        let rest = without(slots, victim);
        if rest.len() > 0 {
            lemma_resolution_drops_each_once(rest, max);
            lemma_resolution_drops_scheduled(rest, max);
            let later = spec_resolve(rest, max);
            let d = spec_resolve(slots, max);
            assert(d == seq![victim] + later);
            assert forall|i: int| 0 <= i < later.len() implies #[trigger] later[i] != victim by {
                assert(has_id(rest, later[i]));
                let j = choose|j: int| 0 <= j < rest.len() && rest[j].id == later[i];
                assert(rest.contains(rest[j]));
                slots.lemma_filter_contains_rev(|s: Slot| s.id != victim, rest[j]);
            }
            assert forall|i: int, j: int| 0 <= i < j < d.len() implies d[i] != d[j] by {
                assert(d[j] == later[j - 1]);
                if i > 0 {
                    assert(d[i] == later[i - 1]);
                }
            }
        }
    }
}

/// Resolution drops nothing exactly when the schedule has no conflict.
pub proof fn lemma_nothing_dropped_iff_no_conflict(slots: Seq<Slot>, max: nat)
    ensures
        (spec_resolve(slots, max).len() == 0) <==> (spec_conflicts(slots, max).len() == 0),
{
    lemma_conflicts_well_formed(slots, max);
    let cs = spec_conflicts(slots, max);
    if cs.len() > 0 {
        assert(cs[0].slot_ids.len() > 0);
        let victim = cs[0].slot_ids.last();
        assert(first_victim(slots, max) == Some(victim));
        lemma_victim_shrinks(slots, max);
        if without(slots, victim).len() > 0 {
            assert(spec_resolve(slots, max) == seq![victim] + spec_resolve(without(slots, victim), max));
        }
        assert(spec_resolve(slots, max)[0] == victim);
    }
}

// ---------------------------------------------------------------------------------------
// Series rules.
// ---------------------------------------------------------------------------------------

/// "Record every episode of X", optionally narrowed by channel, weekday and time.
#[derive(Debug, Clone, PartialEq, Eq)]
pub struct SeriesRule {
    pub id: i64,
    /// Normalized show title, compared with `title::match_key`.
    pub title_key: String,
    /// Restrict to one channel, or `None` for any.
    pub channel_id: Option<i64>,
    /// Only episodes the guide flags as new.
    pub new_only: bool,
    /// Restrict to particular weekdays (0 = Monday), in the viewer's zone.
    pub weekdays: Option<Vec<u8>>,
    /// Restrict to programmes starting near this local time, within `time_slack_secs`.
    pub around_local_minute: Option<u16>,
    pub time_slack_secs: i64,
    pub priority: i32,
}

pub struct RuleV {
    pub id: i64,
    pub title_key: Seq<char>,
    pub channel_id: Option<i64>,
    pub new_only: bool,
    pub weekdays: Option<Seq<u8>>,
    pub around_local_minute: Option<u16>,
    pub time_slack_secs: i64,
    pub priority: i32,
}

pub open spec fn rule_view(r: SeriesRule) -> RuleV {
    RuleV {
        id: r.id,
        title_key: r.title_key@,
        channel_id: r.channel_id,
        new_only: r.new_only,
        weekdays: match r.weekdays {
            Some(v) => Some(v@),
            None => None,
        },
        around_local_minute: r.around_local_minute,
        time_slack_secs: r.time_slack_secs,
        priority: r.priority,
    }
}

/// The weekday, counted from Monday, of the day holding local timestamp `t`.
pub open spec fn local_weekday(t: int) -> int {
    (t / 86400 + 3) % 7
}

/// The minute of the day at local timestamp `t`.
pub open spec fn local_minute(t: int) -> int {
    (t % 86400) / 60
}

/// How far apart two minutes of the day are, going round midnight if that is shorter:
/// 23:55 and 00:05 are ten minutes apart.
pub open spec fn minutes_apart(a: int, b: int) -> int {
    let d = if a >= b {
        a - b
    } else {
        b - a
    };
    if d <= 1440 - d {
        d
    } else {
        1440 - d
    }
}

/// The checks a rule makes before it looks at the clock: the channel and new-episode
/// restrictions hold and the normalized titles agree. Only a programme that passes them
/// has its start turned into a local time.
pub open spec fn passes_before_clock(rule: RuleV, title: Seq<char>, is_new: bool, channel_id: i64) -> bool {
    &&& (rule.channel_id matches Some(only) ==> only == channel_id)
    &&& (rule.new_only ==> is_new)
    &&& spec_match_key(title) == rule.title_key
}

/// Whether a rule records a programme titled `title`, starting at `start`, on channel
/// `channel_id`, for a viewer `offset` seconds east of UTC: the channel and the
/// new-episode restrictions hold, the normalized titles agree, the offset and the start
/// can be represented, and the local weekday and time of day are among those allowed.
pub open spec fn spec_rule_matches(
    rule: RuleV,
    title: Seq<char>,
    is_new: bool,
    start: i64,
    channel_id: i64,
    offset: i32,
) -> bool {
    let local = start + offset;
    &&& (rule.channel_id matches Some(only) ==> only == channel_id)
    &&& (rule.new_only ==> is_new)
    &&& spec_match_key(title) == rule.title_key
    &&& offset_in_range(offset as int)
    &&& timestamp_in_range(start as int)
    &&& (rule.weekdays matches Some(days) ==> days.contains(local_weekday(local) as u8))
    &&& (rule.around_local_minute matches Some(target) ==> minutes_apart(
        local_minute(local),
        target as int,
    ) * 60 <= rule.time_slack_secs)
}

fn contains_byte(v: &Vec<u8>, x: u8) -> (r: bool)
    ensures
        r == v@.contains(x),
{
    let mut i: usize = 0;
    while i < v.len()
        invariant
            i <= v.len(),
            forall|j: int| 0 <= j < i ==> v@[j] != x,
        decreases v.len() - i,
    {
        if v[i] == x {
            assert(v@[i as int] == x);
            return true;
        }
        i += 1;
    }
    false
}

impl SeriesRule {
    /// A rule for the show `title`, on any channel, any day, any time.
    pub fn new(id: i64, title: &str) -> (r: Self)
        ensures
            r.id == id,
            r.title_key@ == spec_match_key(title@),
            r.channel_id is None,
            !r.new_only,
            r.weekdays is None,
            r.around_local_minute is None,
            r.time_slack_secs == 900,
            r.priority == 0,
    {
        SeriesRule {
            id,
            title_key: match_key(title),
            channel_id: None,
            new_only: false,
            weekdays: None,
            around_local_minute: None,
            time_slack_secs: 900,
            priority: 0,
        }
    }

    /// Whether this rule should record `programme` airing on `channel_id`, for a viewer
    /// `utc_offset_secs` east of UTC.
    pub fn matches(&self, programme: &Programme, channel_id: i64, utc_offset_secs: i32) -> (r: bool)
        requires
            passes_before_clock(rule_view(*self), programme.title@, programme.is_new, channel_id)
                ==> local_time_in_range(programme.start as int, utc_offset_secs as int),
        ensures
            r == spec_rule_matches(
                rule_view(*self),
                programme.title@,
                programme.is_new,
                programme.start,
                channel_id,
                utc_offset_secs,
            ),
    {
        if let Some(only) = self.channel_id {
            if only != channel_id {
                return false;
            }
        }
        if self.new_only && !programme.is_new {
            return false;
        }
        let key = match_key(programme.title.as_str());
        let kv = chars_of(key.as_str());
        let rv = chars_of(self.title_key.as_str());
        if !seq_eq(&kv, &rv) {
            return false;
        }
        let (local, weekday) = match local_civil(programme.start, utc_offset_secs) {
            Some(x) => x,
            None => return false,
        };
        let ghost t = programme.start + utc_offset_secs;
        proof {
            lemma_civil_split(
                local.year as int,
                local.month as int,
                local.day as int,
                local.hour as int,
                local.minute as int,
                local.second as int,
            );
        }
        assert(local_weekday(t) == weekday as int);
        assert(local_minute(t) == local.hour as int * 60 + local.minute as int);
        if let Some(days) = &self.weekdays {
            if !contains_byte(days, weekday) {
                return false;
            }
        }
        if let Some(target) = self.around_local_minute {
            let minute_of_day: i64 = local.hour as i64 * 60 + local.minute as i64;
            let d: i64 = if minute_of_day >= target as i64 {
                minute_of_day - target as i64
            } else {
                target as i64 - minute_of_day
            };
            let diff: i64 = if d <= 1440 - d {
                d
            } else {
                1440 - d
            };
            if diff * 60 > self.time_slack_secs {
                return false;
            }
        }
        true
    }
}

/// A guide entry as the rules see it: title, new-episode flag, start, channel.
pub open spec fn entry_view(e: (Programme, i64)) -> (Seq<char>, bool, i64, i64) {
    (e.0.title@, e.0.is_new, e.0.start, e.1)
}

/// The id of the first rule that records an entry.
pub open spec fn first_rule(rules: Seq<RuleV>, e: (Seq<char>, bool, i64, i64), offset: i32) -> Option<i64>
    decreases rules.len(),
{
    if rules.len() == 0 {
        None
    } else if spec_rule_matches(rules[0], e.0, e.1, e.2, e.3, offset) {
        Some(rules[0].id)
    } else {
        first_rule(rules.drop_first(), e, offset)
    }
}

/// What a rule set records from a list of entries: for each entry some rule records,
/// in order, the first such rule's id and the entry's index.
pub open spec fn spec_expand(rules: Seq<RuleV>, entries: Seq<(Seq<char>, bool, i64, i64)>, offset: i32)
    -> Seq<(i64, int)>
    decreases entries.len(),
{
    if entries.len() == 0 {
        Seq::empty()
    } else {
        let prev = spec_expand(rules, entries.drop_last(), offset);
        match first_rule(rules, entries.last(), offset) {
            Some(id) => prev.push((id, entries.len() - 1)),
            None => prev,
        }
    }
}

pub open spec fn rules_view(rules: Seq<SeriesRule>) -> Seq<RuleV> {
    rules.map_values(|r: SeriesRule| rule_view(r))
}

pub open spec fn entries_view(entries: Seq<(Programme, i64)>) -> Seq<(Seq<char>, bool, i64, i64)> {
    entries.map_values(|e: (Programme, i64)| entry_view(e))
}

pub open spec fn picks_view(v: Seq<(i64, usize)>) -> Seq<(i64, int)> {
    v.map_values(|p: (i64, usize)| (p.0, p.1 as int))
}

fn first_matching_rule(rules: &[SeriesRule], p: &Programme, channel_id: i64, offset: i32) -> (r: Option<i64>)
    requires
        forall|j: int|
            0 <= j < rules@.len() && passes_before_clock(
                rule_view(#[trigger] rules@[j]),
                p.title@,
                p.is_new,
                channel_id,
            ) ==> local_time_in_range(p.start as int, offset as int),
    ensures
        r == first_rule(rules_view(rules@), entry_view((*p, channel_id)), offset),
{
    let ghost all = rules_view(rules@);
    let ghost e = entry_view((*p, channel_id));
    let mut j: usize = 0;
    assert(all.skip(0) =~= all);
    while j < rules.len()
        invariant
            j <= rules.len(),
            all == rules_view(rules@),
            e == entry_view((*p, channel_id)),
            forall|j: int|
                0 <= j < rules@.len() && passes_before_clock(
                    rule_view(#[trigger] rules@[j]),
                    p.title@,
                    p.is_new,
                    channel_id,
                ) ==> local_time_in_range(p.start as int, offset as int),
            first_rule(all, e, offset) == first_rule(all.skip(j as int), e, offset),
        decreases rules.len() - j,
    {
        assert(all.skip(j as int)[0] == rule_view(rules@[j as int]));
        assert(all.skip(j as int).drop_first() =~= all.skip(j + 1));
        if rules[j].matches(p, channel_id, offset) {
            return Some(rules[j].id);
        }
        j += 1;
    }
    assert(all.skip(j as int) =~= Seq::<RuleV>::empty());
    None
}

/// Everything a rule set would record from a slice of guide entries: `(rule id, entry
/// index)`, one recording per entry however many rules match, the first rule winning.
pub fn expand_rules(rules: &[SeriesRule], programmes: &[(Programme, i64)], utc_offset_secs: i32) -> (r: Vec<(i64, usize)>)
    requires
        forall|i: int, j: int|
            0 <= i < programmes@.len() && 0 <= j < rules@.len() && passes_before_clock(
                rule_view(#[trigger] rules@[j]),
                (#[trigger] programmes@[i]).0.title@,
                programmes@[i].0.is_new,
                programmes@[i].1,
            ) ==> local_time_in_range(programmes@[i].0.start as int, utc_offset_secs as int),
    ensures
        picks_view(r@) == spec_expand(rules_view(rules@), entries_view(programmes@), utc_offset_secs),
{
    let ghost es = entries_view(programmes@);
    let mut out: Vec<(i64, usize)> = Vec::new();
    let mut index: usize = 0;
    while index < programmes.len()
        invariant
            index <= programmes.len(),
            es == entries_view(programmes@),
            forall|i: int, j: int|
                0 <= i < programmes@.len() && 0 <= j < rules@.len() && passes_before_clock(
                    rule_view(#[trigger] rules@[j]),
                    (#[trigger] programmes@[i]).0.title@,
                    programmes@[i].0.is_new,
                    programmes@[i].1,
                ) ==> local_time_in_range(programmes@[i].0.start as int, utc_offset_secs as int),
            picks_view(out@) == spec_expand(rules_view(rules@), es.take(index as int), utc_offset_secs),
        decreases programmes.len() - index,
    {
        assert(es.take(index + 1).drop_last() =~= es.take(index as int));
        assert(es.take(index + 1).last() == entry_view(programmes@[index as int]));
        let pair = &programmes[index];
        match first_matching_rule(rules, &pair.0, pair.1, utc_offset_secs) {
            Some(id) => {
                let ghost before = picks_view(out@);
                out.push((id, index));
                assert(picks_view(out@) =~= before.push((id, index as int)));
            },
            None => {},
        }
        index += 1;
    }
    assert(es.take(es.len() as int) =~= es);
    out
}

/// One recording per guide entry: the entries a rule set records come in order, each
/// at most once, and each is an entry of the list.
pub proof fn lemma_expand_records_each_entry_once(
    rules: Seq<RuleV>,
    entries: Seq<(Seq<char>, bool, i64, i64)>,
    offset: i32,
)
    ensures
        forall|i: int, j: int|
            0 <= i < j < spec_expand(rules, entries, offset).len() ==> (
            #[trigger] spec_expand(rules, entries, offset)[i]).1 < (
            #[trigger] spec_expand(rules, entries, offset)[j]).1,
        forall|i: int|
            0 <= i < spec_expand(rules, entries, offset).len() ==> 0 <= (
            #[trigger] spec_expand(rules, entries, offset)[i]).1 < entries.len(),
    decreases entries.len(),
{
    if entries.len() > 0 {
        lemma_expand_records_each_entry_once(rules, entries.drop_last(), offset);
        let prev = spec_expand(rules, entries.drop_last(), offset);
        let cur = spec_expand(rules, entries, offset);
        match first_rule(rules, entries.last(), offset) {
            Some(id) => {
                assert(cur == prev.push((id, entries.len() - 1)));
                assert forall|i: int| 0 <= i < cur.len() implies 0 <= (#[trigger] cur[i]).1
                    < entries.len() by {
                    if i < prev.len() {
                        assert(cur[i] == prev[i]);
                    }
                }
                assert forall|i: int, j: int| 0 <= i < j < cur.len() implies (#[trigger] cur[i]).1
                    < (#[trigger] cur[j]).1 by {
                    assert(cur[i] == prev[i]);
                    if j < prev.len() {
                        assert(cur[j] == prev[j]);
                    }
                }
            },
            None => {},
        }
    }
}

/// Each recording names the first rule that matches its entry.
pub proof fn lemma_expand_names_the_first_rule(
    rules: Seq<RuleV>,
    entries: Seq<(Seq<char>, bool, i64, i64)>,
    offset: i32,
)
    ensures
        forall|i: int|
            0 <= i < spec_expand(rules, entries, offset).len() ==> {
                let (id, k) = #[trigger] spec_expand(rules, entries, offset)[i];
                0 <= k < entries.len() && first_rule(rules, entries[k], offset) == Some(id)
            },
    decreases entries.len(),
{
    if entries.len() > 0 {
        lemma_expand_names_the_first_rule(rules, entries.drop_last(), offset);
        lemma_expand_records_each_entry_once(rules, entries.drop_last(), offset);
        let prev = spec_expand(rules, entries.drop_last(), offset);
        assert forall|i: int| 0 <= i < prev.len() implies entries[prev[i].1] == entries.drop_last()[prev[i].1] by {}
    }
}


/// No two slots of the schedule share an id.
pub open spec fn ids_distinct(slots: Seq<Slot>) -> bool {
    forall|i: int, j: int| 0 <= i < j < slots.len() ==> (#[trigger] slots[i]).id != (#[trigger] slots[j]).id
}

/// Every slot starts before it stops.
pub open spec fn windows_non_empty(slots: Seq<Slot>) -> bool {
    forall|i: int| 0 <= i < slots.len() ==> (#[trigger] slots[i]).start < slots[i].stop
}

/// What each reported window names: exactly the slots overlapping it, most important
/// first, with `over_by` the number beyond the limit; and two windows that touch name
/// different slots (otherwise they would be one window).
pub open spec fn conflicts_named(slots: Seq<Slot>, cs: Seq<ConflictV>, max: nat) -> bool {
    &&& forall|c: int|
        0 <= c < cs.len() ==> {
            &&& (#[trigger] cs[c]).slot_ids == spec_ranked_ids(active(slots, cs[c].start, cs[c].stop))
            &&& cs[c].over_by + max == cs[c].slot_ids.len()
        }
    &&& forall|c: int|
        0 <= c < cs.len() - 1 && (#[trigger] cs[c]).stop == cs[c + 1].start ==> cs[c].slot_ids
            != cs[c + 1].slot_ids
}

proof fn lemma_id_in_ranked(part: Seq<Slot>, x: Slot)
    requires
        part.contains(x),
    ensures
        spec_ranked_ids(part).contains(x.id),
{
    lemma_ranked_members(part);
    let i = choose|i: int| 0 <= i < part.len() && part[i] == x;
    assert(ranked(part).contains(part[i]));
    let j = choose|j: int| 0 <= j < ranked(part).len() && ranked(part)[j] == x;
    assert(spec_ranked_ids(part)[j] == x.id);
}

proof fn lemma_ranked_id_from(part: Seq<Slot>, id: i64)
    requires
        spec_ranked_ids(part).contains(id),
    ensures
        exists|y: Slot| part.contains(y) && y.id == id,
{
    lemma_ranked_members(part);
    let j = choose|j: int| 0 <= j < spec_ranked_ids(part).len() && spec_ranked_ids(part)[j] == id;
    assert(part.contains(ranked(part)[j]));
}

proof fn lemma_conflicts_upto_named(slots: Seq<Slot>, b: Seq<i64>, max: nat, k: int)
    requires
        boundaries_of(slots, b),
        ids_distinct(slots),
        windows_non_empty(slots),
        0 <= k < b.len(),
    ensures
        conflicts_named(slots, conflicts_upto(slots, b, max, k), max),
    decreases k,
{
    if k > 0 {
        lemma_conflicts_upto_named(slots, b, max, k - 1);
        lemma_conflicts_upto_windows(slots, b, max, k - 1);
        let prev = conflicts_upto(slots, b, max, k - 1);
        let cur = conflicts_upto(slots, b, max, k);
        let from = b[k - 1];
        let to = b[k];
        let act = active(slots, from, to);
        let pred = |x: Slot| x.start < to && from < x.stop;
        assert forall|i: int| 0 <= i < act.len() implies slots.contains(#[trigger] act[i]) by {
            assert(act.contains(act[i]));
            slots.lemma_filter_contains_rev(pred, act[i]);
        }
        lemma_ranked_ids_of_part(slots, act);
        if act.len() > max {
            let ids = spec_ranked_ids(act);
            if prev.len() > 0 && prev.last().stop == from && prev.last().slot_ids == ids {
                let n = prev.len() - 1;
                let st = prev[n].start;
                assert(prev.last() == prev[n]);
                let old_act = active(slots, st, from);
                let q = |x: Slot| x.start < from && st < x.stop;
                let q2 = |x: Slot| x.start < to && st < x.stop;
                assert(prev[n].slot_ids == spec_ranked_ids(old_act));
                assert forall|i: int| 0 <= i < slots.len() implies q(#[trigger] slots[i]) == q2(slots[i]) by {
                    let x = slots[i];
                    lemma_endpoint_in_boundaries(slots, b, i);
                    if q2(x) && !q(x) {
                        // x starts at `from` exactly, and so is on the air in this window.
                        assert(!(from < x.start < to));
                        assert(x.start == from);
                        assert(pred(x));
                        slots.lemma_filter_contains(pred, i);
                        lemma_id_in_ranked(act, x);
                        lemma_ranked_id_from(old_act, x.id);
                        let y = choose|y: Slot| old_act.contains(y) && y.id == x.id;
                        slots.lemma_filter_contains_rev(q, y);
                        let m = choose|m: int| 0 <= m < slots.len() && slots[m] == y;
                        if m < i {
                            assert(slots[m].id != slots[i].id);
                        } else if m > i {
                            assert(slots[i].id != slots[m].id);
                        }
                        let w = choose|w: int| 0 <= w < old_act.len() && old_act[w] == y;
                        slots.lemma_filter_pred(q, w);
                    }
                }
                lemma_filter_agree(slots, q, q2);
                assert(cur == prev.update(n, ConflictV { stop: to, ..prev[n] }));
                assert forall|c: int| 0 <= c < cur.len() implies {
                    &&& (#[trigger] cur[c]).slot_ids == spec_ranked_ids(active(slots, cur[c].start, cur[c].stop))
                    &&& cur[c].over_by + max == cur[c].slot_ids.len()
                } by {
                    if c < n {
                        assert(cur[c] == prev[c]);
                    }
                }
                assert forall|c: int| 0 <= c < cur.len() - 1 && (#[trigger] cur[c]).stop == cur[c + 1].start
                    implies cur[c].slot_ids != cur[c + 1].slot_ids by {
                    assert(cur[c] == prev[c]);
                    if c + 1 < n {
                        assert(cur[c + 1] == prev[c + 1]);
                    }
                }
            } else {
                let nc = ConflictV { start: from, stop: to, slot_ids: ids, over_by: (act.len() - max) as nat };
                assert(cur == prev.push(nc));
                assert forall|c: int| 0 <= c < cur.len() implies {
                    &&& (#[trigger] cur[c]).slot_ids == spec_ranked_ids(active(slots, cur[c].start, cur[c].stop))
                    &&& cur[c].over_by + max == cur[c].slot_ids.len()
                } by {
                    if c < prev.len() {
                        assert(cur[c] == prev[c]);
                    }
                }
                assert forall|c: int| 0 <= c < cur.len() - 1 && (#[trigger] cur[c]).stop == cur[c + 1].start
                    implies cur[c].slot_ids != cur[c + 1].slot_ids by {
                    assert(cur[c] == prev[c]);
                    if c + 1 < prev.len() {
                        assert(cur[c + 1] == prev[c + 1]);
                    } else {
                        assert(prev.last() == prev[c]);
                    }
                }
            }
        }
    }
}

/// For a limit of at least one and a schedule whose ids are distinct and whose slots each
/// start before they stop, every window
/// `find_conflicts` reports names exactly the slots overlapping it, most important
/// first (priority, then start, then id), `over_by` is how many that is beyond the
/// limit, and two windows that touch name different slots.
pub proof fn lemma_conflicts_name_their_slots(slots: Seq<Slot>, max: nat)
    requires
        max >= 1,
        ids_distinct(slots),
        windows_non_empty(slots),
    ensures
        conflicts_named(slots, spec_conflicts(slots, max), max),
{
    lemma_boundaries_exist(slots);
    let b = boundaries(slots);
    if b.len() > 0 {
        lemma_conflicts_upto_named(slots, b, max, b.len() - 1);
    } else {
        assert(spec_conflicts(slots, max) =~= Seq::<ConflictV>::empty());
    }
}

} // verus!
