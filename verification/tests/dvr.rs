use aurora_core::dvr::{
    expand_rules, find_conflicts, parse_state, resolve_conflicts, with_padding, RecordingState, SeriesRule,
    Slot,
};
use aurora_core::model::Programme;

fn slot(id: i64, start: i64, stop: i64, priority: i32) -> Slot {
    Slot {
        id,
        channel_id: id,
        start,
        stop,
        priority,
    }
}

#[test]
fn padding_extends_both_ends() {
    assert_eq!(with_padding(1000, 4600, 60, 300), (940, 4900));
}

#[test]
fn padding_never_goes_before_the_epoch() {
    let (start, _) = with_padding(30, 3600, 300, 0);
    assert_eq!(start, 0);
}

#[test]
fn padding_never_inverts_a_window() {
    let (start, stop) = with_padding(1000, 900, 0, 0);
    assert!(stop > start, "{start}..{stop}");
}

#[test]
fn zero_padding_is_a_no_op() {
    assert_eq!(with_padding(1000, 4600, 0, 0), (1000, 4600));
}

#[test]
fn overlap_is_half_open() {
    let a = slot(1, 0, 100, 0);
    assert!(!a.overlaps(&slot(2, 100, 200, 0)));
    assert!(a.overlaps(&slot(3, 99, 200, 0)));
}

#[test]
fn no_conflict_within_the_limit() {
    let slots = [slot(1, 0, 100, 0), slot(2, 50, 150, 0)];
    assert!(find_conflicts(&slots, 2).is_empty());
}

#[test]
fn reports_a_conflict_over_the_limit() {
    let slots = [slot(1, 0, 100, 0), slot(2, 50, 150, 0), slot(3, 60, 80, 0)];
    let conflicts = find_conflicts(&slots, 2);
    assert_eq!(conflicts.len(), 1);
    assert_eq!((conflicts[0].start, conflicts[0].stop), (60, 80));
    assert_eq!(conflicts[0].over_by, 1);
    assert_eq!(conflicts[0].slot_ids.len(), 3);
}

#[test]
fn a_long_clash_is_reported_as_one_window() {
    let slots = [slot(1, 0, 300, 0), slot(2, 0, 300, 0), slot(3, 0, 300, 0)];
    let conflicts = find_conflicts(&slots, 2);
    assert_eq!(conflicts.len(), 1);
    assert_eq!((conflicts[0].start, conflicts[0].stop), (0, 300));
}

#[test]
fn conflicts_rank_by_priority_then_time() {
    let slots = [slot(1, 0, 100, 0), slot(2, 0, 100, 5), slot(3, 0, 100, 0)];
    let conflicts = find_conflicts(&slots, 1);
    assert_eq!(conflicts[0].slot_ids[0], 2, "highest priority first");
    assert_eq!(
        conflicts[0].slot_ids.last(),
        Some(&3),
        "least important last"
    );
}

#[test]
fn a_zero_connection_limit_conflicts_with_everything() {
    let slots = [slot(1, 0, 100, 0)];
    let conflicts = find_conflicts(&slots, 0);
    assert_eq!(conflicts.len(), 1);
    assert_eq!(conflicts[0].over_by, 1);
    assert!(find_conflicts(&[], 0).is_empty());
}

#[test]
fn resolution_drops_the_least_important_until_it_fits() {
    let slots = [slot(1, 0, 100, 10), slot(2, 0, 100, 5), slot(3, 0, 100, 0)];
    let dropped = resolve_conflicts(&slots, 1);
    assert_eq!(dropped, vec![3, 2]);
}

#[test]
fn resolution_is_a_no_op_when_everything_fits() {
    let slots = [slot(1, 0, 100, 0), slot(2, 200, 300, 0)];
    assert!(resolve_conflicts(&slots, 1).is_empty());
}

#[test]
fn whatever_resolution_keeps_has_no_conflict_left() {
    let slots = [
        slot(1, 0, 100, 1),
        slot(2, 50, 150, 2),
        slot(3, 60, 90, 0),
        slot(4, 120, 200, 3),
        slot(5, 140, 160, 0),
    ];
    let dropped = resolve_conflicts(&slots, 1);
    let kept: Vec<Slot> = slots
        .iter()
        .copied()
        .filter(|s| !dropped.contains(&s.id))
        .collect();
    assert!(find_conflicts(&kept, 1).is_empty());
    assert!(dropped.iter().all(|id| slots.iter().any(|s| s.id == *id)));
}

#[test]
fn a_gap_between_two_clashes_keeps_them_apart() {
    let slots = [
        slot(1, 0, 100, 0),
        slot(2, 0, 100, 0),
        slot(3, 200, 300, 0),
        slot(4, 200, 300, 0),
    ];
    let conflicts = find_conflicts(&slots, 1);
    assert_eq!(conflicts.len(), 2);
    assert_eq!((conflicts[0].start, conflicts[0].stop), (0, 100));
    assert_eq!((conflicts[1].start, conflicts[1].stop), (200, 300));
    assert_eq!(conflicts[0].slot_ids, vec![1, 2]);
}

fn programme(title: &str, start: i64, is_new: bool) -> Programme {
    Programme {
        channel_id: "c".into(),
        start,
        stop: start + 3600,
        title: title.into(),
        sub_title: None,
        description: None,
        categories: vec![],
        season: None,
        episode: None,
        icon: None,
        rating: None,
        is_new,
        is_live: false,
        is_premiere: false,
        credits: vec![],
    }
}

#[test]
fn a_rule_matches_its_show_by_normalized_title() {
    let rule = SeriesRule::new(1, "Breaking Bad");
    assert!(rule.matches(&programme("BREAKING BAD", 0, false), 1, 0));
    assert!(rule.matches(&programme("Breaking  Bad", 0, false), 1, 0));
    assert!(!rule.matches(&programme("Breaking Good", 0, false), 1, 0));
}

#[test]
fn a_channel_restriction_is_honoured() {
    let mut rule = SeriesRule::new(1, "The News");
    rule.channel_id = Some(7);
    assert!(rule.matches(&programme("The News", 0, false), 7, 0));
    assert!(!rule.matches(&programme("The News", 0, false), 8, 0));
}

#[test]
fn new_only_skips_repeats() {
    let mut rule = SeriesRule::new(1, "The News");
    rule.new_only = true;
    assert!(rule.matches(&programme("The News", 0, true), 1, 0));
    assert!(!rule.matches(&programme("The News", 0, false), 1, 0));
}

#[test]
fn weekday_restrictions_use_local_time() {
    // 2024-01-15T12:00:00Z is a Monday.
    let monday_noon = 1_705_320_000;
    let mut rule = SeriesRule::new(1, "Show");
    rule.weekdays = Some(vec![0]); // Monday
    assert!(rule.matches(&programme("Show", monday_noon, false), 1, 0));

    rule.weekdays = Some(vec![1]); // Tuesday
    assert!(!rule.matches(&programme("Show", monday_noon, false), 1, 0));

    // Far enough east and that Monday noon is still Monday, but Monday 23:00 UTC
    // is Tuesday locally.
    let monday_late = monday_noon + 11 * 3600;
    rule.weekdays = Some(vec![1]);
    assert!(
        rule.matches(&programme("Show", monday_late, false), 1, 4 * 3600),
        "the local day is what a viewer means by 'Tuesday'"
    );
}

#[test]
fn time_of_day_restrictions_allow_slack() {
    let monday_noon = 1_705_320_000; // 12:00 UTC
    let mut rule = SeriesRule::new(1, "Show");
    rule.around_local_minute = Some(12 * 60);
    rule.time_slack_secs = 900;

    assert!(rule.matches(&programme("Show", monday_noon, false), 1, 0));
    // Ten minutes late is within slack.
    assert!(rule.matches(&programme("Show", monday_noon + 600, false), 1, 0));
    // An hour late is not.
    assert!(!rule.matches(&programme("Show", monday_noon + 3600, false), 1, 0));
}

#[test]
fn time_matching_wraps_around_midnight() {
    let mut rule = SeriesRule::new(1, "Show");
    rule.around_local_minute = Some(0); // midnight
    rule.time_slack_secs = 900;

    // Five minutes before midnight is five minutes from it, not 23h55m.
    let base = 1_705_276_800; // 2024-01-15T00:00:00Z
    assert!(rule.matches(&programme("Show", base + 23 * 3600 + 55 * 60, false), 1, 0));
    assert!(rule.matches(&programme("Show", base + 5 * 60, false), 1, 0));
    assert!(!rule.matches(&programme("Show", base + 12 * 3600, false), 1, 0));
}

#[test]
fn expanding_rules_records_each_programme_once() {
    let rules = [SeriesRule::new(1, "Show"), SeriesRule::new(2, "Show")];
    let programmes = vec![
        (programme("Show", 0, false), 1),
        (programme("Other", 0, false), 1),
    ];
    let out = expand_rules(&rules, &programmes, 0);
    assert_eq!(out.len(), 1, "two matching rules must not double-record");
    assert_eq!(out[0], (1, 0), "the first rule wins");
}

#[test]
fn a_rule_with_an_unrepresentable_offset_matches_nothing() {
    let rule = SeriesRule::new(1, "Show");
    assert!(!rule.matches(&programme("Show", 0, false), 1, 26 * 3600));
}

#[test]
fn expanding_rules_keeps_the_guide_order() {
    let rules = [SeriesRule::new(7, "Other"), SeriesRule::new(8, "Show")];
    let programmes = vec![
        (programme("Show", 0, false), 1),
        (programme("Nothing", 0, false), 1),
        (programme("Other", 0, false), 1),
    ];
    assert_eq!(expand_rules(&rules, &programmes, 0), vec![(8, 0), (7, 2)]);
}

#[test]
fn a_state_reads_back_from_its_name() {
    assert_eq!(parse_state("scheduled"), Some(RecordingState::Scheduled));
    assert_eq!(parse_state("recording"), Some(RecordingState::Recording));
    assert_eq!(parse_state("completed"), Some(RecordingState::Completed));
    assert_eq!(parse_state("failed"), Some(RecordingState::Failed));
    assert_eq!(parse_state("skipped"), Some(RecordingState::Skipped));
    assert_eq!(parse_state("Scheduled"), None);
    assert_eq!(parse_state(""), None);
}

#[test]
fn windows_are_exactly_where_too_much_is_on_the_air() {
    let slots = [slot(1, 0, 100, 0), slot(2, 50, 150, 0), slot(3, 200, 300, 0), slot(4, 250, 260, 0)];
    let cs = find_conflicts(&slots, 1);
    assert_eq!(cs.len(), 2);
    assert_eq!((cs[0].start, cs[0].stop), (50, 100));
    assert_eq!((cs[1].start, cs[1].stop), (250, 260));
    for t in -10..320 {
        let on_air = slots.iter().filter(|s| s.start <= t && t < s.stop).count();
        let in_window = cs.iter().any(|c| c.start <= t && t < c.stop);
        assert_eq!(in_window, on_air > 1, "at {t}");
    }
    assert!(cs[0].stop <= cs[1].start);
}

#[test]
fn resolution_drops_each_slot_once_and_only_when_needed() {
    let slots = [slot(1, 0, 100, 3), slot(2, 0, 100, 2), slot(3, 0, 100, 1), slot(4, 0, 100, 0)];
    let dropped = resolve_conflicts(&slots, 1);
    assert_eq!(dropped, vec![4, 3, 2]);
    let fits = [slot(1, 0, 100, 0), slot(2, 100, 200, 0)];
    assert!(find_conflicts(&fits, 1).is_empty());
    assert!(resolve_conflicts(&fits, 1).is_empty());
}

#[test]
fn each_window_names_exactly_the_slots_over_it() {
    let slots = [slot(1, 0, 100, 0), slot(2, 50, 150, 5), slot(3, 60, 70, 1)];
    let cs = find_conflicts(&slots, 1);
    for c in &cs {
        let mut over: Vec<&Slot> = slots.iter().filter(|s| s.start < c.stop && c.start < s.stop).collect();
        over.sort_by(|a, b| b.priority.cmp(&a.priority).then(a.start.cmp(&b.start)).then(a.id.cmp(&b.id)));
        let ids: Vec<i64> = over.iter().map(|s| s.id).collect();
        assert_eq!(c.slot_ids, ids);
        assert_eq!(c.over_by, c.slot_ids.len() - 1);
    }
    for w in cs.windows(2) {
        if w[0].stop == w[1].start {
            assert_ne!(w[0].slot_ids, w[1].slot_ids);
        }
    }
    assert_eq!(cs.len(), 3);
}
