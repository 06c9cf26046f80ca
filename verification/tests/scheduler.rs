use aurora_core::dvr::RecordingState;
use aurora_core::scheduler::{
    admission_for, concurrency_limit, is_ending, is_missed, missed_reason, settle, Admission,
    TickReport,
};

#[test]
fn an_empty_tick_reports_nothing() {
    let mut report = TickReport::default();
    assert!(report.is_empty());
    report.stalled.push(3);
    assert!(!report.is_empty());
}

#[test]
fn a_full_house_skips_rather_than_queues() {
    assert_eq!(admission_for(true, 0, 2), Admission::AlreadyRunning);
    assert_eq!(admission_for(false, 1, 2), Admission::Start);
    assert_eq!(
        admission_for(false, 2, 2),
        Admission::Skip("too many recordings at once for this subscription".to_string())
    );
}

#[test]
fn at_least_one_recording_can_always_run() {
    assert_eq!(concurrency_limit(0), 1);
    assert_eq!(concurrency_limit(3), 3);
}

#[test]
fn a_recording_ends_when_its_window_closes_or_its_stream_stops() {
    assert!(is_ending(100, 100, false));
    assert!(is_ending(200, 100, true));
    assert!(!is_ending(200, 100, false));
    assert!(is_missed(100, 100));
    assert!(!is_missed(101, 100));
    assert_eq!(missed_reason(), "Aurora was not running when this was due");
}

#[test]
fn a_cut_short_recording_still_completes() {
    assert_eq!(
        settle(true, Some("stream dropped".into())),
        (RecordingState::Completed, Some("stream dropped".to_string()))
    );
    assert_eq!(settle(true, None), (RecordingState::Completed, None));
    assert_eq!(
        settle(false, None),
        (RecordingState::Failed, Some("the provider sent nothing".to_string()))
    );
    assert_eq!(
        settle(false, Some("401".into())),
        (RecordingState::Failed, Some("401".to_string()))
    );
}
