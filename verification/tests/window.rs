use aurora_core::window::{cache_secs_for, catchup_url, CatchupChannel};

#[test]
fn live_buffers_shallower_than_vod() {
    assert!(cache_secs_for(true) < cache_secs_for(false));
    assert_eq!(cache_secs_for(true), 8);
    assert_eq!(cache_secs_for(false), 30);
}

fn channel(mode: Option<&str>, source: Option<&str>, days: u16) -> CatchupChannel {
    CatchupChannel {
        name: "BBC One".to_string(),
        stream_url: "http://h/live/s.ts".to_string(),
        mode: mode.map(str::to_string),
        source: source.map(str::to_string),
        days,
    }
}

#[test]
fn catch_up_is_refused_in_words_the_viewer_can_act_on() {
    let now = 1_000_000;
    assert_eq!(
        catchup_url(&channel(None, None, 7), now - 3600, now - 1800, now),
        Err("BBC One does not offer catch-up".to_string())
    );
    assert_eq!(
        catchup_url(&channel(Some("shift"), None, 7), now + 60, now + 3600, now),
        Err("BBC One has not aired yet".to_string())
    );
    assert_eq!(
        catchup_url(&channel(Some("shift"), None, 7), now - 8 * 86_400, now - 8 * 86_400 + 60, now),
        Err("That programme is outside BBC One's 7-day catch-up window".to_string())
    );
}

#[test]
fn catch_up_builds_the_request_the_mode_describes() {
    let now = 1_000_000;
    let start = now - 3600;
    assert_eq!(
        catchup_url(&channel(Some("default"), None, 7), start, now - 1800, now),
        Ok(format!("http://h/live/s.ts?utc={start}&lutc={now}"))
    );
    assert_eq!(
        catchup_url(&channel(Some("xc"), None, 7), start, now - 1800, now),
        Err("BBC One says it has catch-up but not how to request it".to_string())
    );
}
