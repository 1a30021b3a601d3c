use chrono::Datelike;
use flowlens::flow::FlowMinute;
use flowlens::focus_view::build_focus_experience_view;
use flowlens::records::WorkSession;
use flowlens::requests::{get_focus_experience_view, FocusViewError};
use flowlens::state::TrackingState;

fn minute(at: &str, focus_seconds: u16, idle_seconds: u16, switch_count: u16, inputs: u32) -> FlowMinute {
    FlowMinute {
        start_at: at.into(),
        observed_seconds: focus_seconds.saturating_add(idle_seconds),
        focus_seconds,
        idle_seconds,
        switch_count,
        keyboard_actions: inputs,
        mouse_actions: 0,
        mouse_distance_px_bits: 0,
    }
}

fn today_days() -> i32 {
    chrono::Local::now().date_naive().num_days_from_ce()
}

#[test]
fn builds_five_minute_focus_and_switching_buckets() {
    let mut state = TrackingState::initial();
    state.collection_day = "2026-09-17".into();
    state.flow_minutes = vec![
        minute("2026-09-17T09:00:00+09:00", 60, 0, 0, 12),
        minute("2026-09-17T09:01:00+09:00", 60, 0, 1, 12),
        minute("2026-09-17T09:02:00+09:00", 60, 0, 0, 12),
        minute("2026-09-17T09:03:00+09:00", 60, 0, 1, 12),
        minute("2026-09-17T09:04:00+09:00", 60, 0, 0, 12),
        minute("2026-09-17T10:00:00+09:00", 60, 0, 4, 8),
        minute("2026-09-17T11:00:00+09:00", 10, 50, 0, 0),
    ];
    let view = build_focus_experience_view(&state, "2026-09-17", 5, today_days(), "+09:00", "2026-09-17T12:00:00+09:00".into()).unwrap();
    let focused = &view.ribbon.buckets[108];
    let switching = &view.ribbon.buckets[120];
    assert_eq!(focused.state.name(), "focused");
    assert_eq!(focused.focus_seconds, 300);
    assert_eq!(focused.switch_count, 2);
    assert_eq!(switching.state.name(), "switching");
    assert_eq!(view.ribbon.buckets[132].state.name(), "idle");
    assert_eq!(view.ribbon.buckets[0].state.name(), "unobserved");
    assert_eq!(view.ribbon.summary.longest_focused_span_seconds, 300);
}

#[test]
fn includes_completed_and_live_session_cards_in_reverse_time_order() {
    let mut state = TrackingState::initial();
    state.collection_day = "2026-09-17".into();
    state.sessions.push(WorkSession {
        started_at: "2026-09-17T09:00:00+09:00".into(),
        ended_at: Some("2026-09-17T09:30:00+09:00".into()),
        active_seconds: 1_800,
        idle_seconds: 0,
        switch_count: 2,
        app_count: 2,
        end_reason: Some("idle".into()),
    });
    state.current_session_started_at = Some("2026-09-17T10:00:00+09:00".into());
    state.current_session_active_seconds = 900;
    state.current_session_switches = 1;
    state.current_session_apps = vec!["editor.exe".into()];
    let view = build_focus_experience_view(&state, "2026-09-17", 5, today_days(), "+09:00", "2026-09-17T12:00:00+09:00".into()).unwrap();
    assert_eq!(view.sessions.sessions.len(), 2);
    assert!(view.sessions.sessions[0].is_live);
    assert_eq!(view.sessions.sessions[0].status.name(), "steady");
    assert_eq!(view.sessions.summary.completed_count, 1);
}

#[test]
fn ribbon_bucket_bounds_and_day_edges_are_exact() {
    let mut state = TrackingState::initial();
    state.collection_day = "2026-09-17".into();
    state.flow_minutes = vec![minute("2026-09-17T23:59:00+09:00", 60, 0, 0, 1)];
    let view = build_focus_experience_view(&state, "2026-09-17", 5, today_days(), "+09:00", "x".into()).unwrap();
    assert_eq!(view.ribbon.buckets.len(), 288);
    assert_eq!(view.ribbon.day_start_at, "2026-09-17T00:00:00+09:00");
    assert_eq!(view.ribbon.day_end_at, "2026-09-18T00:00:00+09:00");
    assert_eq!(view.ribbon.buckets[287].start_at, "2026-09-17T23:55:00+09:00");
    assert_eq!(view.ribbon.buckets[287].end_at, "2026-09-18T00:00:00+09:00");
    assert_eq!(view.ribbon.buckets[287].observed_seconds, 60);
    assert_eq!(view.ribbon.summary.focus_seconds, 60);
}

#[test]
fn focus_view_requests_are_checked_before_building() {
    let mut state = TrackingState::initial();
    let err = get_focus_experience_view(&state, "", 10, today_days(), "+09:00", "x".into()).err().unwrap();
    assert_eq!(err, FocusViewError::UnsupportedBucket);
    assert_eq!(err.text(), "only 5-minute focus buckets are supported");
    let err = get_focus_experience_view(&state, "", 5, today_days(), "+09:00", "x".into()).err().unwrap();
    assert_eq!(err.text(), "collection day unavailable");
    state.collection_day = "2026-09-17".into();
    let err = get_focus_experience_view(&state, "2026-09-16", 5, today_days(), "+09:00", "x".into()).err().unwrap();
    assert_eq!(err, FocusViewError::NotCurrentDay);
    let view = get_focus_experience_view(&state, "", 5, today_days(), "+09:00", "x".into()).unwrap();
    assert_eq!(view.date, "2026-09-17");
    assert!(!view.is_live);
}

#[test]
fn a_day_beyond_the_calendar_is_refused() {
    let last_day = chrono::NaiveDate::MAX.num_days_from_ce();
    let mut state = TrackingState::initial();
    state.collection_day = "not-a-date".into();
    let err = get_focus_experience_view(&state, "", 5, last_day, "+09:00", "x".into()).err().unwrap();
    assert_eq!(err, FocusViewError::DateOutOfRange);
    assert!(build_focus_experience_view(&state, "not-a-date", 5, last_day - 1, "+09:00", "x".into()).is_some());
}

#[test]
fn the_summary_names_the_first_switch_peak_and_the_longest_focused_run() {
    let mut state = TrackingState::initial();
    state.collection_day = "2026-09-17".into();
    let mut minutes = Vec::new();
    for m in 0..10 {
        minutes.push(minute(&format!("2026-09-17T09:{:02}:00+09:00", m), 60, 0, 0, 5));
    }
    minutes.push(minute("2026-09-17T10:00:00+09:00", 60, 0, 4, 8));
    minutes.push(minute("2026-09-17T10:30:00+09:00", 60, 0, 4, 8));
    minutes.push(minute("2026-09-17T11:00:00+09:00", 10, 50, 0, 0));
    state.flow_minutes = minutes;
    let view = build_focus_experience_view(&state, "2026-09-17", 5, today_days(), "+09:00", "2026-09-17T12:00:00+09:00".into()).unwrap();
    let summary = &view.ribbon.summary;
    assert_eq!(summary.focus_seconds, 600 + 60 + 60 + 10);
    assert_eq!(summary.idle_seconds, 50);
    assert_eq!(summary.highest_switch_count, 4);
    assert_eq!(summary.highest_switch_bucket_start_at.as_deref(), Some("2026-09-17T10:00:00+09:00"));
    assert_eq!(summary.longest_focused_span_seconds, 600);
}
