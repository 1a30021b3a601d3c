use flowlens::day_parts::aggregate_day_parts;
use flowlens::day_totals::flow_minutes_for_date;
use flowlens::flow::{bucket_accumulators, flow_state, FlowBucketAccumulator, FlowMinute};
use flowlens::metrics::{aggregate_daily_flow_metrics, daily_sessions_for_date};
use flowlens::quality::{assess_report_data_quality, QualityLevel};
use flowlens::records::{ReentryEpisode, WorkSession};
use flowlens::reentry::{aggregate_reentry_metrics, reentry_outcome, refresh_reentry_episodes};
use flowlens::state::TrackingState;

fn minute(at: &str, focus: u16, idle: u16, switches: u16, keys: u32) -> FlowMinute {
    FlowMinute {
        start_at: at.into(),
        observed_seconds: focus + idle,
        focus_seconds: focus,
        idle_seconds: idle,
        switch_count: switches,
        keyboard_actions: keys,
        mouse_actions: 0,
        mouse_distance_px_bits: 0,
    }
}

fn session(start: &str, end: &str, active: u64) -> WorkSession {
    WorkSession { started_at: start.into(), ended_at: Some(end.into()), active_seconds: active, idle_seconds: 0, switch_count: 0, app_count: 1, end_reason: Some("idle".into()) }
}

fn acc(observed: u32, focus: u32, idle: u32, switches: u32) -> FlowBucketAccumulator {
    FlowBucketAccumulator { observed_seconds: observed, focus_seconds: focus, idle_seconds: idle, switch_count: switches, input_actions: 0 }
}

#[test]
fn bucket_states_follow_the_thresholds() {
    assert_eq!(flow_state(&acc(29, 29, 0, 0)).name(), "unobserved");
    assert_eq!(flow_state(&acc(100, 40, 60, 0)).name(), "idle");
    assert_eq!(flow_state(&acc(300, 300, 0, 4)).name(), "switching");
    assert_eq!(flow_state(&acc(50, 50, 0, 1)).name(), "switching");
    assert_eq!(flow_state(&acc(300, 225, 0, 2)).name(), "focused");
    assert_eq!(flow_state(&acc(300, 224, 0, 2)).name(), "mixed");
}

#[test]
fn buckets_total_the_minutes_of_the_day() {
    let minutes = vec![
        minute("2026-09-17T00:03:00+09:00", 30, 30, 1, 5),
        minute("2026-09-17T00:04:00+09:00", 60, 0, 2, 5),
        minute("2026-09-16T00:04:00+09:00", 60, 0, 9, 9),
    ];
    let buckets = bucket_accumulators(&minutes, "2026-09-17", 5);
    assert_eq!(buckets.len(), 288);
    assert_eq!(buckets[0].observed_seconds, 120);
    assert_eq!(buckets[0].idle_seconds, 30);
    assert_eq!(buckets[0].switch_count, 3);
    assert_eq!(buckets[0].input_actions, 10);
    assert_eq!(buckets[1].observed_seconds, 0);
}

#[test]
fn day_minutes_are_ordered_by_minute_of_day() {
    let minutes = vec![
        minute("2026-09-17T10:00:00+09:00", 1, 0, 0, 0),
        minute("2026-09-17Tbroken", 2, 0, 0, 0),
        minute("2026-09-16T08:00:00+09:00", 3, 0, 0, 0),
        minute("2026-09-17T09:00:00+09:00", 4, 0, 0, 0),
    ];
    let ordered: Vec<u16> = flow_minutes_for_date(&minutes, "2026-09-17").iter().map(|m| m.focus_seconds).collect();
    assert_eq!(ordered, vec![4, 1, 2]);
}

#[test]
fn day_sessions_include_the_running_one_in_start_order() {
    let mut state = TrackingState::initial();
    state.sessions.push(session("2026-09-17T11:00:00+09:00", "2026-09-17T11:30:00+09:00", 1_800));
    state.sessions.push(session("2026-09-17T09:00:00+09:00", "2026-09-17T09:30:00+09:00", 1_800));
    state.sessions.push(session("2026-09-16T09:00:00+09:00", "2026-09-16T09:30:00+09:00", 1_800));
    state.current_session_started_at = Some("2026-09-17T10:00:00+09:00".into());
    state.current_session_active_seconds = 60;
    let starts: Vec<String> = daily_sessions_for_date(&state, "2026-09-17").into_iter().map(|s| s.started_at).collect();
    assert_eq!(starts, vec!["2026-09-17T09:00:00+09:00", "2026-09-17T10:00:00+09:00", "2026-09-17T11:00:00+09:00"]);
}

#[test]
fn daily_flow_counts_are_exact() {
    let mut state = TrackingState::initial();
    state.flow_minutes = vec![
        minute("2026-09-17T09:00:00+09:00", 60, 0, 2, 0),
        minute("2026-09-17T09:09:00+09:00", 30, 30, 1, 0),
        minute("2026-09-17T10:00:00+09:00", 0, 0, 5, 0),
    ];
    state.sessions.push(session("2026-09-17T08:00:00+09:00", "2026-09-17T09:40:00+09:00", 6_000));
    state.sessions.push(session("2026-09-17T09:50:00+09:00", "2026-09-17T10:00:00+09:00", 300));
    state.sessions.push(session("2026-09-17T10:30:00+09:00", "2026-09-17T11:00:00+09:00", 1_600));
    let c = aggregate_daily_flow_metrics(&state, "2026-09-17");
    assert_eq!((c.focus_seconds, c.idle_seconds, c.switch_total, c.switch_count), (90, 30, 8, 8));
    assert_eq!(c.work_span_minutes, 10);
    assert_eq!(c.session_count, 3);
    assert_eq!(c.median_session_seconds, 1_600);
    assert_eq!(c.longest_session_seconds, 6_000);
    assert_eq!(c.session_seconds, 7_900);
    assert_eq!(c.long_form_seconds, 7_600);
    assert_eq!(c.short_session_count, 1);
    assert_eq!(c.extended_session_count, 1);
    assert_eq!(c.short_break_after_extended_count, 1);
}

#[test]
fn data_quality_levels_and_limitations() {
    let mut state = TrackingState::initial();
    let q = assess_report_data_quality(&state, "2026-09-17");
    assert_eq!(q.level, QualityLevel::Insufficient);
    assert_eq!(q.limitations.len(), 2);
    for m in 0..130u32 {
        state.flow_minutes.push(minute(&format!("2026-09-17T{:02}:{:02}:00+09:00", 9 + m / 60, m % 60), 60, 0, 0, 0));
    }
    let q = assess_report_data_quality(&state, "2026-09-17");
    assert_eq!(q.observed_minutes, 130);
    assert_eq!(q.observed_span_seconds, 130 * 60);
    assert_eq!(q.level, QualityLevel::Partial);
    assert_eq!(q.limitations, vec!["완료된 세션이 2개 미만이어서 세션 구조 비교를 제한합니다.".to_string()]);
    state.sessions.push(session("2026-09-17T09:00:00+09:00", "2026-09-17T10:00:00+09:00", 3_600));
    state.sessions.push(session("2026-09-17T10:00:00+09:00", "2026-09-17T11:00:00+09:00", 3_600));
    let q = assess_report_data_quality(&state, "2026-09-17");
    assert_eq!(q.level, QualityLevel::Sufficient);
    assert!(q.limitations.is_empty());
    assert_eq!(q.session_count, 2);
}

#[test]
fn day_parts_split_the_day_by_hour() {
    let mut state = TrackingState::initial();
    state.flow_minutes = vec![
        minute("2026-09-17T05:00:00+09:00", 60, 0, 0, 3),
        minute("2026-09-17T13:59:00+09:00", 40, 20, 2, 0),
        minute("2026-09-17T23:00:00+09:00", 10, 0, 0, 0),
    ];
    let parts = aggregate_day_parts(&state, "2026-09-17");
    assert_eq!(parts.len(), 4);
    assert_eq!(parts[0].part.name(), "morning");
    assert_eq!((parts[0].focus_seconds, parts[0].switch_count, parts[0].input_actions), (60, 0, 3));
    assert_eq!(parts[0].observed_buckets, 1);
    assert_eq!(parts[0].focused_buckets, 1);
    assert_eq!((parts[1].observed_seconds, parts[1].idle_seconds), (60, 20));
    assert_eq!(parts[2].observed_seconds, 0);
    assert_eq!(parts[3].focus_seconds, 10);
    assert_eq!(parts[3].observed_buckets, 0);
}

fn episode(resumed_at: &str, break_seconds: u64, stabilization: Option<u64>, switches: u16, finalized: bool) -> ReentryEpisode {
    ReentryEpisode {
        id: format!("x-{resumed_at}"),
        break_started_at: "b".into(),
        resumed_at: resumed_at.into(),
        break_seconds,
        stabilization_seconds: stabilization,
        focused_seconds_first_10m: 0,
        switch_count_first_10m: switches,
        finalized,
    }
}

#[test]
fn reentry_stabilizes_after_five_focused_minutes() {
    let mut minutes = Vec::new();
    for m in 0..10u32 {
        let switches = if m == 1 { 2 } else { 0 };
        minutes.push(minute(&format!("2026-09-17T09:{:02}:00+09:00", m), 60, 0, switches, 0));
    }
    let resumed = "2026-09-17T09:00:00+09:00";
    let start = chrono::DateTime::parse_from_rfc3339(resumed).unwrap().timestamp();
    let o = reentry_outcome(&minutes, resumed, start + 600).unwrap();
    assert_eq!(o.stabilization_seconds, Some(420));
    assert_eq!(o.focused_seconds, 600);
    assert_eq!(o.switch_count, 2);
    assert!(o.finalized);
    assert!(!reentry_outcome(&minutes, resumed, start + 599).unwrap().finalized);
    assert!(reentry_outcome(&minutes, "garbage", start).is_none());
    let mut state = TrackingState::initial();
    state.flow_minutes = minutes;
    state.reentry_episodes.push(episode(resumed, 300, None, 0, false));
    refresh_reentry_episodes(&mut state, start + 600);
    assert_eq!(state.reentry_episodes[0].stabilization_seconds, Some(420));
    assert!(state.reentry_episodes[0].finalized);
}

#[test]
fn reentry_totals_cover_the_day_s_finalized_episodes() {
    let mut state = TrackingState::initial();
    state.reentry_episodes.push(episode("2026-09-17T09:00:00+09:00", 200, Some(300), 2, true));
    state.reentry_episodes.push(episode("2026-09-17T10:00:00+09:00", 400, None, 1, true));
    state.reentry_episodes.push(episode("2026-09-17T11:00:00+09:00", 900, Some(120), 5, false));
    state.reentry_episodes.push(episode("2026-09-16T11:00:00+09:00", 900, Some(120), 5, true));
    let c = aggregate_reentry_metrics(&state, "2026-09-17");
    assert_eq!((c.analyzable_episode_count, c.episode_count), (2, 2));
    assert_eq!(c.median_break_seconds, Some(300));
    assert_eq!(c.median_stabilization_seconds, Some(300));
    assert_eq!(c.missing_stabilization_count, 1);
    assert_eq!(c.post_resume_switch_total, 3);
    let none = aggregate_reentry_metrics(&state, "2026-09-15");
    assert_eq!(none.analyzable_episode_count, 0);
    assert_eq!(none.median_break_seconds, None);
}
