use flowlens::archive::StoredReport;
use flowlens::clock::minute_of_text;
use flowlens::day::{app_time_weights, reset_daily_activity, session_totals};
use flowlens::day_parts::{day_part, day_part_index};
use flowlens::flow::{flow_minute_slot, FlowMinute};
use flowlens::focus_view::{bucket_calendar, day_cards_fit, flow_bucket_timestamp};
use flowlens::quality::QualityLevel;
use flowlens::records::{AppActivity, WorkSession};
use flowlens::requests::{daily_report_request, insight, report_headline, ReportAnswer, ReportRequestError};
use flowlens::sessions::session_status;
use flowlens::settings::{
    allowed_work_mode_tag, clear_daily_report_history, current_daily_context, history_positions, set_daily_work_mode_tag,
    clear_all_data, end_session_for_exit, set_flow_reflection, set_flow_reflection_enabled, set_tracking, SettingsError,
};
use flowlens::state::TrackingState;
use flowlens::system::{executable_file_name, mounted_disk_usage, network_totals, storage_path, DriveProbe};
use flowlens::text::report_date_matches;
use flowlens::tracker::wheel_notches;

#[test]
fn reads_minutes_of_day_from_timestamps() {
    assert_eq!(minute_of_text("2026-09-17T09:05:00+09:00"), Some(545));
    assert_eq!(minute_of_text("2026-09-17T23:59:59-05:00"), Some(1439));
    assert_eq!(minute_of_text("not a time"), None);
    let m = FlowMinute {
        start_at: "2026-09-17T09:05:00+09:00".into(),
        observed_seconds: 0,
        focus_seconds: 0,
        idle_seconds: 0,
        switch_count: 0,
        keyboard_actions: 0,
        mouse_actions: 0,
        mouse_distance_px_bits: 0,
    };
    assert_eq!(flow_minute_slot(&m, "2026-09-17", 5), Some(109));
    assert_eq!(flow_minute_slot(&m, "2026-09-16", 5), None);
}

#[test]
fn writes_bucket_timestamps_on_the_day_and_the_next() {
    let cal = bucket_calendar("2026-12-31", 0, "+09:00").unwrap();
    assert_eq!(flow_bucket_timestamp(&cal, 545), "2026-12-31T09:05:00+09:00");
    assert_eq!(flow_bucket_timestamp(&cal, 1440), "2027-01-01T00:00:00+09:00");
    let fallback = bucket_calendar("garbage", 738_000, "Z").unwrap();
    assert_eq!(fallback.day, chrono::NaiveDate::from_num_days_from_ce_opt(738_000).unwrap().to_string());
}

#[test]
fn session_status_follows_length_and_switch_rate() {
    assert_eq!(session_status(599, 0).name(), "brief");
    assert_eq!(session_status(1_500, 2).name(), "focused");
    assert_eq!(session_status(1_500, 3).name(), "steady");
    assert_eq!(session_status(900, 2).name(), "steady");
    assert_eq!(session_status(900, 3).name(), "fragmented");
    assert_eq!(session_status(1_500, 10).name(), "fragmented");
}

#[test]
fn day_parts_cover_the_hours() {
    assert_eq!(day_part(4).name(), "evening");
    assert_eq!(day_part(5).name(), "morning");
    assert_eq!(day_part(10).name(), "morning");
    assert_eq!(day_part(11).name(), "midday");
    assert_eq!(day_part(14).name(), "afternoon");
    assert_eq!(day_part(17).name(), "afternoon");
    assert_eq!(day_part(18).name(), "evening");
    assert_eq!(day_part_index("morning"), 0);
    assert_eq!(day_part_index("midday"), 1);
    assert_eq!(day_part_index("afternoon"), 2);
    assert_eq!(day_part_index("evening"), 3);
    assert_eq!(day_part_index("other"), 3);
}

#[test]
fn work_mode_tags_and_reflections_are_checked() {
    assert!(allowed_work_mode_tag("운영 대응"));
    assert!(!allowed_work_mode_tag("운영"));
    let mut state = TrackingState::initial();
    assert_eq!(set_daily_work_mode_tag(&mut state, Some("x".into())).err(), Some(SettingsError::UnsupportedWorkModeTag));
    assert_eq!(set_daily_work_mode_tag(&mut state, Some("검토".into())).unwrap().work_mode_tag.as_deref(), Some("검토"));
    assert_eq!(set_flow_reflection(&mut state, Some(6)).err(), Some(SettingsError::ReflectionOutOfRange));
    assert_eq!(set_flow_reflection(&mut state, Some(3)).err(), Some(SettingsError::ReflectionDisabled));
    assert_eq!(SettingsError::ReflectionDisabled.text(), "flow reflection is disabled in local report settings");
    set_flow_reflection_enabled(&mut state, true);
    assert_eq!(set_flow_reflection(&mut state, Some(3)).unwrap().flow_satisfaction, Some(3));
    set_flow_reflection_enabled(&mut state, false);
    assert_eq!(state.report_settings.flow_satisfaction, None);
    state.report_settings.flow_satisfaction = Some(4);
    assert_eq!(current_daily_context(&state).flow_satisfaction, None);
}

#[test]
fn pausing_closes_the_running_session() {
    let mut state = TrackingState::initial();
    state.current_session_started_at = Some("2026-01-01T09:00:00+09:00".into());
    state.active_window = "editor.exe".into();
    set_tracking(&mut state, false, "2026-01-01T09:30:00+09:00".into());
    assert!(!state.enabled);
    assert!(state.current_session_started_at.is_none());
    assert_eq!(state.sessions.len(), 1);
    assert_eq!(state.sessions[0].end_reason.as_deref(), Some("tracking_paused"));
    assert_eq!(state.timeline.last().unwrap().kind, "session_end_paused");
}

#[test]
fn clearing_report_history_empties_the_archive() {
    let mut state = TrackingState::initial();
    state.report_settings.work_mode_tag = Some("구현".into());
    let mut reports = vec![StoredReport { date: "2026-01-01".to_string(), status: "finalized".to_string(), quality_level: "partial".to_string(), work_mode_tag: None, body: () }];
    clear_daily_report_history(&mut state, &mut reports);
    assert!(reports.is_empty());
    assert!(state.report_settings.work_mode_tag.is_none());
}

#[test]
fn history_lists_the_latest_reports_first() {
    assert_eq!(history_positions(5, 0), vec![4, 3, 2, 1, 0]);
    assert_eq!(history_positions(40, 0).len(), 30);
    assert_eq!(history_positions(500, 400).len(), 365);
    assert_eq!(history_positions(10, 2), vec![9, 8]);
}

fn stored(date: &str, status: &str) -> StoredReport<()> {
    StoredReport { date: date.into(), status: status.into(), quality_level: "partial".into(), work_mode_tag: None, body: () }
}

#[test]
fn daily_report_requests_are_answered_or_refused() {
    let mut state = TrackingState::initial();
    state.collection_day = "2026-03-02".into();
    let reports = vec![stored("2026-03-01", "draft"), stored("2026-02-28", "finalized")];
    assert_eq!(daily_report_request(&state, &reports, "", true), Err(ReportRequestError::ReportsDisabled));
    state.report_settings.enabled = true;
    assert_eq!(daily_report_request(&state, &reports, "", false), Err(ReportRequestError::DraftNotRequested));
    assert_eq!(daily_report_request(&state, &reports, "2026-03-02", true), Ok(ReportAnswer::Draft("2026-03-02".into())));
    assert_eq!(daily_report_request(&state, &reports, "2026-03-01", false), Err(ReportRequestError::NotArchived));
    assert_eq!(daily_report_request(&state, &reports, "2026-03-01", true), Ok(ReportAnswer::Archived(0)));
    assert_eq!(daily_report_request(&state, &reports, "2026-02-28", false), Ok(ReportAnswer::Archived(1)));
    assert_eq!(ReportRequestError::NotArchived.text(), "daily report not found in the local archive");
}

#[test]
fn headlines_follow_quality_and_signals() {
    assert_eq!(report_headline(QualityLevel::Insufficient, true, 3), "오늘의 기록을 더 모으면 흐름 요약을 만들 수 있습니다.");
    assert_eq!(report_headline(QualityLevel::Sufficient, false, 3), "오늘의 작업 흐름을 기록했습니다. 개인 기준선은 더 쌓인 뒤 비교합니다.");
    assert_eq!(report_headline(QualityLevel::Partial, true, 0), "오늘의 흐름은 현재 개인 기준선 범위에서 기록되었습니다.");
    assert!(report_headline(QualityLevel::Sufficient, true, 1).contains("변화 신호가 1개"));
    assert!(report_headline(QualityLevel::Sufficient, true, 2).contains("여러 변화 신호"));
    let i = insight("positive", "제목", "내용".into());
    assert_eq!((i.level.as_str(), i.title.as_str(), i.detail.as_str()), ("positive", "제목", "내용"));
}

#[test]
fn system_readings_are_totalled_and_named() {
    assert_eq!(network_totals(&vec![(10, 1), (5, 2)]), (15, 3));
    assert_eq!(network_totals(&vec![(u64::MAX, 1), (5, 2)]), (u64::MAX, 3));
    let probes = vec![
        DriveProbe { drive: "C:\\".into(), space: Some((100, 40)) },
        DriveProbe { drive: "D:\\".into(), space: Some((0, 0)) },
        DriveProbe { drive: "E:\\".into(), space: None },
        DriveProbe { drive: "F:\\".into(), space: Some((10, 20)) },
    ];
    let snaps = mounted_disk_usage("2026-01-01T09:30:00+09:00", &probes);
    assert_eq!(snaps.len(), 2);
    assert_eq!((snaps[0].drive.as_str(), snaps[0].used_bytes, snaps[0].free_bytes), ("C:\\", 60, 40));
    assert_eq!(snaps[1].used_bytes, 0);
    assert_eq!(executable_file_name("C:\\Program Files\\App\\app.exe").as_deref(), Some("app.exe"));
    assert_eq!(executable_file_name("/usr/bin/tool").as_deref(), Some("tool"));
    assert_eq!(executable_file_name("plain.exe").as_deref(), Some("plain.exe"));
    assert_eq!(executable_file_name("C:\\dir\\"), None);
    assert_eq!(executable_file_name(""), None);
    let path = "C:\\Users\\me\\activity.json".to_string();
    assert_eq!(storage_path(Some(&path)), Ok(path.clone()));
    assert_eq!(storage_path(None), Err("storage path unavailable".to_string()));
    assert!(report_date_matches("2026-09-17T09:00:00+09:00", "2026-09-17"));
    assert!(!report_date_matches("2026-09-1", "2026-09-17"));
}

#[test]
fn wheel_deltas_count_in_notches_of_120() {
    assert_eq!(wheel_notches(120u32 << 16), 1);
    assert_eq!(wheel_notches(0xFF88u32 << 16), 1);
    assert_eq!(wheel_notches(240u32 << 16), 2);
    assert_eq!(wheel_notches(1u32 << 16), 1);
    assert_eq!(wheel_notches(0xFFFF), 0);
}

#[test]
fn day_totals_and_application_weights() {
    let mut state = TrackingState::initial();
    state.sessions.push(WorkSession { started_at: "a".into(), ended_at: None, active_seconds: 100, idle_seconds: 0, switch_count: 0, app_count: 1, end_reason: None });
    state.sessions.push(WorkSession { started_at: "b".into(), ended_at: None, active_seconds: 50, idle_seconds: 0, switch_count: 0, app_count: 1, end_reason: None });
    state.current_session_started_at = Some("c".into());
    state.current_session_active_seconds = 7;
    let t = session_totals(&state);
    assert_eq!((t.session_count, t.session_seconds), (3, 157));
    let app = |ms: u64, s: u64| AppActivity { app: "x".into(), title: "t".into(), seconds: s, active_millis: ms, activations: 0 };
    let apps = vec![app(500, 2), app(9_000, 1), app(2_000, 0), app(0, 2)];
    let w = app_time_weights(&apps);
    assert_eq!(w.heaviest, vec![9_000, 2_000, 2_000, 2_000]);
    assert_eq!(w.total, 15_000);
    let many: Vec<AppActivity> = (0..20u64).map(|i| app(i, 0)).collect();
    let w = app_time_weights(&many);
    assert_eq!(w.heaviest.len(), 12);
    assert_eq!(w.heaviest[0], 19);
    assert_eq!(w.heaviest[11], 8);
    assert_eq!(app_time_weights(&vec![]).total, 1);
    reset_daily_activity(&mut state);
    assert!(state.sessions.is_empty());
    assert!(state.current_session_started_at.is_none());
}

fn earlier(started_at: &str) -> WorkSession {
    WorkSession {
        started_at: started_at.into(),
        ended_at: Some(started_at.into()),
        active_seconds: 300,
        idle_seconds: 0,
        switch_count: 2,
        app_count: 1,
        end_reason: Some("idle".into()),
    }
}

#[test]
fn pausing_keeps_the_earlier_sessions() {
    let mut state = TrackingState::initial();
    state.sessions.push(earlier("2026-01-01T07:00:00+09:00"));
    state.sessions.push(earlier("2026-01-01T08:00:00+09:00"));
    state.current_session_started_at = Some("2026-01-01T09:00:00+09:00".into());
    state.current_session_active_seconds = 120;
    set_tracking(&mut state, false, "2026-01-01T09:30:00+09:00".into());
    assert_eq!(state.sessions.len(), 3);
    assert_eq!(state.sessions[0].started_at, "2026-01-01T07:00:00+09:00");
    assert_eq!(state.sessions[1].started_at, "2026-01-01T08:00:00+09:00");
    assert_eq!(state.sessions[2].active_seconds, 120);
    assert_eq!(state.sessions[2].ended_at.as_deref(), Some("2026-01-01T09:30:00+09:00"));
    assert_eq!(state.timeline.len(), 1);
    assert!(state.pending_reentry.is_none());
    assert_eq!(state.current_session_active_seconds, 0);
}

#[test]
fn ending_for_exit_keeps_the_earlier_sessions() {
    let mut state = TrackingState::initial();
    state.sessions.push(earlier("2026-01-01T07:00:00+09:00"));
    state.current_session_started_at = Some("2026-01-01T09:00:00+09:00".into());
    state.current_session_active_seconds = 720;
    end_session_for_exit(&mut state, "2026-01-01T09:12:00+09:00".into());
    assert!(state.enabled);
    assert_eq!(state.sessions.len(), 2);
    assert_eq!(state.sessions[0].started_at, "2026-01-01T07:00:00+09:00");
    assert_eq!(state.sessions[1].end_reason.as_deref(), Some("app_exit"));
    assert_eq!(state.timeline.last().unwrap().kind, "session_end_app_exit");
}

#[test]
fn clearing_all_data_keeps_only_whether_tracking_is_on() {
    let mut state = TrackingState::initial();
    state.enabled = false;
    state.sessions.push(earlier("2026-01-01T07:00:00+09:00"));
    state.report_settings.enabled = true;
    state.focus_seconds = 99;
    state.collection_day = "2026-01-01".into();
    clear_all_data(&mut state);
    assert!(!state.enabled);
    assert!(state.sessions.is_empty());
    assert!(!state.report_settings.enabled);
    assert_eq!(state.focus_seconds, 0);
    assert!(state.collection_day.is_empty());
    assert_eq!(state.advanced.notification_access, "not_requested");
    assert_eq!(state.tracker_sample_interval_ms, 200);
}

#[test]
fn a_fresh_state_has_every_setting_off() {
    let state = TrackingState::initial();
    assert!(state.enabled);
    assert!(!state.embedding_enabled);
    assert!(!state.report_settings.enabled);
    assert!(!state.report_settings.reflection_enabled);
    assert!(!state.report_settings.reminder_enabled);
    assert!(state.report_settings.flow_satisfaction.is_none());
    assert!(state.report_settings.work_mode_tag.is_none());
    assert_eq!(state.mouse_clicks, 0);
    assert!(state.reentry_episodes.is_empty());
}

#[test]
fn day_cards_fit_until_their_seconds_overflow() {
    let mut state = TrackingState::initial();
    state.collection_day = "2026-01-01".into();
    let mut big = earlier("2026-01-01T07:00:00+09:00");
    big.active_seconds = u64::MAX;
    state.sessions.push(big);
    assert!(day_cards_fit(&state, "2026-01-01"));
    state.sessions.push(earlier("2026-01-02T08:00:00+09:00"));
    assert!(day_cards_fit(&state, "2026-01-01"));
    state.sessions.push(earlier("2026-01-01T08:00:00+09:00"));
    assert!(!day_cards_fit(&state, "2026-01-01"));
}
