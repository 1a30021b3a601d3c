use flowlens::activity::{close_current_session, flow_minute_for, MAX_SESSIONS};
use flowlens::archive::{upsert_daily_report, StoredReport};
use flowlens::day::{begin_day_rollover, finish_day_rollover, hourly_profile};
use flowlens::embeddings::{upsert_embedding, EmbeddingEntry, MAX_EMBEDDING_HISTORY};
use flowlens::reentry::begin_reentry_episode;
use flowlens::records::PendingReentry;
use flowlens::requests::{daily_report_request, ReportAnswer};
use flowlens::state::TrackingState;
use flowlens::stats::median_u64;

fn stored(date: &str, status: &str) -> StoredReport<u32> {
    StoredReport { date: date.into(), status: status.into(), quality_level: "partial".into(), work_mode_tag: None, body: 0 }
}

#[test]
fn completed_sessions_stay_within_their_bound() {
    let mut state = TrackingState::initial();
    for i in 0..(MAX_SESSIONS + 3) {
        state.current_session_started_at = Some(format!("2026-01-01T00:00:{:02}+09:00", i % 60));
        state.current_session_active_seconds = i as u64;
        close_current_session(&mut state, "2026-01-01T01:00:00+09:00".into(), "idle");
        assert!(state.sessions.len() <= MAX_SESSIONS);
    }
    assert_eq!(state.sessions.len(), MAX_SESSIONS);
    assert_eq!(state.sessions.last().unwrap().active_seconds, (MAX_SESSIONS + 2) as u64);
    assert_eq!(state.sessions[0].active_seconds, 3);
}

#[test]
fn closing_twice_records_one_session() {
    let mut state = TrackingState::initial();
    state.current_session_started_at = Some("2026-01-01T09:00:00+09:00".into());
    state.current_session_apps = vec!["a.exe".into(), "b.exe".into()];
    close_current_session(&mut state, "2026-01-01T10:00:00+09:00".into(), "idle");
    close_current_session(&mut state, "2026-01-01T11:00:00+09:00".into(), "idle");
    assert_eq!(state.sessions.len(), 1);
    assert_eq!(state.sessions[0].app_count, 2);
    assert!(state.current_session_apps.is_empty());
}

#[test]
fn looking_up_a_flow_minute_twice_finds_the_same_one() {
    let mut state = TrackingState::initial();
    let a = flow_minute_for(&mut state, "2026-01-01T09:00:00+09:00".into());
    let b = flow_minute_for(&mut state, "2026-01-01T09:01:00+09:00".into());
    let again = flow_minute_for(&mut state, "2026-01-01T09:00:00+09:00".into());
    assert_eq!(a, 0);
    assert_eq!(b, 1);
    assert_eq!(again, a);
    assert_eq!(state.flow_minutes.len(), 2);
}

#[test]
fn archive_is_ordered_by_date_with_one_report_replaced_per_date() {
    let mut reports: Vec<StoredReport<u32>> = Vec::new();
    upsert_daily_report(&mut reports, stored("2026-01-03", "finalized"));
    upsert_daily_report(&mut reports, stored("2026-01-01", "finalized"));
    upsert_daily_report(&mut reports, stored("2026-01-02", "draft"));
    let mut replacement = stored("2026-01-02", "finalized");
    replacement.body = 7;
    upsert_daily_report(&mut reports, replacement);
    let dates: Vec<&str> = reports.iter().map(|r| r.date.as_str()).collect();
    assert_eq!(dates, vec!["2026-01-01", "2026-01-02", "2026-01-03"]);
    assert_eq!(reports[1].status, "finalized");
    assert_eq!(reports[1].body, 7);
}

#[test]
fn a_full_archive_drops_its_first_finalized_report_before_drafts() {
    let mut reports: Vec<StoredReport<u32>> = Vec::new();
    let start = chrono::NaiveDate::from_ymd_opt(2025, 1, 1).unwrap();
    for offset in 0..365i64 {
        let status = if offset < 2 { "draft" } else { "finalized" };
        upsert_daily_report(&mut reports, stored(&(start + chrono::Duration::days(offset)).to_string(), status));
    }
    upsert_daily_report(&mut reports, stored("2026-06-01", "draft"));
    assert_eq!(reports.len(), 365);
    assert_eq!(reports[0].date, "2025-01-01");
    assert_eq!(reports[1].date, "2025-01-02");
    assert_eq!(reports[2].date, "2025-01-04");
    assert_eq!(reports.last().unwrap().date, "2026-06-01");
}

fn entry(date: &str, record: u8) -> EmbeddingEntry<u8> {
    EmbeddingEntry { date: date.into(), record }
}

#[test]
fn embedding_history_keeps_one_record_per_date_in_order_and_bounded() {
    let mut history = Vec::new();
    upsert_embedding(&mut history, entry("2026-01-02", 1));
    upsert_embedding(&mut history, entry("2026-01-01", 2));
    upsert_embedding(&mut history, entry("2026-01-02", 3));
    assert_eq!(history.len(), 2);
    assert_eq!(history[0].date, "2026-01-01");
    assert_eq!(history[1].record, 3);
    let start = chrono::NaiveDate::from_ymd_opt(2024, 1, 1).unwrap();
    for offset in 0..400i64 {
        upsert_embedding(&mut history, entry(&(start + chrono::Duration::days(offset)).to_string(), 0));
        assert!(history.len() <= MAX_EMBEDDING_HISTORY);
    }
    assert_eq!(history.len(), MAX_EMBEDDING_HISTORY);
    assert!(history.windows(2).all(|w| w[0].date < w[1].date));
}

#[test]
fn busiest_hour_lies_between_first_and_last_hours_of_work() {
    let mut hours = [0u64; 24];
    hours[9] = 40;
    hours[10] = 100;
    hours[14] = 100;
    hours[16] = 5;
    let p = hourly_profile(&hours);
    assert_eq!(p.peak_focus_hour, 14);
    assert_eq!(p.work_start_hour, Some(9));
    assert_eq!(p.work_end_hour, Some(16));
    assert_eq!(p.work_span_hours, 8);
    let quiet = hourly_profile(&[0u64; 24]);
    assert_eq!(quiet.peak_focus_hour, 23);
    assert_eq!(quiet.work_start_hour, None);
    assert_eq!(quiet.work_end_hour, None);
    assert_eq!(quiet.work_span_hours, 0);
}

#[test]
fn median_does_not_depend_on_the_order_of_values() {
    assert_eq!(median_u64(vec![9, 1, 5, 3]), median_u64(vec![1, 3, 5, 9]));
    assert_eq!(median_u64(vec![9, 1, 5, 3]), Some(4));
    assert_eq!(median_u64(vec![7, 2, 2]), Some(2));
    assert_eq!(median_u64(vec![1, 2]), Some(2));
    assert_eq!(median_u64(vec![]), None);
    assert_eq!(median_u64(vec![u64::MAX, u64::MAX - 1]), Some(u64::MAX));
}

#[test]
fn the_day_changes_once() {
    let mut state = TrackingState::initial();
    state.collection_day = "2026-03-01".into();
    state.focus_seconds = 50;
    state.current_session_started_at = Some("2026-03-01T23:50:00+09:00".into());
    state.report_settings.work_mode_tag = Some("구현".into());
    let previous = begin_day_rollover(&mut state, "2026-03-02", "", 1_772_400_000, "2026-03-02T00:00:01+09:00".into());
    assert_eq!(previous.as_deref(), Some("2026-03-01"));
    assert_eq!(state.sessions.len(), 1);
    assert_eq!(state.sessions[0].end_reason.as_deref(), Some("day_rollover"));
    finish_day_rollover(&mut state, "2026-03-02".into());
    assert_eq!(state.collection_day, "2026-03-02");
    assert_eq!(state.focus_seconds, 0);
    assert!(state.sessions.is_empty());
    assert!(state.report_settings.work_mode_tag.is_none());
    assert!(begin_day_rollover(&mut state, "2026-03-02", "", 1_772_400_100, "2026-03-02T00:01:41+09:00".into()).is_none());
}

#[test]
fn an_empty_collection_day_is_taken_from_the_features_or_today() {
    let mut state = TrackingState::initial();
    assert!(begin_day_rollover(&mut state, "2026-03-02", "", 0, "t".into()).is_none());
    assert_eq!(state.collection_day, "2026-03-02");
    let mut state = TrackingState::initial();
    assert_eq!(begin_day_rollover(&mut state, "2026-03-02", "2026-03-01", 0, "t".into()).as_deref(), Some("2026-03-01"));
}

#[test]
fn reentry_episodes_only_follow_breaks_of_three_to_sixty_minutes() {
    let mut state = TrackingState::initial();
    state.report_settings.enabled = true;
    let now = 1_800_000_000i64;
    for (gap, expected) in [(179i64, 0usize), (180, 1), (3_600, 2), (3_601, 2)] {
        let start = chrono::DateTime::from_timestamp(now - gap, 0).unwrap().to_rfc3339();
        state.pending_reentry = Some(PendingReentry { break_started_at: start });
        begin_reentry_episode(&mut state, now, "resume".into());
        assert!(state.pending_reentry.is_none());
        assert_eq!(state.reentry_episodes.len(), expected);
    }
    assert!(state.reentry_episodes.iter().all(|e| (180..=3_600).contains(&e.break_seconds)));
    assert_eq!(state.reentry_episodes[0].break_seconds, 180);
    assert_eq!(state.reentry_episodes[0].id, format!("{}-{}", chrono::DateTime::from_timestamp(now - 180, 0).unwrap().to_rfc3339(), now));
}

#[test]
fn a_filed_report_is_read_back() {
    let mut reports: Vec<StoredReport<u32>> = Vec::new();
    upsert_daily_report(&mut reports, stored("2026-01-05", "finalized"));
    upsert_daily_report(&mut reports, stored("2026-01-03", "finalized"));
    let mut draft = stored("2026-01-04", "draft");
    draft.body = 42;
    upsert_daily_report(&mut reports, draft);
    let mut state = TrackingState::initial();
    state.report_settings.enabled = true;
    state.collection_day = "2026-01-06".into();
    match daily_report_request(&state, &reports, "2026-01-04", true) {
        Ok(ReportAnswer::Archived(i)) => {
            assert_eq!(i, 1);
            assert_eq!(reports[i].body, 42);
        }
        other => panic!("unexpected answer {:?}", other),
    }
}
