use chrono::{Datelike, Timelike};
use flowlens::archive::{select_baseline, upsert_daily_report, Cohort, StoredReport, MAX_DAILY_REPORTS};
use flowlens::records::{PendingReentry, ReportSettings};
use flowlens::reentry::begin_reentry_episode;
use flowlens::settings::end_session_for_exit;
use flowlens::day::begin_day_rollover;
use flowlens::state::TrackingState;
use flowlens::system::disk_bucket_key;

fn report(date: &str, status: &str, tag: Option<&str>) -> StoredReport<()> {
    StoredReport {
        date: date.into(),
        status: status.into(),
        quality_level: "sufficient".into(),
        work_mode_tag: tag.map(str::to_string),
        body: (),
    }
}

#[test]
fn finalizes_and_retains_at_most_365_local_reports() {
    let mut reports: Vec<StoredReport<()>> = Vec::new();
    let start = chrono::NaiveDate::from_ymd_opt(2025, 1, 1).unwrap();
    for offset in 0..=365i64 {
        let date = (start + chrono::Duration::days(offset)).to_string();
        upsert_daily_report(&mut reports, report(&date, "finalized", None));
    }
    assert_eq!(reports.len(), MAX_DAILY_REPORTS);
    assert_eq!(reports.first().unwrap().date, "2025-01-02");
}

#[test]
fn selects_tag_and_weekday_baseline_before_broader_cohorts() {
    let mut settings = ReportSettings::initial();
    settings.work_mode_tag = Some("구현".into());
    let mut reports = Vec::new();
    for day in ["2026-01-05", "2026-01-12", "2026-01-19", "2026-01-26", "2026-02-02", "2026-02-09", "2026-02-16", "2026-02-23"] {
        reports.push(report(day, "finalized", Some("구현")));
    }
    let baseline = select_baseline(&reports, &settings, "2026-03-02");
    assert_eq!(baseline.descriptor.cohort.name(), "tag_weekday");
    assert_eq!(baseline.descriptor.cohort, Cohort::TagWeekday);
    assert_eq!(baseline.descriptor.sample_count, 8);
}

#[test]
fn aligns_disk_usage_snapshots_to_thirty_minute_local_buckets() {
    let now = chrono::Local::now();
    let expected_minute = now.minute() / 30 * 30;
    let key = disk_bucket_key(
        &now.date_naive().to_string(),
        now.hour(),
        now.minute(),
        now.second().min(60),
        &now.format("%:z").to_string(),
    );
    assert!(key.contains(&format!("T{:02}:{expected_minute:02}:00", now.hour())));
}

#[test]
fn finalizes_live_session_before_explicit_app_exit() {
    let mut state = TrackingState::initial();
    let now = chrono::Local::now();
    let today = now.date_naive().to_string();
    state.collection_day = today.clone();
    state.current_session_started_at = Some((now - chrono::Duration::minutes(12)).to_rfc3339());
    state.current_session_active_seconds = 720;
    state.current_session_switches = 3;
    state.current_session_apps = vec!["editor.exe".into()];
    state.active_window = "editor.exe".into();
    assert!(begin_day_rollover(&mut state, &today, "", now.timestamp(), now.to_rfc3339()).is_none());
    end_session_for_exit(&mut state, now.to_rfc3339());
    assert!(state.current_session_started_at.is_none());
    assert_eq!(state.sessions.len(), 1);
    assert_eq!(state.sessions[0].end_reason.as_deref(), Some("app_exit"));
    assert!(state.timeline.iter().any(|event| event.kind == "session_end_app_exit"));
}

#[test]
fn excludes_short_and_long_breaks_from_reentry_analysis() {
    let mut state = TrackingState::initial();
    state.report_settings.enabled = true;
    let now = chrono::Local::now();
    state.pending_reentry = Some(PendingReentry { break_started_at: (now - chrono::Duration::seconds(120)).to_rfc3339() });
    begin_reentry_episode(&mut state, now.timestamp(), now.to_rfc3339());
    assert!(state.reentry_episodes.is_empty());
    state.pending_reentry = Some(PendingReentry { break_started_at: (now - chrono::Duration::seconds(600)).to_rfc3339() });
    begin_reentry_episode(&mut state, now.timestamp(), now.to_rfc3339());
    assert_eq!(state.reentry_episodes.len(), 1);
    state.pending_reentry = Some(PendingReentry { break_started_at: (now - chrono::Duration::seconds(4_000)).to_rfc3339() });
    begin_reentry_episode(&mut state, now.timestamp(), now.to_rfc3339());
    assert_eq!(state.reentry_episodes.len(), 1);
}
