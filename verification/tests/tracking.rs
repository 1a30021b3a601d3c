use flowlens::records::DiskUsageSnapshot;
use flowlens::state::TrackingState;
use flowlens::system::{drive_roots, record_disk_snapshots, MAX_DISK_SNAPSHOTS};
use flowlens::tracker::{record_foreground_sample, record_input_sample, record_minute_counters, record_second, record_wheel, ForegroundWindow, InputSample};

const KEY: &str = "2026-09-17T09:00:00+09:00";

fn window(identity: &str, app: &str, title: &str) -> ForegroundWindow {
    ForegroundWindow { identity: identity.into(), app: app.into(), title: title.into(), process_resolved: true }
}

#[test]
fn a_focused_second_starts_a_session_and_counts_the_hour() {
    let mut state = TrackingState::initial();
    state.active_window = "editor.exe".into();
    state.last_input_age_seconds = 42;
    record_second(&mut state, false, 9, KEY.into(), 1_789_000_000, KEY.into());
    assert_eq!(state.focus_seconds, 1);
    assert_eq!(state.hourly_focus[9], 1);
    assert_eq!(state.current_session_active_seconds, 1);
    assert_eq!(state.current_session_started_at.as_deref(), Some(KEY));
    assert_eq!(state.resume_latency_seconds, 42);
    assert_eq!(state.timeline.last().unwrap().kind, "session_start");
    assert_eq!(state.flow_minutes.len(), 1);
    assert_eq!((state.flow_minutes[0].observed_seconds, state.flow_minutes[0].focus_seconds), (1, 1));
}

#[test]
fn an_idle_second_ends_the_session_and_marks_a_break() {
    let mut state = TrackingState::initial();
    state.report_settings.enabled = true;
    record_second(&mut state, false, 9, KEY.into(), 1_789_000_000, KEY.into());
    record_second(&mut state, true, 9, KEY.into(), 1_789_000_001, "2026-09-17T09:00:01+09:00".into());
    assert_eq!(state.idle_seconds, 1);
    assert!(state.current_session_started_at.is_none());
    assert_eq!(state.sessions.len(), 1);
    assert_eq!(state.sessions[0].end_reason.as_deref(), Some("idle"));
    assert_eq!(state.timeline.last().unwrap().kind, "session_end_idle");
    assert_eq!(state.pending_reentry.as_ref().unwrap().break_started_at, "2026-09-17T09:00:01+09:00");
    assert_eq!(state.flow_minutes[0].idle_seconds, 1);
}

#[test]
fn a_window_switch_is_counted_once() {
    let mut state = TrackingState::initial();
    let mut previous = String::new();
    record_foreground_sample(&mut state, Some(window("1:a", "editor.exe", "main.rs")), &mut previous, false, 200, KEY.into(), KEY.into());
    record_foreground_sample(&mut state, Some(window("1:a", "editor.exe", "main.rs")), &mut previous, false, 200, KEY.into(), KEY.into());
    assert_eq!(previous, "1:a");
    assert_eq!(state.context_switches, 1);
    assert_eq!(state.app_activation_count, 1);
    assert_eq!(state.apps.len(), 1);
    assert_eq!(state.apps[0].activations, 1);
    assert_eq!(state.apps[0].active_millis, 400);
    assert_eq!(state.timeline.len(), 1);
    assert_eq!(state.flow_minutes[0].switch_count, 1);
    assert_eq!(state.current_session_apps, vec!["editor.exe".to_string()]);
    record_foreground_sample(&mut state, Some(window("2:b", "browser.exe", "")), &mut previous, true, 200, KEY.into(), KEY.into());
    assert_eq!(state.context_switches, 2);
    assert_eq!(state.apps[1].active_millis, 0);
    record_foreground_sample(&mut state, None, &mut previous, false, 200, KEY.into(), KEY.into());
    assert_eq!(state.active_window, "활성 창을 식별할 수 없음");
    assert!(previous.is_empty());
}

#[test]
fn input_samples_count_keys_clicks_and_pointer_moves() {
    let mut state = TrackingState::initial();
    let sample = InputSample { key_presses: 3, pointer_moved: true, click_started: true, idle_age_seconds: 9 };
    let position = record_input_sample(&mut state, &sample, KEY.into(), KEY.into());
    assert_eq!(position, Some(0));
    assert_eq!((state.keyboard_actions, state.mouse_actions, state.mouse_clicks), (3, 1, 1));
    assert_eq!((state.flow_minutes[0].keyboard_actions, state.flow_minutes[0].mouse_actions), (3, 2));
    assert_eq!(state.last_input_at.as_deref(), Some(KEY));
    let quiet = InputSample { key_presses: 0, pointer_moved: false, click_started: false, idle_age_seconds: 9 };
    assert_eq!(record_input_sample(&mut state, &quiet, KEY.into(), "later".into()), None);
    assert_eq!(state.last_input_age_seconds, 9);
    assert_eq!(state.last_input_at.as_deref(), Some(KEY));
}

#[test]
fn wheel_notches_count_while_tracking() {
    let mut state = TrackingState::initial();
    record_wheel(&mut state, 3, KEY.into(), KEY.into());
    assert_eq!((state.mouse_wheel_notches, state.mouse_actions), (3, 3));
    assert_eq!(state.flow_minutes[0].mouse_actions, 3);
    state.enabled = false;
    record_wheel(&mut state, 3, KEY.into(), KEY.into());
    assert_eq!(state.mouse_wheel_notches, 3);
}

#[test]
fn minute_counters_add_network_bytes() {
    let mut state = TrackingState::initial();
    state.network_rx_bytes = u64::MAX - 1;
    record_minute_counters(&mut state, 7, 10, 20);
    assert_eq!(state.active_app_count, 7);
    assert_eq!(state.network_rx_bytes, u64::MAX);
    assert_eq!(state.network_tx_bytes, 20);
}

fn snap(at: &str, drive: &str) -> DiskUsageSnapshot {
    DiskUsageSnapshot { at: at.into(), drive: drive.into(), total_bytes: 10, free_bytes: 4, used_bytes: 6 }
}

#[test]
fn drive_snapshots_replace_their_bucket() {
    let mut state = TrackingState::initial();
    record_disk_snapshots(&mut state, "b1", vec![snap("b1", "C:\\"), snap("b1", "D:\\")]);
    record_disk_snapshots(&mut state, "b2", vec![snap("b2", "C:\\")]);
    record_disk_snapshots(&mut state, "b1", vec![snap("b1", "E:\\")]);
    let drives: Vec<(&str, &str)> = state.disk_snapshots.iter().map(|s| (s.at.as_str(), s.drive.as_str())).collect();
    assert_eq!(drives, vec![("b2", "C:\\"), ("b1", "E:\\")]);
    record_disk_snapshots(&mut state, "b3", Vec::new());
    assert_eq!(state.disk_snapshots.len(), 2);
    assert!(state.disk_snapshots.len() <= MAX_DISK_SNAPSHOTS);
}

#[test]
fn drive_roots_split_the_listing() {
    let text: Vec<u16> = "C:\\\0D:\\\0\0".encode_utf16().collect();
    let mut buffer = text.clone();
    buffer.resize(16, 0);
    let roots: Vec<String> = drive_roots(&buffer, text.len()).iter().map(|r| String::from_utf16_lossy(r)).collect();
    assert_eq!(roots, vec!["C:\\".to_string(), "D:\\".to_string()]);
    assert!(drive_roots(&buffer, 0).is_empty());
    assert!(drive_roots(&buffer, 16).is_empty());
}

#[test]
fn refiling_a_bucket_changes_nothing() {
    let mut state = TrackingState::initial();
    record_disk_snapshots(&mut state, "b0", vec![snap("b0", "C:\\")]);
    record_disk_snapshots(&mut state, "b1", vec![snap("b1", "C:\\"), snap("b1", "D:\\")]);
    let once: Vec<(String, String)> = state.disk_snapshots.iter().map(|s| (s.at.clone(), s.drive.clone())).collect();
    record_disk_snapshots(&mut state, "b1", vec![snap("b1", "C:\\"), snap("b1", "D:\\")]);
    let twice: Vec<(String, String)> = state.disk_snapshots.iter().map(|s| (s.at.clone(), s.drive.clone())).collect();
    assert_eq!(once, twice);
    assert_eq!(twice.len(), 3);
}

fn finished(started_at: &str, active_seconds: u64) -> flowlens::records::WorkSession {
    flowlens::records::WorkSession {
        started_at: started_at.into(),
        ended_at: Some(started_at.into()),
        active_seconds,
        idle_seconds: 0,
        switch_count: 0,
        app_count: 1,
        end_reason: Some("idle".into()),
    }
}

#[test]
fn idleness_keeps_the_earlier_sessions_of_the_day() {
    let mut state = TrackingState::initial();
    state.sessions.push(finished("2026-09-17T07:00:00+09:00", 600));
    state.sessions.push(finished("2026-09-17T08:00:00+09:00", 900));
    record_second(&mut state, false, 9, KEY.into(), 1_789_000_000, KEY.into());
    record_second(&mut state, true, 9, KEY.into(), 1_789_000_001, "2026-09-17T09:00:01+09:00".into());
    assert_eq!(state.sessions.len(), 3);
    assert_eq!(state.sessions[0].started_at, "2026-09-17T07:00:00+09:00");
    assert_eq!(state.sessions[1].active_seconds, 900);
    assert_eq!(state.sessions[2].started_at, KEY);
    assert_eq!(state.sessions[2].active_seconds, 1);
    let kinds: Vec<&str> = state.timeline.iter().map(|e| e.kind.as_str()).collect();
    assert_eq!(kinds, vec!["session_start", "session_end_idle"]);
}

#[test]
fn a_foreground_sample_credits_only_the_sampled_application() {
    let mut state = TrackingState::initial();
    let mut previous = String::new();
    record_foreground_sample(&mut state, Some(window("1:a", "editor.exe", "main.rs")), &mut previous, false, 300, KEY.into(), KEY.into());
    record_foreground_sample(&mut state, Some(window("2:b", "browser.exe", "docs")), &mut previous, false, 500, KEY.into(), KEY.into());
    record_foreground_sample(&mut state, Some(window("2:b", "browser.exe", "docs")), &mut previous, false, 250, KEY.into(), KEY.into());
    assert_eq!(state.apps.len(), 2);
    assert_eq!((state.apps[0].app.as_str(), state.apps[0].active_millis, state.apps[0].activations), ("editor.exe", 300, 1));
    assert_eq!((state.apps[1].app.as_str(), state.apps[1].active_millis, state.apps[1].activations), ("browser.exe", 750, 1));
    assert_eq!(state.timeline.len(), 2);
    assert_eq!(state.timeline[1].app, "browser.exe");
}

#[test]
fn bounded_pushes_drop_the_oldest_entry() {
    let mut items = vec![1u32, 2];
    flowlens::activity::push_bounded(&mut items, 3, 3);
    assert_eq!(items, vec![1, 2, 3]);
    flowlens::activity::push_bounded(&mut items, 4, 3);
    assert_eq!(items, vec![2, 3, 4]);
}
