//! The tracker's state: counters, records and the running session.
//!
//! Pointer distance and click-interval statistics, the daily feature vector,
//! embeddings and archived reports are kept beside this state by the caller.
use vstd::prelude::*;
use crate::flow::FlowMinute;
use crate::records::{
    AdvancedCollectionState, AppActivity, DiskUsageSnapshot, PendingReentry, ReentryEpisode, ReportSettings, TimelineEvent,
    WorkSession,
};

verus! {

/// The interval at which the foreground window is sampled, in milliseconds.
pub const FOREGROUND_SAMPLE_MS: u64 = 200;

/// How long without input, in seconds, before the user counts as idle.
pub const IDLE_THRESHOLD_SECS: u64 = 300;

pub struct TrackingState {
    pub enabled: bool,
    pub active_window: String,
    pub keyboard_actions: u64,
    pub mouse_actions: u64,
    pub app_activation_count: u64,
    pub focus_seconds: u64,
    pub hourly_focus: [u64; 24],
    pub apps: Vec<AppActivity>,
    pub timeline: Vec<TimelineEvent>,
    pub flow_minutes: Vec<FlowMinute>,
    pub active_app_count: u64,
    pub mouse_clicks: u64,
    pub mouse_wheel_notches: u64,
    pub disk_snapshots: Vec<DiskUsageSnapshot>,
    pub avg_click_interval_ms: u64,
    pub click_interval_count: u64,
    pub network_rx_bytes: u64,
    pub network_tx_bytes: u64,
    pub notification_count: u64,
    pub idle_seconds: u64,
    pub context_switches: u64,
    pub sessions: Vec<WorkSession>,
    pub current_session_started_at: Option<String>,
    pub current_session_active_seconds: u64,
    pub current_session_idle_seconds: u64,
    pub current_session_switches: u64,
    pub current_session_apps: Vec<String>,
    pub last_input_at: Option<String>,
    pub last_input_age_seconds: u64,
    pub resume_latency_seconds: u64,
    pub collection_day: String,
    pub embedding_enabled: bool,
    pub tracker_sample_interval_ms: u64,
    pub unresolved_window_count: u64,
    pub reentry_episodes: Vec<ReentryEpisode>,
    pub pending_reentry: Option<PendingReentry>,
    pub report_settings: ReportSettings,
    pub advanced: AdvancedCollectionState,
}

/// A state with nothing recorded: no applications, events, minutes or
/// sessions, every counter at zero, no collection day, reports, reflection,
/// reminders and embeddings off, the advanced collectors not requested, and
/// the foreground sampled every `FOREGROUND_SAMPLE_MS`.
pub open spec fn is_fresh(r: TrackingState) -> bool {
    &&& r.active_window@.len() == 0
    &&& r.apps.len() == 0
    &&& r.timeline.len() == 0
    &&& r.flow_minutes.len() == 0
    &&& r.sessions.len() == 0
    &&& r.current_session_started_at is None
    &&& r.current_session_apps.len() == 0
    &&& r.collection_day@.len() == 0
    &&& r.reentry_episodes.len() == 0
    &&& r.pending_reentry is None
    &&& !r.report_settings.enabled
    &&& r.report_settings.work_mode_tag is None
    &&& !r.report_settings.reflection_enabled
    &&& r.report_settings.flow_satisfaction is None
    &&& !r.report_settings.reminder_enabled
    &&& r.keyboard_actions == 0 && r.mouse_actions == 0 && r.app_activation_count == 0
    &&& r.active_app_count == 0 && r.mouse_clicks == 0 && r.mouse_wheel_notches == 0
    &&& r.avg_click_interval_ms == 0 && r.click_interval_count == 0
    &&& r.network_rx_bytes == 0 && r.network_tx_bytes == 0 && r.notification_count == 0
    &&& r.current_session_active_seconds == 0 && r.current_session_idle_seconds == 0
    &&& r.current_session_switches == 0
    &&& r.last_input_at is None && r.last_input_age_seconds == 0 && r.resume_latency_seconds == 0
    &&& r.unresolved_window_count == 0
    &&& r.disk_snapshots.len() == 0
    &&& r.advanced.helper_last_error@.len() == 0
    &&& !r.embedding_enabled
    &&& r.tracker_sample_interval_ms == FOREGROUND_SAMPLE_MS
    &&& r.focus_seconds == 0 && r.idle_seconds == 0 && r.context_switches == 0
    &&& forall|h: int| 0 <= h < 24 ==> r.hourly_focus@[h] == 0
    &&& r.advanced.notification_access@ == "not_requested"@
    &&& r.advanced.per_app_network_status@ == "not_requested"@
    &&& !r.advanced.notification_requested && !r.advanced.per_app_network_requested
}

impl TrackingState {
    /// A fresh state: tracking on, nothing recorded, reports and embeddings
    /// off.
    pub fn initial() -> (r: Self)
        ensures
            r.enabled,
            is_fresh(r),
            crate::laws::sound_state(r),
    {
        TrackingState {
            enabled: true,
            active_window: String::new(),
            keyboard_actions: 0,
            mouse_actions: 0,
            app_activation_count: 0,
            focus_seconds: 0,
            hourly_focus: [0u64; 24],
            apps: Vec::new(),
            timeline: Vec::new(),
            flow_minutes: Vec::new(),
            active_app_count: 0,
            mouse_clicks: 0,
            mouse_wheel_notches: 0,
            disk_snapshots: Vec::new(),
            avg_click_interval_ms: 0,
            click_interval_count: 0,
            network_rx_bytes: 0,
            network_tx_bytes: 0,
            notification_count: 0,
            idle_seconds: 0,
            context_switches: 0,
            sessions: Vec::new(),
            current_session_started_at: None,
            current_session_active_seconds: 0,
            current_session_idle_seconds: 0,
            current_session_switches: 0,
            current_session_apps: Vec::new(),
            last_input_at: None,
            last_input_age_seconds: 0,
            resume_latency_seconds: 0,
            collection_day: String::new(),
            embedding_enabled: false,
            tracker_sample_interval_ms: FOREGROUND_SAMPLE_MS,
            unresolved_window_count: 0,
            reentry_episodes: Vec::new(),
            pending_reentry: None,
            report_settings: ReportSettings::initial(),
            advanced: AdvancedCollectionState {
                notification_requested: false,
                notification_access: crate::text::owned("not_requested"),
                per_app_network_requested: false,
                per_app_network_status: crate::text::owned("not_requested"),
                helper_last_error: String::new(),
            },
        }
    }
}

} // verus!
