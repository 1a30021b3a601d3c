//! The records that the tracker keeps: applications, timeline events, work
//! sessions, re-entry episodes, disk snapshots and report settings.
use vstd::prelude::*;
use crate::flow::FlowMinute;

verus! {

/// Focus time and activations of one application.
#[derive(Clone)]
pub struct AppActivity {
    pub app: String,
    pub title: String,
    pub seconds: u64,
    pub active_millis: u64,
    pub activations: u64,
}

/// One entry of the activity timeline.
#[derive(Clone)]
pub struct TimelineEvent {
    pub at: String,
    pub app: String,
    pub title: String,
    pub kind: String,
}

/// A work session, completed or running.
#[derive(Clone)]
pub struct WorkSession {
    pub started_at: String,
    pub ended_at: Option<String>,
    pub active_seconds: u64,
    pub idle_seconds: u64,
    pub switch_count: u64,
    pub app_count: u64,
    pub end_reason: Option<String>,
}

/// The start of a break after which a re-entry may be observed.
#[derive(Clone)]
pub struct PendingReentry {
    pub break_started_at: String,
}

/// A resumption of work after a break of 3 to 60 minutes, and what the first
/// ten minutes after it looked like.
#[derive(Clone)]
pub struct ReentryEpisode {
    pub id: String,
    pub break_started_at: String,
    pub resumed_at: String,
    pub break_seconds: u64,
    pub stabilization_seconds: Option<u64>,
    pub focused_seconds_first_10m: u16,
    pub switch_count_first_10m: u16,
    pub finalized: bool,
}

/// Used and free space of one drive at one half-hour bucket.
#[derive(Clone)]
pub struct DiskUsageSnapshot {
    pub at: String,
    pub drive: String,
    pub total_bytes: u64,
    pub free_bytes: u64,
    pub used_bytes: u64,
}

/// The user's choices for the daily report.
#[derive(Clone)]
pub struct ReportSettings {
    pub enabled: bool,
    pub work_mode_tag: Option<String>,
    pub reflection_enabled: bool,
    pub flow_satisfaction: Option<u8>,
    pub reminder_enabled: bool,
}

/// The context in which a day was recorded.
#[derive(Clone)]
pub struct DailyContext {
    pub work_mode_tag: Option<String>,
    pub reflection_enabled: bool,
    pub flow_satisfaction: Option<u8>,
}

/// Requests for collection that needs extra permissions, and their state.
#[derive(Clone)]
pub struct AdvancedCollectionState {
    pub notification_requested: bool,
    pub notification_access: String,
    pub per_app_network_requested: bool,
    pub per_app_network_status: String,
    pub helper_last_error: String,
}

/// A copy of an optional text.
pub fn copy_text_option(value: &Option<String>) -> (r: Option<String>)
    ensures
        r == *value,
{
    match value {
        Some(t) => Some(t.clone()),
        None => None,
    }
}

impl WorkSession {
    pub fn duplicate(&self) -> (r: Self)
        ensures
            r == *self,
    {
        WorkSession {
            started_at: self.started_at.clone(),
            ended_at: copy_text_option(&self.ended_at),
            active_seconds: self.active_seconds,
            idle_seconds: self.idle_seconds,
            switch_count: self.switch_count,
            app_count: self.app_count,
            end_reason: copy_text_option(&self.end_reason),
        }
    }
}

impl ReentryEpisode {
    pub fn duplicate(&self) -> (r: Self)
        ensures
            r == *self,
    {
        ReentryEpisode {
            id: self.id.clone(),
            break_started_at: self.break_started_at.clone(),
            resumed_at: self.resumed_at.clone(),
            break_seconds: self.break_seconds,
            stabilization_seconds: self.stabilization_seconds,
            focused_seconds_first_10m: self.focused_seconds_first_10m,
            switch_count_first_10m: self.switch_count_first_10m,
            finalized: self.finalized,
        }
    }
}

impl FlowMinute {
    pub fn duplicate(&self) -> (r: Self)
        ensures
            r == *self,
    {
        FlowMinute {
            start_at: self.start_at.clone(),
            observed_seconds: self.observed_seconds,
            focus_seconds: self.focus_seconds,
            idle_seconds: self.idle_seconds,
            switch_count: self.switch_count,
            keyboard_actions: self.keyboard_actions,
            mouse_actions: self.mouse_actions,
            mouse_distance_px_bits: self.mouse_distance_px_bits,
        }
    }
}

impl ReportSettings {
    /// Reports off, no tag, no reflection, no reminder.
    pub fn initial() -> (r: Self)
        ensures
            !r.enabled,
            r.work_mode_tag is None,
            !r.reflection_enabled,
            r.flow_satisfaction is None,
            !r.reminder_enabled,
    {
        ReportSettings {
            enabled: false,
            work_mode_tag: None,
            reflection_enabled: false,
            flow_satisfaction: None,
            reminder_enabled: false,
        }
    }
}

} // verus!
