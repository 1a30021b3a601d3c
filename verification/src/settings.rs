//! The user's commands: tracking on and off, report settings, work mode
//! tags, flow reflections, clearing report history, requests for extra
//! collection, and how much of the archive a history request lists.
use vstd::prelude::*;
use crate::laws::sound_state;
use crate::archive::StoredReport;
use crate::activity::{appended_bounded, close_current_session, closed_session, record_event, MAX_SESSIONS, MAX_TIMELINE};
use crate::flow::cap;
use crate::records::{copy_text_option, DailyContext, ReportSettings};
use crate::state::{is_fresh, TrackingState};
use crate::text::{owned, text_equals};

verus! {

broadcast use vstd::string::group_string_axioms;

/// The work modes a day can be tagged with.
pub open spec fn is_work_mode(tag: Seq<char>) -> bool {
    ||| tag == "구현"@
    ||| tag == "디버깅"@
    ||| tag == "문서화"@
    ||| tag == "검토"@
    ||| tag == "회의"@
    ||| tag == "학습"@
    ||| tag == "운영 대응"@
}

/// Whether `tag` is one of the work modes.
pub fn allowed_work_mode_tag(tag: &str) -> (r: bool)
    ensures
        r == is_work_mode(tag@),
{
    text_equals(tag, "구현") || text_equals(tag, "디버깅") || text_equals(tag, "문서화")
        || text_equals(tag, "검토") || text_equals(tag, "회의") || text_equals(tag, "학습")
        || text_equals(tag, "운영 대응")
}

/// The context of the current day: the work mode tag, whether reflection is
/// on, and the flow satisfaction only while reflection is on.
pub fn current_daily_context(state: &TrackingState) -> (r: DailyContext)
    ensures
        r.work_mode_tag == state.report_settings.work_mode_tag,
        r.reflection_enabled == state.report_settings.reflection_enabled,
        r.flow_satisfaction == if state.report_settings.reflection_enabled {
            state.report_settings.flow_satisfaction
        } else {
            None
        },
{
    DailyContext {
        work_mode_tag: copy_text_option(&state.report_settings.work_mode_tag),
        reflection_enabled: state.report_settings.reflection_enabled,
        flow_satisfaction: if state.report_settings.reflection_enabled {
            state.report_settings.flow_satisfaction
        } else {
            None
        },
    }
}

/// Turns tracking on or off. Pausing a running session closes it at
/// `now_text` (with a `session_end_paused` event and the reason
/// `tracking_paused`) and forgets any pending break.
pub fn set_tracking(state: &mut TrackingState, enabled: bool, now_text: String)
    ensures
        final(state).enabled == enabled,
        old(state).enabled && !enabled && old(state).current_session_started_at is Some ==> {
            &&& final(state).current_session_started_at is None
            &&& final(state).pending_reentry is None
            &&& final(state).sessions.len() >= 1
            &&& closed_session(*old(state), now_text, "tracking_paused"@, final(state).sessions@.last())
            &&& final(state).timeline.len() >= 1
            &&& final(state).timeline@.last().kind@ == "session_end_paused"@
            &&& final(state).timeline@.last().at == now_text
            &&& final(state).timeline@.last().app == old(state).active_window
            &&& final(state).timeline@.last().title == old(state).active_window
            &&& final(state).timeline@ == appended_bounded(
                old(state).timeline@,
                final(state).timeline@.last(),
                MAX_TIMELINE as int,
            )
            &&& final(state).sessions@ == appended_bounded(
                old(state).sessions@,
                final(state).sessions@.last(),
                MAX_SESSIONS as int,
            )
            &&& final(state).current_session_active_seconds == 0
            &&& final(state).current_session_idle_seconds == 0
            &&& final(state).current_session_switches == 0
            &&& final(state).current_session_apps.len() == 0
            &&& *final(state) == (TrackingState {
                enabled,
                timeline: final(state).timeline,
                sessions: final(state).sessions,
                current_session_started_at: final(state).current_session_started_at,
                current_session_active_seconds: final(state).current_session_active_seconds,
                current_session_idle_seconds: final(state).current_session_idle_seconds,
                current_session_switches: final(state).current_session_switches,
                current_session_apps: final(state).current_session_apps,
                pending_reentry: final(state).pending_reentry,
                ..*old(state)
            })
        },
        !(old(state).enabled && !enabled && old(state).current_session_started_at is Some) ==> (*final(state)
            == (TrackingState { enabled, ..*old(state) })),
        old(state).timeline.len() <= MAX_TIMELINE ==> final(state).timeline.len() <= MAX_TIMELINE,
        old(state).sessions.len() <= MAX_SESSIONS ==> final(state).sessions.len() <= MAX_SESSIONS,
        sound_state(*old(state)) ==> sound_state(*final(state)),
{
    if state.enabled && !enabled && state.current_session_started_at.is_some() {
        let app = state.active_window.clone();
        record_event(state, now_text.clone(), app.clone(), app, "session_end_paused");
        close_current_session(state, now_text, "tracking_paused");
        state.pending_reentry = None;
    }
    state.enabled = enabled;
}

/// Ends the running session, if any, before the application exits: a
/// `session_end_app_exit` event, the reason `app_exit`, and no pending
/// break.
pub fn end_session_for_exit(state: &mut TrackingState, now_text: String)
    ensures
        old(state).current_session_started_at is None ==> *final(state) == *old(state),
        old(state).current_session_started_at is Some ==> {
            &&& final(state).current_session_started_at is None
            &&& final(state).pending_reentry is None
            &&& final(state).sessions.len() >= 1
            &&& closed_session(*old(state), now_text, "app_exit"@, final(state).sessions@.last())
            &&& final(state).timeline.len() >= 1
            &&& final(state).timeline@.last().kind@ == "session_end_app_exit"@
            &&& final(state).timeline@.last().at == now_text
            &&& final(state).timeline@.last().app == old(state).active_window
            &&& final(state).timeline@.last().title == old(state).active_window
            &&& final(state).timeline@ == appended_bounded(
                old(state).timeline@,
                final(state).timeline@.last(),
                MAX_TIMELINE as int,
            )
            &&& final(state).sessions@ == appended_bounded(
                old(state).sessions@,
                final(state).sessions@.last(),
                MAX_SESSIONS as int,
            )
            &&& final(state).current_session_active_seconds == 0
            &&& final(state).current_session_idle_seconds == 0
            &&& final(state).current_session_switches == 0
            &&& final(state).current_session_apps.len() == 0
            &&& *final(state) == (TrackingState {
                timeline: final(state).timeline,
                sessions: final(state).sessions,
                current_session_started_at: final(state).current_session_started_at,
                current_session_active_seconds: final(state).current_session_active_seconds,
                current_session_idle_seconds: final(state).current_session_idle_seconds,
                current_session_switches: final(state).current_session_switches,
                current_session_apps: final(state).current_session_apps,
                pending_reentry: final(state).pending_reentry,
                ..*old(state)
            })
        },
        old(state).timeline.len() <= MAX_TIMELINE ==> final(state).timeline.len() <= MAX_TIMELINE,
        old(state).sessions.len() <= MAX_SESSIONS ==> final(state).sessions.len() <= MAX_SESSIONS,
        sound_state(*old(state)) ==> sound_state(*final(state)),
{
    if state.current_session_started_at.is_some() {
        let app = state.active_window.clone();
        record_event(state, now_text.clone(), app.clone(), app, "session_end_app_exit");
        close_current_session(state, now_text, "app_exit");
        state.pending_reentry = None;
    }
}

/// Turns daily reports on or off; turning them off forgets any pending
/// break.
pub fn set_daily_report_enabled(state: &mut TrackingState, enabled: bool)
    ensures
        *final(state) == (TrackingState {
            report_settings: ReportSettings { enabled, ..old(state).report_settings },
            pending_reentry: if enabled {
                old(state).pending_reentry
            } else {
                None
            },
            ..*old(state)
        }),
        sound_state(*old(state)) ==> sound_state(*final(state)),
{
    state.report_settings.enabled = enabled;
    if !enabled {
        state.pending_reentry = None;
    }
}

/// Why a settings command was refused.
#[derive(Clone, Copy, PartialEq, Eq, Structural, Debug)]
pub enum SettingsError {
    UnsupportedWorkModeTag,
    ReflectionOutOfRange,
    ReflectionDisabled,
}

impl SettingsError {
    pub open spec fn message(self) -> Seq<char> {
        match self {
            SettingsError::UnsupportedWorkModeTag => "unsupported work mode tag"@,
            SettingsError::ReflectionOutOfRange => "flow reflection must be an integer from 1 to 5"@,
            SettingsError::ReflectionDisabled => "flow reflection is disabled in local report settings"@,
        }
    }

    /// The message with which the command is refused.
    pub fn text(&self) -> (r: &'static str)
        ensures
            r@ == self.message(),
    {
        match self {
            SettingsError::UnsupportedWorkModeTag => "unsupported work mode tag",
            SettingsError::ReflectionOutOfRange => "flow reflection must be an integer from 1 to 5",
            SettingsError::ReflectionDisabled => "flow reflection is disabled in local report settings",
        }
    }
}

/// Tags the current day with a work mode (or clears the tag); a tag that is
/// not a work mode is refused and changes nothing. Returns the day's
/// context.
pub fn set_daily_work_mode_tag(state: &mut TrackingState, tag: Option<String>) -> (r: Result<DailyContext, SettingsError>)
    ensures
        (tag matches Some(t) && !is_work_mode(t@)) ==> r == Err::<DailyContext, SettingsError>(
            SettingsError::UnsupportedWorkModeTag,
        ) && *final(state) == *old(state),
        !(tag matches Some(t) && !is_work_mode(t@)) ==> {
            &&& *final(state) == (TrackingState {
                report_settings: ReportSettings { work_mode_tag: tag, ..old(state).report_settings },
                ..*old(state)
            })
            &&& r matches Ok(c) && c.work_mode_tag == tag && c.reflection_enabled
                == old(state).report_settings.reflection_enabled && c.flow_satisfaction == if old(
                state,
            ).report_settings.reflection_enabled {
                old(state).report_settings.flow_satisfaction
            } else {
                None
            }
        },
        sound_state(*old(state)) ==> sound_state(*final(state)),
{
    match &tag {
        Some(value) => {
            if !allowed_work_mode_tag(value.as_str()) {
                return Err(SettingsError::UnsupportedWorkModeTag);
            }
        },
        None => {},
    }
    state.report_settings.work_mode_tag = tag;
    Ok(current_daily_context(state))
}

/// Records the day's flow satisfaction (1 to 5) or clears it; a value out of
/// range, or a value while reflection is off, is refused and changes
/// nothing. Returns the day's context.
pub fn set_flow_reflection(state: &mut TrackingState, value: Option<u8>) -> (r: Result<DailyContext, SettingsError>)
    ensures
        (value matches Some(v) && !(1 <= v <= 5)) ==> r == Err::<DailyContext, SettingsError>(
            SettingsError::ReflectionOutOfRange,
        ) && *final(state) == *old(state),
        (value matches Some(v) && 1 <= v <= 5 && !old(state).report_settings.reflection_enabled) ==> r
            == Err::<DailyContext, SettingsError>(SettingsError::ReflectionDisabled) && *final(state)
            == *old(state),
        (value is None || old(state).report_settings.reflection_enabled) && !(value matches Some(v)
            && !(1 <= v <= 5)) ==> {
            &&& *final(state) == (TrackingState {
                report_settings: ReportSettings {
                    flow_satisfaction: value,
                    ..old(state).report_settings
                },
                ..*old(state)
            })
            &&& r matches Ok(c) && c.flow_satisfaction == if old(
                state,
            ).report_settings.reflection_enabled {
                value
            } else {
                None
            } && c.work_mode_tag == old(state).report_settings.work_mode_tag
        },
        sound_state(*old(state)) ==> sound_state(*final(state)),
{
    match value {
        Some(score) => {
            if !(1 <= score && score <= 5) {
                return Err(SettingsError::ReflectionOutOfRange);
            }
        },
        None => {},
    }
    if !state.report_settings.reflection_enabled && value.is_some() {
        return Err(SettingsError::ReflectionDisabled);
    }
    state.report_settings.flow_satisfaction = value;
    Ok(current_daily_context(state))
}

/// Turns flow reflection on or off; turning it off clears the recorded
/// satisfaction.
pub fn set_flow_reflection_enabled(state: &mut TrackingState, enabled: bool)
    ensures
        *final(state) == (TrackingState {
            report_settings: ReportSettings {
                reflection_enabled: enabled,
                flow_satisfaction: if enabled {
                    old(state).report_settings.flow_satisfaction
                } else {
                    None
                },
                ..old(state).report_settings
            },
            ..*old(state)
        }),
        sound_state(*old(state)) ==> sound_state(*final(state)),
{
    state.report_settings.reflection_enabled = enabled;
    if !enabled {
        state.report_settings.flow_satisfaction = None;
    }
}

/// Clears the report archive, the re-entry history, the pending break, the
/// work mode tag and the flow satisfaction.
pub fn clear_daily_report_history<B>(state: &mut TrackingState, reports: &mut Vec<StoredReport<B>>)
    ensures
        final(reports).len() == 0,
        *final(state) == (TrackingState {
            reentry_episodes: final(state).reentry_episodes,
            pending_reentry: None,
            report_settings: ReportSettings {
                work_mode_tag: None,
                flow_satisfaction: None,
                ..old(state).report_settings
            },
            ..*old(state)
        }),
        final(state).reentry_episodes.len() == 0,
        sound_state(*old(state)) ==> sound_state(*final(state)),
{
    reports.clear();
    state.reentry_episodes.clear();
    state.pending_reentry = None;
    state.report_settings.work_mode_tag = None;
    state.report_settings.flow_satisfaction = None;
}

/// How many archived reports a history request lists: 30 for a limit of 0,
/// else the limit, at most 365.
pub open spec fn history_cap(limit: u16) -> int {
    if limit == 0 {
        30
    } else if limit > 365 {
        365
    } else {
        limit as int
    }
}

/// The archive positions a history request lists: the latest first, as
/// many as the cap allows.
pub fn history_positions(archived: usize, limit: u16) -> (r: Vec<usize>)
    ensures
        r.len() == if archived < history_cap(limit) {
            archived as int
        } else {
            history_cap(limit)
        },
        forall|k: int| 0 <= k < r.len() ==> #[trigger] r@[k] == archived - 1 - k,
{
    let cap: usize = if limit == 0 {
        30
    } else if limit > 365 {
        365
    } else {
        limit as usize
    };
    let mut out: Vec<usize> = Vec::new();
    let mut k: usize = 0;
    while k < cap && k < archived
        invariant
            k <= cap,
            k <= archived,
            cap == history_cap(limit),
            out.len() == k,
            forall|j: int| 0 <= j < k ==> #[trigger] out@[j] == archived - 1 - j,
        decreases cap - k,
    {
        out.push(archived - 1 - k);
        k = k + 1;
    }
    out
}

/// Records a request for notification access: it needs the MSIX package
/// identity and the user's consent.
pub fn request_notification_access(state: &mut TrackingState)
    ensures
        final(state).advanced.notification_requested,
        final(state).advanced.notification_access@ == "requires_msix_user_notification_listener_consent"@,
        final(state).advanced.helper_last_error@ == "알림 수집은 관리자 권한이 아니라 MSIX 패키지 identity와 Windows 알림 접근 동의가 필요합니다."@,
        final(state).advanced.per_app_network_requested == old(state).advanced.per_app_network_requested,
        final(state).advanced.per_app_network_status == old(state).advanced.per_app_network_status,
        *final(state) == (TrackingState { advanced: final(state).advanced, ..*old(state) }),
        sound_state(*old(state)) ==> sound_state(*final(state)),
{
    state.advanced.notification_requested = true;
    state.advanced.notification_access = owned("requires_msix_user_notification_listener_consent");
    state.advanced.helper_last_error = owned(
        "알림 수집은 관리자 권한이 아니라 MSIX 패키지 identity와 Windows 알림 접근 동의가 필요합니다.",
    );
}

/// Records a request for per-application network collection: it needs an
/// optional collector installed with administrator rights.
pub fn request_per_app_network_collection(state: &mut TrackingState)
    ensures
        final(state).advanced.per_app_network_requested,
        final(state).advanced.per_app_network_status@ == "admin_required_etw_helper_not_installed"@,
        final(state).advanced.helper_last_error@ == "앱별 네트워크 바이트는 시스템 ETW 세션을 사용하므로 관리자 권한으로 설치되는 선택적 수집기가 필요합니다."@,
        final(state).advanced.notification_requested == old(state).advanced.notification_requested,
        final(state).advanced.notification_access == old(state).advanced.notification_access,
        *final(state) == (TrackingState { advanced: final(state).advanced, ..*old(state) }),
        sound_state(*old(state)) ==> sound_state(*final(state)),
{
    state.advanced.per_app_network_requested = true;
    state.advanced.per_app_network_status = owned("admin_required_etw_helper_not_installed");
    state.advanced.helper_last_error = owned(
        "앱별 네트워크 바이트는 시스템 ETW 세션을 사용하므로 관리자 권한으로 설치되는 선택적 수집기가 필요합니다.",
    );
}

/// Forgets everything recorded and every setting, keeping only whether
/// tracking is on.
pub fn clear_all_data(state: &mut TrackingState)
    ensures
        final(state).enabled == old(state).enabled,
        is_fresh(*final(state)),
        sound_state(*final(state)),
{
    let enabled = state.enabled;
    *state = TrackingState::initial();
    state.enabled = enabled;
}

} // verus!
