//! What the tracker records at each sample: input, the foreground window,
//! each second of focus or idleness, and the mouse wheel.
use vstd::prelude::*;
use crate::laws::sound_state;
use crate::activity::{
    app_position, appended_bounded, close_current_session, flow_minute_for, informative_title, key_position,
    lemma_app_position, minutes_with_key, record_event, record_flow_input, MAX_FLOW_MINUTES, MAX_SESSIONS,
    MAX_TIMELINE,
};
use crate::flow::{cap, FlowMinute};
use crate::reentry::{
    begin_pending_reentry, begin_reentry_episode, breaks_in_window, refresh_reentry_episodes, refreshed, MAX_REENTRY_EPISODES,
};
use crate::records::{AppActivity, PendingReentry};
use crate::laws::{unique_app_names, unique_minute_keys};
use crate::state::TrackingState;
use crate::text::{owned, text_equals};

verus! {

broadcast use vstd::string::group_string_axioms;

/// Whether `apps` holds the name `app`.
pub open spec fn holds_app(apps: Seq<String>, app: Seq<char>) -> bool {
    exists|k: int| 0 <= k < apps.len() && apps[k]@ == app
}

fn contains_app(apps: &Vec<String>, app: &str) -> (r: bool)
    ensures
        r == holds_app(apps@, app@),
{
    let mut i: usize = 0;
    while i < apps.len()
        invariant
            i <= apps.len(),
            forall|k: int| 0 <= k < i ==> apps@[k]@ != app@,
        decreases apps.len() - i,
    {
        if text_equals(apps[i].as_str(), app) {
            return true;
        }
        i = i + 1;
    }
    false
}

/// One input sample: new key presses, whether the pointer moved, whether a
/// click began, and how long ago the last input was seen.
pub struct InputSample {
    pub key_presses: u64,
    pub pointer_moved: bool,
    pub click_started: bool,
    pub idle_age_seconds: u64,
}

/// Records an input sample taken at `now_text`, in the flow minute
/// `minute_key`. Returns the position of the flow minute that received
/// input, to which the caller adds the pointer distance.
pub fn record_input_sample(
    state: &mut TrackingState,
    sample: &InputSample,
    minute_key: String,
    now_text: String,
) -> (r: Option<usize>)
    ensures
        final(state).keyboard_actions == cap(
            old(state).keyboard_actions + sample.key_presses,
            u64::MAX as int,
        ),
        final(state).mouse_actions == if sample.pointer_moved {
            cap(old(state).mouse_actions + 1, u64::MAX as int)
        } else {
            old(state).mouse_actions as int
        },
        final(state).mouse_clicks == if sample.click_started {
            cap(old(state).mouse_clicks + 1, u64::MAX as int)
        } else {
            old(state).mouse_clicks as int
        },
        ({
            let pointer_actions = (if sample.pointer_moved { 1int } else { 0int }) + (if sample.click_started { 1int } else { 0int });
            let seen = sample.key_presses > 0 || sample.click_started || sample.pointer_moved;
            &&& seen ==> {
                let mid = minutes_with_key(old(state).flow_minutes@, minute_key);
                let i = key_position(old(state).flow_minutes@, minute_key);
                &&& r == Some(i as usize)
                &&& final(state).flow_minutes@ == mid.update(
                    i,
                    crate::activity::with_inputs(mid[i], sample.key_presses, pointer_actions as u32),
                )
            }
            &&& !seen ==> r is None && final(state).flow_minutes@ == old(state).flow_minutes@
            &&& seen ==> final(state).last_input_at == Some(now_text)
                && final(state).last_input_age_seconds == 0
            &&& !seen ==> final(state).last_input_at == old(state).last_input_at
                && final(state).last_input_age_seconds == sample.idle_age_seconds
        }),
        *final(state) == (TrackingState {
            keyboard_actions: final(state).keyboard_actions,
            mouse_actions: final(state).mouse_actions,
            mouse_clicks: final(state).mouse_clicks,
            flow_minutes: final(state).flow_minutes,
            last_input_at: final(state).last_input_at,
            last_input_age_seconds: final(state).last_input_age_seconds,
            ..*old(state)
        }),
        unique_minute_keys(old(state).flow_minutes@) ==> unique_minute_keys(final(state).flow_minutes@),
        old(state).flow_minutes.len() <= MAX_FLOW_MINUTES ==> final(state).flow_minutes.len()
            <= MAX_FLOW_MINUTES,
        sound_state(*old(state)) ==> sound_state(*final(state)),
{
    state.keyboard_actions = state.keyboard_actions.saturating_add(sample.key_presses);
    let mut pointer_actions: u32 = 0;
    if sample.pointer_moved {
        state.mouse_actions = state.mouse_actions.saturating_add(1);
        pointer_actions = pointer_actions + 1;
    }
    if sample.click_started {
        state.mouse_clicks = state.mouse_clicks.saturating_add(1);
        pointer_actions = pointer_actions + 1;
    }
    let seen = sample.key_presses > 0 || sample.click_started || sample.pointer_moved;
    let r = record_flow_input(state, minute_key, sample.key_presses, pointer_actions, sample.pointer_moved);
    if seen {
        state.last_input_at = Some(now_text);
        state.last_input_age_seconds = 0;
    } else {
        state.last_input_age_seconds = sample.idle_age_seconds;
    }
    r
}

/// The window in the foreground: an identity that changes with the window,
/// its application, its title, and whether its process could be resolved.
pub struct ForegroundWindow {
    pub identity: String,
    pub app: String,
    pub title: String,
    pub process_resolved: bool,
}

/// What an unidentifiable foreground window is shown as.
pub open spec fn unidentified_window() -> Seq<char> {
    "활성 창을 식별할 수 없음"@
}

/// The entry of the foreground application after a sample: its entry
/// before (`None` when it had none) brought up to date (active time at least
/// its whole seconds, an informative title taken), one more activation on a
/// switch, and outside idleness `elapsed_ms` more focus, its whole seconds
/// following its milliseconds.
pub open spec fn sampled_entry(
    e: AppActivity,
    before: Option<AppActivity>,
    w: ForegroundWindow,
    switched: bool,
    idle: bool,
    elapsed_ms: u64,
) -> bool {
    let start_millis: int = match before {
        Some(b) => if b.active_millis < cap(b.seconds * 1000, u64::MAX as int) {
            cap(b.seconds * 1000, u64::MAX as int)
        } else {
            b.active_millis as int
        },
        None => 0,
    };
    let start_seconds: int = match before {
        Some(b) => b.seconds as int,
        None => 0,
    };
    let start_activations: int = match before {
        Some(b) => b.activations as int,
        None => 0,
    };
    let start_title = match before {
        Some(b) => if informative_title(w.title@) {
            w.title@
        } else {
            b.title@
        },
        None => w.title@,
    };
    &&& e.app@ == w.app@
    &&& e.title@ == start_title
    &&& e.activations == if switched {
        cap(start_activations + 1, u64::MAX as int)
    } else {
        start_activations
    }
    &&& e.active_millis == if idle {
        start_millis
    } else {
        cap(start_millis + elapsed_ms, u64::MAX as int)
    }
    &&& e.seconds == if idle {
        start_seconds
    } else {
        (e.active_millis / 1000) as int
    }
}

/// Records a foreground sample taken at `now_text`: a change of window
/// (identity unlike `previous_identity`) counts as a switch of context, is
/// added to the timeline, to the flow minute `minute_key` and to the
/// application's activations; outside idleness the application gains
/// `elapsed_ms` of focus. Without a foreground window the active window is
/// shown as unidentifiable and the previous identity is forgotten.
pub fn record_foreground_sample(
    state: &mut TrackingState,
    window: Option<ForegroundWindow>,
    previous_identity: &mut String,
    idle: bool,
    elapsed_ms: u64,
    minute_key: String,
    now_text: String,
)
    ensures
        match window {
            None => {
                &&& final(state).active_window@ == unidentified_window()
                &&& final(previous_identity)@.len() == 0
                &&& *final(state) == (TrackingState { active_window: final(state).active_window, ..*old(state) })
            },
            Some(w) => {
                let switched = w.identity@ != old(previous_identity)@;
                &&& final(state).active_window == w.app
                &&& switched ==> {
                    &&& final(previous_identity)@ == w.identity@
                    &&& final(state).unresolved_window_count == if w.process_resolved {
                        old(state).unresolved_window_count as int
                    } else {
                        cap(old(state).unresolved_window_count + 1, u64::MAX as int)
                    }
                    &&& final(state).app_activation_count == cap(old(state).app_activation_count + 1, u64::MAX as int)
                    &&& final(state).context_switches == cap(old(state).context_switches + 1, u64::MAX as int)
                    &&& final(state).current_session_switches == cap(old(state).current_session_switches + 1, u64::MAX as int)
                    &&& final(state).current_session_apps@ == if holds_app(old(state).current_session_apps@, w.app@) {
                        old(state).current_session_apps@
                    } else {
                        old(state).current_session_apps@.push(w.app)
                    }
                    &&& final(state).timeline.len() >= 1
                    &&& final(state).timeline@.last().kind@ == "app_switch"@
                    &&& final(state).timeline@.last().app == w.app
                    &&& final(state).timeline@.last().title == w.title
                    &&& final(state).timeline@.last().at == now_text
                    &&& ({
                        let mid = minutes_with_key(old(state).flow_minutes@, minute_key);
                        let i = key_position(old(state).flow_minutes@, minute_key);
                        &&& final(state).flow_minutes@ == mid.update(
                            i,
                            FlowMinute {
                                switch_count: cap(mid[i].switch_count + 1, u16::MAX as int) as u16,
                                ..mid[i]
                            },
                        )
                    })
                }
                &&& !switched ==> {
                    &&& final(previous_identity)@ == old(previous_identity)@
                    &&& final(state).context_switches == old(state).context_switches
                    &&& final(state).timeline@ == old(state).timeline@
                    &&& final(state).flow_minutes@ == old(state).flow_minutes@
                    &&& final(state).current_session_apps@ == old(state).current_session_apps@
                }
                &&& !(switched || !idle) ==> final(state).apps@ == old(state).apps@
                &&& (switched || !idle) ==> {
                    let found = app_position(old(state).apps@, w.app@);
                    let pos = match found {
                        Some(k) => k,
                        None => old(state).apps.len() as int,
                    };
                    let before = match found {
                        Some(k) => Some(old(state).apps@[k]),
                        None => None::<AppActivity>,
                    };
                    &&& final(state).apps.len() == if found is Some {
                        old(state).apps.len() as int
                    } else {
                        old(state).apps.len() + 1
                    }
                    &&& forall|k: int|
                        0 <= k < old(state).apps.len() && k != pos ==> #[trigger] final(state).apps@[k]
                            == old(state).apps@[k]
                    &&& sampled_entry(final(state).apps@[pos], before, w, switched, idle, elapsed_ms)
                }
                &&& switched ==> final(state).timeline@ == appended_bounded(
                    old(state).timeline@,
                    final(state).timeline@.last(),
                    MAX_TIMELINE as int,
                )
                &&& *final(state) == (TrackingState {
                    active_window: final(state).active_window,
                    unresolved_window_count: final(state).unresolved_window_count,
                    app_activation_count: final(state).app_activation_count,
                    context_switches: final(state).context_switches,
                    current_session_switches: final(state).current_session_switches,
                    current_session_apps: final(state).current_session_apps,
                    timeline: final(state).timeline,
                    flow_minutes: final(state).flow_minutes,
                    apps: final(state).apps,
                    ..*old(state)
                })
            },
        },
        unique_minute_keys(old(state).flow_minutes@) ==> unique_minute_keys(final(state).flow_minutes@),
        unique_app_names(old(state).apps@) ==> unique_app_names(final(state).apps@),
        old(state).flow_minutes.len() <= MAX_FLOW_MINUTES ==> final(state).flow_minutes.len()
            <= MAX_FLOW_MINUTES,
        old(state).timeline.len() <= MAX_TIMELINE ==> final(state).timeline.len() <= MAX_TIMELINE,
        sound_state(*old(state)) ==> sound_state(*final(state)),
{
    match window {
        Some(w) => {
            let switched = !text_equals(w.identity.as_str(), previous_identity.as_str());
            state.active_window = w.app.clone();
            if switched {
                if !w.process_resolved {
                    state.unresolved_window_count = state.unresolved_window_count.saturating_add(1);
                }
                state.app_activation_count = state.app_activation_count.saturating_add(1);
                state.context_switches = state.context_switches.saturating_add(1);
                state.current_session_switches = state.current_session_switches.saturating_add(1);
                if !contains_app(&state.current_session_apps, w.app.as_str()) {
                    state.current_session_apps.push(w.app.clone());
                }
                record_event(state, now_text, w.app.clone(), w.title.clone(), "app_switch");
                let ghost before_minutes = state.flow_minutes@;
                let index = flow_minute_for(state, minute_key);
                let m = &state.flow_minutes[index];
                let updated = FlowMinute {
                    start_at: m.start_at.clone(),
                    switch_count: m.switch_count.saturating_add(1),
                    observed_seconds: m.observed_seconds,
                    focus_seconds: m.focus_seconds,
                    idle_seconds: m.idle_seconds,
                    keyboard_actions: m.keyboard_actions,
                    mouse_actions: m.mouse_actions,
                    mouse_distance_px_bits: m.mouse_distance_px_bits,
                };
                state.flow_minutes.set(index, updated);
                *previous_identity = w.identity;
            }
            if switched || !idle {
                let ghost apps_before = state.apps@;
                let position = crate::activity::ensure_app(state, w.app.as_str(), w.title.as_str());
                let item = &state.apps[position];
                let active_millis = if idle {
                    item.active_millis
                } else {
                    item.active_millis.saturating_add(elapsed_ms)
                };
                let updated = AppActivity {
                    app: item.app.clone(),
                    title: item.title.clone(),
                    seconds: if idle {
                        item.seconds
                    } else {
                        active_millis / 1000
                    },
                    active_millis,
                    activations: if switched {
                        item.activations.saturating_add(1)
                    } else {
                        item.activations
                    },
                };
                let ghost mid = state.apps@;
                state.apps.set(position, updated);
                proof {
                    lemma_app_position(apps_before, w.app@);
                    if app_position(apps_before, w.app@) is None {
                        assert(mid == apps_before.push(mid.last()));
                        assert(forall|k: int| 0 <= k < apps_before.len() ==> mid[k] == apps_before[k]);
                    }
                    if unique_app_names(apps_before) {
                        crate::laws::app_entries_stay_unique(mid, state.apps@);
                    }
                }
            }
        },
        None => {
            state.active_window = owned("활성 창을 식별할 수 없음");
            *previous_identity = String::new();
        },
    }
}

/// The flow minute `m` after one more observed second, idle or focused.
pub open spec fn observed_second(m: FlowMinute, idle: bool) -> FlowMinute {
    FlowMinute {
        observed_seconds: cap(m.observed_seconds + 1, u16::MAX as int) as u16,
        idle_seconds: if idle {
            cap(m.idle_seconds + 1, u16::MAX as int) as u16
        } else {
            m.idle_seconds
        },
        focus_seconds: if idle {
            m.focus_seconds
        } else {
            cap(m.focus_seconds + 1, u16::MAX as int) as u16
        },
        ..m
    }
}

/// Records one second, idle or focused, at hour `hour` of the day, in the
/// flow minute `minute_key`, at `now` (Unix time `now_unix`, written
/// `now_text`). Focus without a running session starts one (and may close a
/// pending break into a re-entry episode); idleness during a session ends
/// it (and, with reports on, marks a pending break). Re-entry episodes are
/// then brought up to date.
pub fn record_second(
    state: &mut TrackingState,
    idle: bool,
    hour: usize,
    minute_key: String,
    now_unix: i64,
    now_text: String,
)
    requires
        hour < 24,
    ensures
        final(state).idle_seconds == if idle {
            cap(old(state).idle_seconds + 1, u64::MAX as int)
        } else {
            old(state).idle_seconds as int
        },
        final(state).focus_seconds == if idle {
            old(state).focus_seconds as int
        } else {
            cap(old(state).focus_seconds + 1, u64::MAX as int)
        },
        forall|h: int|
            0 <= h < 24 ==> #[trigger] final(state).hourly_focus@[h] == if !idle && h == hour {
                cap(old(state).hourly_focus@[h] + 1, u64::MAX as int)
            } else {
                old(state).hourly_focus@[h] as int
            },
        ({
            let mid = minutes_with_key(old(state).flow_minutes@, minute_key);
            let i = key_position(old(state).flow_minutes@, minute_key);
            final(state).flow_minutes@ == mid.update(i, observed_second(mid[i], idle))
        }),
        ({
            let mid = minutes_with_key(old(state).flow_minutes@, minute_key);
            let i = key_position(old(state).flow_minutes@, minute_key);
            &&& final(state).flow_minutes@[i].observed_seconds == cap(mid[i].observed_seconds + 1, u16::MAX as int)
            &&& final(state).flow_minutes@[i].idle_seconds + final(state).flow_minutes@[i].focus_seconds
                >= mid[i].idle_seconds + mid[i].focus_seconds
        }),
        !idle && old(state).current_session_started_at is None ==> {
            &&& final(state).current_session_started_at == Some(now_text)
            &&& final(state).resume_latency_seconds == old(state).last_input_age_seconds
            &&& final(state).current_session_active_seconds == cap(
                old(state).current_session_active_seconds + 1,
                u64::MAX as int,
            )
            &&& final(state).timeline.len() >= 1
            &&& final(state).timeline@.last().kind@ == "session_start"@
            &&& final(state).timeline@.last().at == now_text
            &&& final(state).timeline@.last().app == old(state).active_window
            &&& final(state).timeline@ == appended_bounded(
                old(state).timeline@,
                final(state).timeline@.last(),
                MAX_TIMELINE as int,
            )
            &&& final(state).sessions@ == old(state).sessions@
        },
        idle && old(state).current_session_started_at is Some ==> {
            &&& final(state).current_session_started_at is None
            &&& final(state).sessions.len() >= 1
            &&& final(state).sessions@.last().end_reason matches Some(r) && r@ == "idle"@
            &&& final(state).sessions@.last().started_at == old(state).current_session_started_at->0
            &&& final(state).sessions@.last().idle_seconds == cap(
                old(state).current_session_idle_seconds + 1,
                u64::MAX as int,
            )
            &&& final(state).sessions@.last().active_seconds == old(state).current_session_active_seconds
            &&& final(state).sessions@.last().ended_at == Some(now_text)
            &&& final(state).sessions@.last().switch_count == old(state).current_session_switches
            &&& final(state).sessions@.last().app_count == old(state).current_session_apps.len() as u64
            &&& final(state).sessions@ == appended_bounded(
                old(state).sessions@,
                final(state).sessions@.last(),
                MAX_SESSIONS as int,
            )
            &&& final(state).current_session_active_seconds == 0
            &&& final(state).current_session_idle_seconds == 0
            &&& final(state).current_session_switches == 0
            &&& final(state).current_session_apps.len() == 0
            &&& final(state).timeline.len() >= 1
            &&& final(state).timeline@.last().kind@ == "session_end_idle"@
            &&& final(state).timeline@.last().at == now_text
            &&& final(state).timeline@.last().app == old(state).active_window
            &&& final(state).timeline@ == appended_bounded(
                old(state).timeline@,
                final(state).timeline@.last(),
                MAX_TIMELINE as int,
            )
            &&& final(state).pending_reentry == if old(state).report_settings.enabled {
                Some(PendingReentry { break_started_at: now_text })
            } else {
                old(state).pending_reentry
            }
        },
        !idle && old(state).current_session_started_at is Some ==> {
            &&& final(state).current_session_started_at == old(state).current_session_started_at
            &&& final(state).current_session_active_seconds == cap(
                old(state).current_session_active_seconds + 1,
                u64::MAX as int,
            )
            &&& final(state).sessions@ == old(state).sessions@
            &&& final(state).timeline@ == old(state).timeline@
        },
        idle && old(state).current_session_started_at is None ==> {
            &&& final(state).current_session_started_at is None
            &&& final(state).current_session_idle_seconds == cap(
                old(state).current_session_idle_seconds + 1,
                u64::MAX as int,
            )
            &&& final(state).sessions@ == old(state).sessions@
            &&& final(state).timeline@ == old(state).timeline@
        },
        !(idle && old(state).current_session_started_at is Some) ==> final(state).current_session_switches
            == old(state).current_session_switches && final(state).current_session_apps@ == old(
            state,
        ).current_session_apps@,
        !idle ==> final(state).current_session_idle_seconds == old(state).current_session_idle_seconds,
        idle && old(state).current_session_started_at is None ==> final(state).current_session_active_seconds
            == old(state).current_session_active_seconds,
        final(state).apps@ == old(state).apps@,
        final(state).enabled == old(state).enabled,
        final(state).report_settings == old(state).report_settings,
        final(state).collection_day == old(state).collection_day,
        unique_minute_keys(old(state).flow_minutes@) ==> unique_minute_keys(final(state).flow_minutes@),
        old(state).flow_minutes.len() <= MAX_FLOW_MINUTES ==> final(state).flow_minutes.len()
            <= MAX_FLOW_MINUTES,
        old(state).timeline.len() <= MAX_TIMELINE ==> final(state).timeline.len() <= MAX_TIMELINE,
        old(state).sessions.len() <= MAX_SESSIONS ==> final(state).sessions.len() <= MAX_SESSIONS,
        old(state).reentry_episodes.len() <= MAX_REENTRY_EPISODES ==> final(state).reentry_episodes.len()
            <= MAX_REENTRY_EPISODES,
        breaks_in_window(old(state).reentry_episodes@) ==> breaks_in_window(final(state).reentry_episodes@),
        !(!idle && old(state).current_session_started_at is None) ==> {
            &&& final(state).resume_latency_seconds == old(state).resume_latency_seconds
            &&& final(state).reentry_episodes.len() == old(state).reentry_episodes.len()
            &&& forall|k: int|
                0 <= k < old(state).reentry_episodes.len() ==> #[trigger] final(state).reentry_episodes@[k]
                    == refreshed(old(state).reentry_episodes@[k], final(state).flow_minutes@, now_unix)
        },
        !idle && old(state).current_session_started_at is Some || idle && old(state).current_session_started_at is None
            ==> final(state).pending_reentry == old(state).pending_reentry,
        *final(state) == (TrackingState {
            idle_seconds: final(state).idle_seconds,
            focus_seconds: final(state).focus_seconds,
            hourly_focus: final(state).hourly_focus,
            flow_minutes: final(state).flow_minutes,
            resume_latency_seconds: final(state).resume_latency_seconds,
            current_session_started_at: final(state).current_session_started_at,
            current_session_active_seconds: final(state).current_session_active_seconds,
            current_session_idle_seconds: final(state).current_session_idle_seconds,
            current_session_switches: final(state).current_session_switches,
            current_session_apps: final(state).current_session_apps,
            timeline: final(state).timeline,
            sessions: final(state).sessions,
            pending_reentry: final(state).pending_reentry,
            reentry_episodes: final(state).reentry_episodes,
            ..*old(state)
        }),
        sound_state(*old(state)) ==> sound_state(*final(state)),
{
    let ghost key = minute_key;
    if idle {
        state.idle_seconds = state.idle_seconds.saturating_add(1);
        state.current_session_idle_seconds = state.current_session_idle_seconds.saturating_add(1);
    } else {
        state.focus_seconds = state.focus_seconds.saturating_add(1);
        state.current_session_active_seconds = state.current_session_active_seconds.saturating_add(1);
        let h = state.hourly_focus[hour].saturating_add(1);
        state.hourly_focus[hour] = h;
    }
    let index = flow_minute_for(state, minute_key);
    let m = &state.flow_minutes[index];
    let updated = FlowMinute {
        start_at: m.start_at.clone(),
        observed_seconds: m.observed_seconds.saturating_add(1),
        idle_seconds: if idle {
            m.idle_seconds.saturating_add(1)
        } else {
            m.idle_seconds
        },
        focus_seconds: if idle {
            m.focus_seconds
        } else {
            m.focus_seconds.saturating_add(1)
        },
        switch_count: m.switch_count,
        keyboard_actions: m.keyboard_actions,
        mouse_actions: m.mouse_actions,
        mouse_distance_px_bits: m.mouse_distance_px_bits,
    };
    state.flow_minutes.set(index, updated);
    let active_app = state.active_window.clone();
    if !idle && state.current_session_started_at.is_none() {
        state.resume_latency_seconds = state.last_input_age_seconds;
        state.current_session_started_at = Some(now_text.clone());
        begin_reentry_episode(state, now_unix, now_text.clone());
        record_event(state, now_text.clone(), active_app.clone(), active_app, "session_start");
    } else if idle && state.current_session_started_at.is_some() {
        record_event(state, now_text.clone(), active_app.clone(), active_app, "session_end_idle");
        close_current_session(state, now_text.clone(), "idle");
        begin_pending_reentry(state, now_text);
    }
    refresh_reentry_episodes(state, now_unix);
    proof {
        crate::laws::every_recorded_second_is_observed(
            minutes_with_key(old(state).flow_minutes@, key)[key_position(old(state).flow_minutes@, key)],
            idle,
        );
    }
}

/// The wheel notches of a wheel event: the high 16 bits of `mouse_data`
/// are the signed wheel delta, counted in notches of 120, rounded up.
pub open spec fn notches_of(mouse_data: u32) -> int {
    let raw = (mouse_data >> 16u32) as int;
    let delta = if raw >= 32768 {
        raw - 65536
    } else {
        raw
    };
    let magnitude = if delta < 0 {
        -delta
    } else {
        delta
    };
    (magnitude + 119) / 120
}

/// The number of wheel notches of a wheel event's `mouse_data`.
pub fn wheel_notches(mouse_data: u32) -> (r: u64)
    ensures
        r == notches_of(mouse_data),
{
    let raw: u32 = mouse_data >> 16u32;
    assert(raw == mouse_data >> 16u32);
    assert(raw < 65536) by (bit_vector)
        requires raw == mouse_data >> 16u32;
    let magnitude: u64 = if raw >= 32768 {
        (65536 - raw) as u64
    } else {
        raw as u64
    };
    (magnitude + 119) / 120
}

/// Records `notches` wheel notches at `now_text` in the flow minute
/// `minute_key`, while tracking is on.
pub fn record_wheel(state: &mut TrackingState, notches: u64, minute_key: String, now_text: String)
    ensures
        !old(state).enabled || notches == 0 ==> *final(state) == *old(state),
        old(state).enabled && notches > 0 ==> {
            let mid = minutes_with_key(old(state).flow_minutes@, minute_key);
            let i = key_position(old(state).flow_minutes@, minute_key);
            &&& final(state).mouse_wheel_notches == cap(old(state).mouse_wheel_notches + notches, u64::MAX as int)
            &&& final(state).mouse_actions == cap(old(state).mouse_actions + notches, u64::MAX as int)
            &&& final(state).flow_minutes@ == mid.update(
                i,
                crate::activity::with_inputs(mid[i], 0, cap(notches as int, u32::MAX as int) as u32),
            )
            &&& final(state).last_input_at == Some(now_text)
            &&& final(state).last_input_age_seconds == 0
            &&& *final(state) == (TrackingState {
                mouse_wheel_notches: final(state).mouse_wheel_notches,
                mouse_actions: final(state).mouse_actions,
                flow_minutes: final(state).flow_minutes,
                last_input_at: final(state).last_input_at,
                last_input_age_seconds: final(state).last_input_age_seconds,
                ..*old(state)
            })
        },
        unique_minute_keys(old(state).flow_minutes@) ==> unique_minute_keys(final(state).flow_minutes@),
        old(state).flow_minutes.len() <= MAX_FLOW_MINUTES ==> final(state).flow_minutes.len()
            <= MAX_FLOW_MINUTES,
        sound_state(*old(state)) ==> sound_state(*final(state)),
{
    if !state.enabled || notches == 0 {
        return;
    }
    state.mouse_wheel_notches = state.mouse_wheel_notches.saturating_add(notches);
    state.mouse_actions = state.mouse_actions.saturating_add(notches);
    let pointer: u32 = if notches > u32::MAX as u64 {
        u32::MAX
    } else {
        notches as u32
    };
    record_flow_input(state, minute_key, 0, pointer, false);
    state.last_input_at = Some(now_text);
    state.last_input_age_seconds = 0;
}

/// Records the minute's counters: the number of visible windows and the
/// bytes received and sent since the last minute.
pub fn record_minute_counters(state: &mut TrackingState, visible_windows: u64, received: u64, sent: u64)
    ensures
        *final(state) == (TrackingState {
            active_app_count: visible_windows,
            network_rx_bytes: cap(old(state).network_rx_bytes + received, u64::MAX as int) as u64,
            network_tx_bytes: cap(old(state).network_tx_bytes + sent, u64::MAX as int) as u64,
            ..*old(state)
        }),
        sound_state(*old(state)) ==> sound_state(*final(state)),
{
    state.active_app_count = visible_windows;
    state.network_rx_bytes = state.network_rx_bytes.saturating_add(received);
    state.network_tx_bytes = state.network_tx_bytes.saturating_add(sent);
}

} // verus!
