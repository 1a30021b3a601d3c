//! Recording activity into the tracker's state: timeline events, sessions,
//! applications and flow minutes.
use vstd::prelude::*;
use crate::laws::sound_state;
use crate::flow::{cap, FlowMinute};
use crate::records::{AppActivity, TimelineEvent, WorkSession};
use crate::state::TrackingState;
use crate::laws::{
    app_entries_stay_unique, flow_minute_lookup_is_idempotent, unique_app_names, unique_minute_keys,
    updating_a_minute_keeps_keys,
};
use crate::text::{owned, text_equals};

verus! {

broadcast use vstd::string::group_string_axioms;

/// The most timeline events kept.
pub const MAX_TIMELINE: usize = 10000;

/// The most completed sessions kept.
pub const MAX_SESSIONS: usize = 500;

/// The most flow minutes kept (one day).
pub const MAX_FLOW_MINUTES: usize = 1440;

/// The most minute snapshots kept (thirty days of minutes).
pub const MAX_MINUTE_SNAPSHOTS: usize = 43200;

/// `after` is `before` with `item` appended, the oldest entry dropped when
/// that makes more than `max`.
pub open spec fn appended_bounded<T>(before: Seq<T>, item: T, max: int) -> Seq<T> {
    if before.len() + 1 > max {
        before.push(item).drop_first()
    } else {
        before.push(item)
    }
}

/// Appends `item`, dropping the oldest entry when more than `max` would
/// remain.
pub fn push_bounded<T>(items: &mut Vec<T>, item: T, max: usize)
    ensures
        final(items)@ == appended_bounded(old(items)@, item, max as int),
{
    items.push(item);
    if items.len() > max {
        items.remove(0);
    }
}

/// Adds an event to the timeline, dropping the oldest beyond `MAX_TIMELINE`.
pub fn record_event(state: &mut TrackingState, at: String, app: String, title: String, kind: &str)
    ensures
        final(state).timeline.len() >= 1,
        final(state).timeline@.last().at == at,
        final(state).timeline@.last().app == app,
        final(state).timeline@.last().title == title,
        final(state).timeline@.last().kind@ == kind@,
        final(state).timeline@ == appended_bounded(
            old(state).timeline@,
            final(state).timeline@.last(),
            MAX_TIMELINE as int,
        ),
        old(state).timeline.len() <= MAX_TIMELINE ==> final(state).timeline.len() <= MAX_TIMELINE,
        *final(state) == (TrackingState { timeline: final(state).timeline, ..*old(state) }),
        sound_state(*old(state)) ==> sound_state(*final(state)),
{
    let event = TimelineEvent { at, app, title, kind: owned(kind) };
    push_bounded(&mut state.timeline, event, MAX_TIMELINE);
}

/// The session that closing the running one records.
pub open spec fn closed_session(state: TrackingState, ended_at: String, end_reason: Seq<char>, session: WorkSession) -> bool {
    &&& session.started_at == state.current_session_started_at->0
    &&& session.ended_at == Some(ended_at)
    &&& session.active_seconds == state.current_session_active_seconds
    &&& session.idle_seconds == state.current_session_idle_seconds
    &&& session.switch_count == state.current_session_switches
    &&& session.app_count == state.current_session_apps.len() as u64
    &&& session.end_reason matches Some(r) && r@ == end_reason
}

/// Closes the running session, if any, at `ended_at` for `end_reason`: it
/// joins the completed sessions (the oldest dropped beyond `MAX_SESSIONS`).
/// The running session's counters are reset either way.
pub fn close_current_session(state: &mut TrackingState, ended_at: String, end_reason: &str)
    ensures
        final(state).current_session_started_at is None,
        final(state).current_session_active_seconds == 0,
        final(state).current_session_idle_seconds == 0,
        final(state).current_session_switches == 0,
        final(state).current_session_apps.len() == 0,
        old(state).current_session_started_at is None ==> final(state).sessions@ == old(
            state,
        ).sessions@,
        old(state).current_session_started_at is Some ==> {
            &&& final(state).sessions.len() >= 1
            &&& closed_session(*old(state), ended_at, end_reason@, final(state).sessions@.last())
            &&& final(state).sessions@ == appended_bounded(
                old(state).sessions@,
                final(state).sessions@.last(),
                MAX_SESSIONS as int,
            )
        },
        old(state).sessions.len() <= MAX_SESSIONS ==> final(state).sessions.len() <= MAX_SESSIONS,
        *final(state) == (TrackingState {
            sessions: final(state).sessions,
            current_session_started_at: final(state).current_session_started_at,
            current_session_active_seconds: final(state).current_session_active_seconds,
            current_session_idle_seconds: final(state).current_session_idle_seconds,
            current_session_switches: final(state).current_session_switches,
            current_session_apps: final(state).current_session_apps,
            ..*old(state)
        }),
        sound_state(*old(state)) ==> sound_state(*final(state)),
{
    let started = state.current_session_started_at.take();
    match started {
        Some(started_at) => {
            let session = WorkSession {
                started_at,
                ended_at: Some(ended_at),
                active_seconds: state.current_session_active_seconds,
                idle_seconds: state.current_session_idle_seconds,
                switch_count: state.current_session_switches,
                app_count: state.current_session_apps.len() as u64,
                end_reason: Some(owned(end_reason)),
            };
            push_bounded(&mut state.sessions, session, MAX_SESSIONS);
        },
        None => {},
    }
    state.current_session_active_seconds = 0;
    state.current_session_idle_seconds = 0;
    state.current_session_switches = 0;
    state.current_session_apps.clear();
}

/// The title shown for an application: a new, non-empty title other than
/// the placeholder for an untitled window replaces the old one.
pub open spec fn informative_title(title: Seq<char>) -> bool {
    title.len() > 0 && title != "제목 없음"@
}

/// The first entry for the application `app_name`.
pub open spec fn app_position(apps: Seq<AppActivity>, app_name: Seq<char>) -> Option<int>
    decreases apps.len(),
{
    if apps.len() == 0 {
        None
    } else {
        match app_position(apps.drop_last(), app_name) {
            Some(i) => Some(i),
            None => if apps.last().app@ == app_name {
                Some(apps.len() - 1)
            } else {
                None
            },
        }
    }
}

pub proof fn lemma_app_position(apps: Seq<AppActivity>, app_name: Seq<char>)
    ensures
        app_position(apps, app_name) matches Some(i) ==> 0 <= i < apps.len() && apps[i].app@
            == app_name && forall|k: int| 0 <= k < i ==> apps[k].app@ != app_name,
        app_position(apps, app_name) is None ==> forall|k: int|
            0 <= k < apps.len() ==> apps[k].app@ != app_name,
    decreases apps.len(),
{
    if apps.len() > 0 {
        let prev = apps.drop_last();
        lemma_app_position(prev, app_name);
        assert(forall|k: int| 0 <= k < prev.len() ==> prev[k] == apps[k]);
    }
}

/// An existing entry brought up to date: its active time is at least its
/// whole seconds, and an informative title replaces the old one.
pub open spec fn refreshed_app(item: AppActivity, title: Seq<char>, new_title: String) -> AppActivity {
    AppActivity {
        active_millis: if item.active_millis < cap(item.seconds * 1000, u64::MAX as int) {
            cap(item.seconds * 1000, u64::MAX as int) as u64
        } else {
            item.active_millis
        },
        title: if informative_title(title) {
            new_title
        } else {
            item.title
        },
        ..item
    }
}

/// `seconds * 1000`, held at `u64::MAX`.
pub fn millis_of_seconds(seconds: u64) -> (r: u64)
    ensures
        r == cap(seconds * 1000, u64::MAX as int),
{
    if seconds > u64::MAX / 1000 {
        u64::MAX
    } else {
        seconds * 1000
    }
}

/// The entry of the application `app_name`, created when missing; returns
/// its position.
pub fn ensure_app(state: &mut TrackingState, app_name: &str, title: &str) -> (r: usize)
    ensures
        r < final(state).apps.len(),
        final(state).apps@[r as int].app@ == app_name@,
        match app_position(old(state).apps@, app_name@) {
            Some(i) => {
                &&& r == i
                &&& final(state).apps.len() == old(state).apps.len()
                &&& final(state).apps@[r as int] == refreshed_app(
                    old(state).apps@[i],
                    title@,
                    final(state).apps@[r as int].title,
                )
                &&& informative_title(title@) ==> final(state).apps@[r as int].title@ == title@
                &&& forall|k: int|
                    0 <= k < old(state).apps.len() && k != i ==> final(state).apps@[k] == old(
                        state,
                    ).apps@[k]
            },
            None => {
                &&& final(state).apps@ == old(state).apps@.push(final(state).apps@.last())
                &&& r == old(state).apps.len()
                &&& final(state).apps@[r as int].title@ == title@
                &&& final(state).apps@[r as int].seconds == 0
                &&& final(state).apps@[r as int].active_millis == 0
                &&& final(state).apps@[r as int].activations == 0
            },
        },
        unique_app_names(old(state).apps@) ==> unique_app_names(final(state).apps@),
        *final(state) == (TrackingState { apps: final(state).apps, ..*old(state) }),
        sound_state(*old(state)) ==> sound_state(*final(state)),
{
    proof {
        lemma_app_position(state.apps@, app_name@);
    }
    let mut i: usize = 0;
    while i < state.apps.len()
        invariant
            i <= state.apps.len(),
            state.apps@ == old(state).apps@,
            *state == *old(state),
            forall|k: int| 0 <= k < i ==> state.apps@[k].app@ != app_name@,
        decreases state.apps.len() - i,
    {
        if text_equals(state.apps[i].app.as_str(), app_name) {
            proof {
                lemma_app_position(old(state).apps@, app_name@);
                match app_position(old(state).apps@, app_name@) {
                    Some(j) => {
                        if j < i {
                        } else if j > i {
                        }
                    },
                    None => {},
                }
            }
            let item = &state.apps[i];
            let floor = millis_of_seconds(item.seconds);
            let active_millis = if item.active_millis < floor {
                floor
            } else {
                item.active_millis
            };
            let new_title = if !title.is_empty() && !text_equals(title, "제목 없음") {
                owned(title)
            } else {
                item.title.clone()
            };
            let updated = AppActivity {
                app: item.app.clone(),
                title: new_title,
                seconds: item.seconds,
                active_millis,
                activations: item.activations,
            };
            state.apps.set(i, updated);
            proof {
                if unique_app_names(old(state).apps@) {
                    app_entries_stay_unique(old(state).apps@, state.apps@);
                }
            }
            return i;
        }
        i = i + 1;
    }
    proof {
        lemma_app_position(old(state).apps@, app_name@);
    }
    state.apps.push(
        AppActivity {
            app: owned(app_name),
            title: owned(title),
            seconds: 0,
            active_millis: 0,
            activations: 0,
        },
    );
    proof {
        if unique_app_names(old(state).apps@) {
            app_entries_stay_unique(old(state).apps@, state.apps@);
        }
    }
    i
}

/// Adds `elapsed_ms` of focus to the application `app_name` (counting an
/// activation when `activated`); its whole seconds follow its milliseconds.
pub fn record_app_focus(state: &mut TrackingState, app_name: &str, title: &str, elapsed_ms: u64, activated: bool) -> (r: usize)
    ensures
        r < final(state).apps.len(),
        ({
            let item = final(state).apps@[r as int];
            let base = match app_position(old(state).apps@, app_name@) {
                Some(k) => refreshed_app(old(state).apps@[k], title@, item.title),
                None => AppActivity {
                    app: item.app,
                    title: item.title,
                    seconds: 0,
                    active_millis: 0,
                    activations: 0,
                },
            };
            &&& item.app@ == app_name@
            &&& item.activations == if activated {
                cap(base.activations + 1, u64::MAX as int)
            } else {
                base.activations as int
            }
            &&& item.active_millis == cap(base.active_millis + elapsed_ms, u64::MAX as int)
            &&& item.seconds == item.active_millis / 1000
            &&& item.title == base.title
            &&& informative_title(title@) ==> item.title@ == title@
        }),
        match app_position(old(state).apps@, app_name@) {
            Some(k) => r == k && final(state).apps.len() == old(state).apps.len() && forall|j: int|
                0 <= j < old(state).apps.len() && j != k ==> final(state).apps@[j] == old(
                    state,
                ).apps@[j],
            None => r == old(state).apps.len() && final(state).apps.len() == old(state).apps.len()
                + 1 && forall|j: int|
                0 <= j < old(state).apps.len() ==> final(state).apps@[j] == old(state).apps@[j],
        },
        unique_app_names(old(state).apps@) ==> unique_app_names(final(state).apps@),
        *final(state) == (TrackingState { apps: final(state).apps, ..*old(state) }),
        sound_state(*old(state)) ==> sound_state(*final(state)),
{
    let index = ensure_app(state, app_name, title);
    let item = &state.apps[index];
    let activations = if activated {
        item.activations.saturating_add(1)
    } else {
        item.activations
    };
    let active_millis = item.active_millis.saturating_add(elapsed_ms);
    let updated = AppActivity {
        app: item.app.clone(),
        title: item.title.clone(),
        seconds: active_millis / 1000,
        active_millis,
        activations,
    };
    let ghost mid = state.apps@;
    state.apps.set(index, updated);
    proof {
        assert(state.apps@[index as int] == updated);
        if app_position(old(state).apps@, app_name@) is None {
            assert(forall|j: int| 0 <= j < old(state).apps.len() ==> mid[j] == old(state).apps@[j]) by {
                assert(mid == old(state).apps@.push(mid.last()));
            }
        }
        if unique_app_names(mid) {
            app_entries_stay_unique(mid, state.apps@);
        }
    }
    index
}

/// The first flow minute that starts at `key`.
pub open spec fn minute_position(minutes: Seq<FlowMinute>, key: Seq<char>) -> Option<int>
    decreases minutes.len(),
{
    if minutes.len() == 0 {
        None
    } else {
        match minute_position(minutes.drop_last(), key) {
            Some(i) => Some(i),
            None => if minutes.last().start_at@ == key {
                Some(minutes.len() - 1)
            } else {
                None
            },
        }
    }
}

pub proof fn lemma_minute_position(minutes: Seq<FlowMinute>, key: Seq<char>)
    ensures
        minute_position(minutes, key) matches Some(i) ==> 0 <= i < minutes.len()
            && minutes[i].start_at@ == key && forall|k: int|
            0 <= k < i ==> minutes[k].start_at@ != key,
        minute_position(minutes, key) is None ==> forall|k: int|
            0 <= k < minutes.len() ==> minutes[k].start_at@ != key,
    decreases minutes.len(),
{
    if minutes.len() > 0 {
        let prev = minutes.drop_last();
        lemma_minute_position(prev, key);
        assert(forall|k: int| 0 <= k < prev.len() ==> prev[k] == minutes[k]);
    }
}

/// An empty flow minute starting at `key`.
pub open spec fn fresh_minute(key: String) -> FlowMinute {
    FlowMinute {
        start_at: key,
        observed_seconds: 0,
        focus_seconds: 0,
        idle_seconds: 0,
        switch_count: 0,
        keyboard_actions: 0,
        mouse_actions: 0,
        mouse_distance_px_bits: 0,
    }
}

/// The flow minutes after looking up the minute `key`: unchanged when it
/// exists, else with a fresh minute appended (the oldest dropped beyond
/// `MAX_FLOW_MINUTES`).
pub open spec fn minutes_with_key(before: Seq<FlowMinute>, key: String) -> Seq<FlowMinute> {
    match minute_position(before, key@) {
        Some(_) => before,
        None => appended_bounded(before, fresh_minute(key), MAX_FLOW_MINUTES as int),
    }
}

/// Where the minute `key` stands after looking it up.
pub open spec fn key_position(before: Seq<FlowMinute>, key: String) -> int {
    match minute_position(before, key@) {
        Some(i) => i,
        None => minutes_with_key(before, key).len() - 1,
    }
}

/// The position of the flow minute that starts at `key`, created when
/// missing.
pub fn flow_minute_for(state: &mut TrackingState, key: String) -> (r: usize)
    ensures
        r < final(state).flow_minutes.len(),
        final(state).flow_minutes@[r as int].start_at@ == key@,
        final(state).flow_minutes@ == minutes_with_key(old(state).flow_minutes@, key),
        r == key_position(old(state).flow_minutes@, key),
        old(state).flow_minutes.len() <= MAX_FLOW_MINUTES ==> final(state).flow_minutes.len()
            <= MAX_FLOW_MINUTES,
        unique_minute_keys(old(state).flow_minutes@) ==> unique_minute_keys(final(state).flow_minutes@),
        *final(state) == (TrackingState { flow_minutes: final(state).flow_minutes, ..*old(state) }),
        sound_state(*old(state)) ==> sound_state(*final(state)),
{
    let mut i: usize = 0;
    while i < state.flow_minutes.len()
        invariant
            i <= state.flow_minutes.len(),
            *state == *old(state),
            forall|k: int| 0 <= k < i ==> state.flow_minutes@[k].start_at@ != key@,
        decreases state.flow_minutes.len() - i,
    {
        if text_equals(state.flow_minutes[i].start_at.as_str(), key.as_str()) {
            proof {
                lemma_minute_position(old(state).flow_minutes@, key@);
                match minute_position(old(state).flow_minutes@, key@) {
                    Some(j) => {
                        if j < i {
                        } else if j > i {
                        }
                    },
                    None => {},
                }
            }
            return i;
        }
        i = i + 1;
    }
    proof {
        lemma_minute_position(old(state).flow_minutes@, key@);
    }
    let ghost key_value = key;
    let minute = FlowMinute {
        start_at: key,
        observed_seconds: 0,
        focus_seconds: 0,
        idle_seconds: 0,
        switch_count: 0,
        keyboard_actions: 0,
        mouse_actions: 0,
        mouse_distance_px_bits: 0,
    };
    let ghost before = state.flow_minutes@;
    proof {
        assert(minute == fresh_minute(key_value));
    }
    push_bounded(&mut state.flow_minutes, minute, MAX_FLOW_MINUTES);
    proof {
        flow_minute_lookup_is_idempotent(before, key_value);
    }
    state.flow_minutes.len() - 1
}

/// The flow minute `m` with `keyboard_actions` key presses (counted up to
/// `u32::MAX`) and `mouse_actions` pointer actions added, each held at
/// `u32::MAX`.
pub open spec fn with_inputs(m: FlowMinute, keyboard_actions: u64, mouse_actions: u32) -> FlowMinute {
    FlowMinute {
        keyboard_actions: cap(
            m.keyboard_actions + cap(keyboard_actions as int, u32::MAX as int),
            u32::MAX as int,
        ) as u32,
        mouse_actions: cap(m.mouse_actions + mouse_actions, u32::MAX as int) as u32,
        ..m
    }
}

/// Adds input to the flow minute `key`: nothing happens without key
/// presses, pointer actions or pointer movement (`moved`). Returns the
/// position of the minute, to which the caller adds the pointer distance.
pub fn record_flow_input(
    state: &mut TrackingState,
    key: String,
    keyboard_actions: u64,
    mouse_actions: u32,
    moved: bool,
) -> (r: Option<usize>)
    ensures
        keyboard_actions == 0 && mouse_actions == 0 && !moved ==> r is None && *final(state) == *old(
            state,
        ),
        !(keyboard_actions == 0 && mouse_actions == 0 && !moved) ==> {
            let mid = minutes_with_key(old(state).flow_minutes@, key);
            let i = key_position(old(state).flow_minutes@, key);
            &&& r == Some(i as usize)
            &&& 0 <= i < mid.len()
            &&& final(state).flow_minutes@ == mid.update(
                i,
                with_inputs(mid[i], keyboard_actions, mouse_actions),
            )
        },
        unique_minute_keys(old(state).flow_minutes@) ==> unique_minute_keys(final(state).flow_minutes@),
        old(state).flow_minutes.len() <= MAX_FLOW_MINUTES ==> final(state).flow_minutes.len()
            <= MAX_FLOW_MINUTES,
        *final(state) == (TrackingState { flow_minutes: final(state).flow_minutes, ..*old(state) }),
        sound_state(*old(state)) ==> sound_state(*final(state)),
{
    if keyboard_actions == 0 && mouse_actions == 0 && !moved {
        return None;
    }
    let index = flow_minute_for(state, key);
    let ghost mid = state.flow_minutes@;
    let m = &state.flow_minutes[index];
    let keys: u32 = if keyboard_actions > u32::MAX as u64 {
        u32::MAX
    } else {
        keyboard_actions as u32
    };
    let updated = FlowMinute {
        start_at: m.start_at.clone(),
        observed_seconds: m.observed_seconds,
        focus_seconds: m.focus_seconds,
        idle_seconds: m.idle_seconds,
        switch_count: m.switch_count,
        keyboard_actions: m.keyboard_actions.saturating_add(keys),
        mouse_actions: m.mouse_actions.saturating_add(mouse_actions),
        mouse_distance_px_bits: m.mouse_distance_px_bits,
    };
    proof {
        assert(updated == with_inputs(mid[index as int], keyboard_actions, mouse_actions));
        updating_a_minute_keeps_keys(mid, index as int, updated);
    }
    state.flow_minutes.set(index, updated);
    proof {
        assert(state.flow_minutes@ =~= mid.update(index as int, updated));
    }
    Some(index)
}

} // verus!
