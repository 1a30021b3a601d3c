//! The shape of a collection day (its focus by hour, its sessions and the
//! weight of each application), and the change from one day to the next.
use vstd::prelude::*;
use crate::laws::sound_state;
use crate::flow::cap;
use crate::order::{is_ordering, number_precedes, stable_number_order};
use crate::records::AppActivity;
use crate::activity::{close_current_session, millis_of_seconds, MAX_SESSIONS};
use crate::reentry::refresh_reentry_episodes;
use crate::state::TrackingState;
use crate::text::{owned, text_equals};

verus! {

/// `hour` holds the most focus of the day, and no later hour holds as much.
pub open spec fn is_peak_hour(hours: Seq<u64>, hour: int) -> bool {
    &&& 0 <= hour < hours.len()
    &&& forall|h: int| 0 <= h < hours.len() ==> #[trigger] hours[h] <= hours[hour]
    &&& forall|h: int| hour < h < hours.len() ==> #[trigger] hours[h] < hours[hour]
}

/// The first hour with any focus.
pub open spec fn first_active_hour(hours: Seq<u64>) -> Option<int> {
    if exists|h: int| 0 <= h < hours.len() && #[trigger] hours[h] > 0 {
        Some(choose|h: int| {
            &&& 0 <= h < hours.len()
            &&& hours[h] > 0
            &&& forall|k: int| 0 <= k < h ==> #[trigger] hours[k] == 0
        })
    } else {
        None
    }
}

/// The last hour with any focus.
pub open spec fn last_active_hour(hours: Seq<u64>) -> Option<int> {
    if exists|h: int| 0 <= h < hours.len() && #[trigger] hours[h] > 0 {
        Some(choose|h: int| {
            &&& 0 <= h < hours.len()
            &&& hours[h] > 0
            &&& forall|k: int| h < k < hours.len() ==> #[trigger] hours[k] == 0
        })
    } else {
        None
    }
}

/// The hours from the first to the last with focus, both counted.
pub open spec fn work_span(hours: Seq<u64>) -> int {
    match (first_active_hour(hours), last_active_hour(hours)) {
        (Some(start), Some(end)) => if end >= start {
            end - start + 1
        } else {
            0
        },
        _ => 0,
    }
}

/// Some hour has focus: the first and the last such hours exist.
pub proof fn lemma_first_active_exists(hours: Seq<u64>, w: int)
    requires
        0 <= w < hours.len(),
        hours[w] > 0,
    ensures
        first_active_hour(hours) matches Some(s) && 0 <= s <= w && hours[s] > 0 && forall|k: int|
            0 <= k < s ==> #[trigger] hours[k] == 0,
    decreases w,
{
    if exists|k: int| 0 <= k < w && #[trigger] hours[k] > 0 {
        let k = choose|k: int| 0 <= k < w && #[trigger] hours[k] > 0;
        lemma_first_active_exists(hours, k);
    } else {
        lemma_first_active(hours, w);
    }
}

pub proof fn lemma_last_active_exists(hours: Seq<u64>, w: int)
    requires
        0 <= w < hours.len(),
        hours[w] > 0,
    ensures
        last_active_hour(hours) matches Some(e) && w <= e < hours.len() && hours[e] > 0 && forall|k: int|
            e < k < hours.len() ==> #[trigger] hours[k] == 0,
    decreases hours.len() - w,
{
    if exists|k: int| w < k < hours.len() && #[trigger] hours[k] > 0 {
        let k = choose|k: int| w < k < hours.len() && #[trigger] hours[k] > 0;
        lemma_last_active_exists(hours, k);
    } else {
        lemma_last_active(hours, w);
    }
}

/// When the day's focus fell: its busiest hour and the first and last hours
/// with focus.
#[derive(Clone, Copy, PartialEq, Eq, Structural, Debug)]
pub struct HourlyProfile {
    pub peak_focus_hour: u8,
    pub work_start_hour: Option<u8>,
    pub work_end_hour: Option<u8>,
    pub work_span_hours: u8,
}

proof fn lemma_first_active(hours: Seq<u64>, h: int)
    requires
        0 <= h < hours.len(),
        hours[h] > 0,
        forall|k: int| 0 <= k < h ==> #[trigger] hours[k] == 0,
    ensures
        first_active_hour(hours) == Some(h),
{
    let c = choose|x: int| {
        &&& 0 <= x < hours.len()
        &&& hours[x] > 0
        &&& forall|k: int| 0 <= k < x ==> #[trigger] hours[k] == 0
    };
    if c < h {
        assert(hours[c] == 0);
    }
    if c > h {
        assert(hours[h] == 0);
    }
}

proof fn lemma_last_active(hours: Seq<u64>, h: int)
    requires
        0 <= h < hours.len(),
        hours[h] > 0,
        forall|k: int| h < k < hours.len() ==> #[trigger] hours[k] == 0,
    ensures
        last_active_hour(hours) == Some(h),
{
    let c = choose|x: int| {
        &&& 0 <= x < hours.len()
        &&& hours[x] > 0
        &&& forall|k: int| x < k < hours.len() ==> #[trigger] hours[k] == 0
    };
    if c < h {
        assert(hours[h] == 0);
    }
    if c > h {
        assert(hours[c] == 0);
    }
}

/// The busiest hour (the last of equals), the first and last hours with
/// focus, and the hours between them.
pub fn hourly_profile(hourly_focus: &[u64; 24]) -> (r: HourlyProfile)
    ensures
        is_peak_hour(hourly_focus@, r.peak_focus_hour as int),
        first_active_hour(hourly_focus@) == match r.work_start_hour {
            Some(h) => Some(h as int),
            None => None::<int>,
        },
        last_active_hour(hourly_focus@) == match r.work_end_hour {
            Some(h) => Some(h as int),
            None => None::<int>,
        },
        r.work_span_hours == work_span(hourly_focus@),
        r.work_start_hour matches Some(s) ==> (r.work_end_hour matches Some(e) && s <= r.peak_focus_hour
            <= e && r.work_span_hours == e - s + 1),
        r.work_start_hour is None ==> r.work_end_hour is None && r.work_span_hours == 0,
{
    let ghost hours = hourly_focus@;
    let mut peak: usize = 0;
    let mut h: usize = 1;
    while h < 24
        invariant
            hours == hourly_focus@,
            hours.len() == 24,
            1 <= h <= 24,
            peak < h,
            forall|k: int| 0 <= k < h ==> #[trigger] hours[k] <= hours[peak as int],
            forall|k: int| peak < k < h ==> #[trigger] hours[k] < hours[peak as int],
        decreases 24 - h,
    {
        if hourly_focus[h] >= hourly_focus[peak] {
            peak = h;
        }
        h = h + 1;
    }
    let mut start: usize = 0;
    while start < 24 && hourly_focus[start] == 0
        invariant
            hours == hourly_focus@,
            hours.len() == 24,
            start <= 24,
            forall|k: int| 0 <= k < start ==> #[trigger] hours[k] == 0,
        decreases 24 - start,
    {
        start = start + 1;
    }
    if start == 24 {
        assert(!exists|x: int| 0 <= x < hours.len() && #[trigger] hours[x] > 0);
        return HourlyProfile {
            peak_focus_hour: peak as u8,
            work_start_hour: None,
            work_end_hour: None,
            work_span_hours: 0,
        };
    }
    let mut end: usize = 23;
    while hourly_focus[end] == 0
        invariant
            hours == hourly_focus@,
            hours.len() == 24,
            start <= end < 24,
            hours[start as int] > 0,
            forall|k: int| end < k < 24 ==> #[trigger] hours[k] == 0,
        decreases end,
    {
        end = end - 1;
    }
    proof {
        lemma_first_active(hours, start as int);
        lemma_last_active(hours, end as int);
        crate::laws::peak_lies_in_work_span(hours, peak as int);
    }
    HourlyProfile {
        peak_focus_hour: peak as u8,
        work_start_hour: Some(start as u8),
        work_end_hour: Some(end as u8),
        work_span_hours: (end - start + 1) as u8,
    }
}

/// How many sessions the day has (the running one counted) and their active
/// seconds, each held at `u64::MAX`.
#[derive(Clone, Copy, PartialEq, Eq, Structural, Debug)]
pub struct SessionTotals {
    pub session_count: u64,
    pub session_seconds: u64,
}

/// The sum of the sessions' active seconds.
pub open spec fn active_seconds_sum(sessions: Seq<crate::records::WorkSession>) -> int
    decreases sessions.len(),
{
    if sessions.len() == 0 {
        0
    } else {
        active_seconds_sum(sessions.drop_last()) + sessions.last().active_seconds
    }
}

/// The day's sessions, completed and running, and their active seconds.
pub fn session_totals(state: &TrackingState) -> (r: SessionTotals)
    ensures
        r.session_count == cap(
            state.sessions.len() + if state.current_session_started_at is Some {
                1int
            } else {
                0int
            },
            u64::MAX as int,
        ),
        r.session_seconds == cap(
            active_seconds_sum(state.sessions@) + state.current_session_active_seconds,
            u64::MAX as int,
        ),
{
    let mut seconds: u64 = 0;
    let mut i: usize = 0;
    while i < state.sessions.len()
        invariant
            i <= state.sessions.len(),
            seconds == cap(active_seconds_sum(state.sessions@.take(i as int)), u64::MAX as int),
        decreases state.sessions.len() - i,
    {
        proof {
            assert(state.sessions@.take(i + 1).drop_last() =~= state.sessions@.take(i as int));
        }
        seconds = seconds.saturating_add(state.sessions[i].active_seconds);
        i = i + 1;
    }
    proof {
        assert(state.sessions@.take(i as int) =~= state.sessions@);
    }
    seconds = seconds.saturating_add(state.current_session_active_seconds);
    let running: u64 = if state.current_session_started_at.is_some() {
        1
    } else {
        0
    };
    let completed: u64 = if state.sessions.len() as u128 >= u64::MAX as u128 {
        u64::MAX
    } else {
        state.sessions.len() as u64
    };
    SessionTotals { session_count: completed.saturating_add(running), session_seconds: seconds }
}

/// An application's weight in the day: its active milliseconds, or its
/// counted seconds in milliseconds when that is more.
pub open spec fn app_weight(app: AppActivity) -> u64 {
    let from_seconds = cap(app.seconds * 1000, u64::MAX as int);
    if app.active_millis >= from_seconds {
        app.active_millis
    } else {
        from_seconds as u64
    }
}

/// The weights of the applications, in their order.
pub open spec fn app_weights(apps: Seq<AppActivity>) -> Seq<u64> {
    apps.map_values(|a: AppActivity| app_weight(a))
}

/// The sum of the weights.
pub open spec fn weight_sum(weights: Seq<u64>) -> int
    decreases weights.len(),
{
    if weights.len() == 0 {
        0
    } else {
        weight_sum(weights.drop_last()) + weights.last()
    }
}

/// Position `i` comes before position `j` when ordering by weight, heaviest
/// first, ties kept in their input order.
pub open spec fn heavier_first(weights: Seq<u64>, i: int, j: int) -> bool {
    weights[i] > weights[j] || (weights[i] == weights[j] && i < j)
}

/// `order` lists every position of `weights` once, heaviest first.
pub open spec fn by_weight(weights: Seq<u64>, order: Seq<usize>) -> bool {
    is_ordering(order, weights.len() as int, |i: int, j: int| heavier_first(weights, i, j))
}

/// The most application weights reported for a day.
pub const MAX_APP_SHARES: usize = 12;

/// The day's application weights, heaviest first (at most
/// `MAX_APP_SHARES`), and their total (at least 1), by which each is divided
/// to give its share of the day.
pub struct AppTimeWeights {
    pub heaviest: Vec<u64>,
    pub total: u128,
}

/// The heaviest application weights of the day, in the order a stable sort
/// by weight (heaviest first) gives, and the total of all weights.
pub fn app_time_weights(apps: &Vec<AppActivity>) -> (r: AppTimeWeights)
    ensures
        r.total == (if weight_sum(app_weights(apps@)) > 0 {
            weight_sum(app_weights(apps@))
        } else {
            1
        }),
        exists|order: Seq<usize>|
            {
                &&& #[trigger] by_weight(app_weights(apps@), order)
                &&& r.heaviest@ == order.take(
                    if apps.len() > MAX_APP_SHARES {
                        MAX_APP_SHARES as int
                    } else {
                        apps.len() as int
                    },
                ).map_values(|p: usize| app_weights(apps@)[p as int])
            },
{
    let ghost ws = app_weights(apps@);
    let mut weights: Vec<u64> = Vec::new();
    let mut complements: Vec<u64> = Vec::new();
    let mut total: u128 = 0;
    let mut i: usize = 0;
    while i < apps.len()
        invariant
            i <= apps.len(),
            ws == app_weights(apps@),
            weights@ == ws.take(i as int),
            complements.len() == i,
            forall|k: int| 0 <= k < i ==> #[trigger] complements@[k] == u64::MAX - ws[k],
            total == weight_sum(ws.take(i as int)),
            total <= i * (u64::MAX as int),
            i <= usize::MAX,
        decreases apps.len() - i,
    {
        let from_seconds = millis_of_seconds(apps[i].seconds);
        let w = if apps[i].active_millis >= from_seconds {
            apps[i].active_millis
        } else {
            from_seconds
        };
        proof {
            assert(ws.take(i + 1).drop_last() =~= ws.take(i as int));
            assert(total + w <= (i + 1) * (u64::MAX as int)) by (nonlinear_arith)
                requires
                    total <= i * (u64::MAX as int),
                    w <= u64::MAX,
            ;
            assert((i + 1) * (u64::MAX as int) < u128::MAX) by (nonlinear_arith)
                requires
                    i < usize::MAX,
                    usize::MAX <= u64::MAX,
            ;
        }
        weights.push(w);
        complements.push(u64::MAX - w);
        total = total + w as u128;
        i = i + 1;
        proof {
            assert(weights@ =~= ws.take(i as int));
        }
    }
    proof {
        assert(ws.take(i as int) =~= ws);
    }
    if total == 0 {
        total = 1;
    }
    let order = stable_number_order(&complements);
    let ghost desc = |a: int, b: int| heavier_first(ws, a, b);
    proof {
        let asc = |a: int, b: int| number_precedes(complements@, a, b);
        assert forall|a: int, b: int| 0 <= a < i && 0 <= b < i implies #[trigger] asc(a, b)
            == desc(a, b) by {}
        assert forall|a: int, b: int| 0 <= a < b < i implies #[trigger] desc(
            order@[a] as int,
            order@[b] as int,
        ) by {
            assert(asc(order@[a] as int, order@[b] as int));
        }
    }
    let count: usize = if apps.len() > MAX_APP_SHARES {
        MAX_APP_SHARES
    } else {
        apps.len()
    };
    let mut heaviest: Vec<u64> = Vec::new();
    let mut k: usize = 0;
    while k < count
        invariant
            k <= count,
            count <= apps.len(),
            order.len() == apps.len(),
            weights@ == ws,
            weights.len() == apps.len(),
            forall|q: int| 0 <= q < order.len() ==> #[trigger] order@[q] < apps.len(),
            heaviest@ == order@.take(k as int).map_values(|p: usize| ws[p as int]),
        decreases count - k,
    {
        heaviest.push(weights[order[k]]);
        k = k + 1;
        proof {
            assert(heaviest@ =~= order@.take(k as int).map_values(|p: usize| ws[p as int]));
        }
    }
    proof {
        assert(is_ordering(order@, apps.len() as int, desc));
        assert(by_weight(ws, order@));
    }
    AppTimeWeights { heaviest, total }
}

/// `after` is `before` with the day's activity forgotten: no window,
/// applications, events, minutes, sessions or re-entries, every counter and
/// the running session cleared, no pending break, and the day's tag and
/// reflection gone; everything else stays.
pub open spec fn is_day_reset(before: TrackingState, after: TrackingState) -> bool {
    &&& after.active_window@.len() == 0
    &&& after.apps.len() == 0
    &&& after.timeline.len() == 0
    &&& after.flow_minutes.len() == 0
    &&& after.sessions.len() == 0
    &&& after.current_session_apps.len() == 0
    &&& after.reentry_episodes.len() == 0
    &&& forall|h: int| 0 <= h < 24 ==> #[trigger] after.hourly_focus@[h] == 0
    &&& after == (TrackingState {
        active_window: after.active_window,
        keyboard_actions: 0,
        mouse_actions: 0,
        app_activation_count: 0,
        focus_seconds: 0,
        hourly_focus: after.hourly_focus,
        apps: after.apps,
        timeline: after.timeline,
        flow_minutes: after.flow_minutes,
        active_app_count: 0,
        mouse_clicks: 0,
        mouse_wheel_notches: 0,
        avg_click_interval_ms: 0,
        click_interval_count: 0,
        network_rx_bytes: 0,
        network_tx_bytes: 0,
        notification_count: 0,
        idle_seconds: 0,
        context_switches: 0,
        sessions: after.sessions,
        current_session_started_at: None,
        current_session_active_seconds: 0,
        current_session_idle_seconds: 0,
        current_session_switches: 0,
        current_session_apps: after.current_session_apps,
        last_input_at: None,
        last_input_age_seconds: 0,
        resume_latency_seconds: 0,
        reentry_episodes: after.reentry_episodes,
        pending_reentry: None,
        report_settings: crate::records::ReportSettings {
            work_mode_tag: None,
            flow_satisfaction: None,
            ..before.report_settings
        },
        ..before
    })
}

/// Clears the day's activity: counters, applications, timeline, flow
/// minutes, sessions, the running session, re-entry episodes and the day's
/// tag and reflection. Settings, drive snapshots, the collection day and the
/// requests for extra collection stay.
pub fn reset_daily_activity(state: &mut TrackingState)
    ensures
        is_day_reset(*old(state), *final(state)),
        sound_state(*old(state)) ==> sound_state(*final(state)),
{
    state.active_window = String::new();
    state.keyboard_actions = 0;
    state.mouse_actions = 0;
    state.app_activation_count = 0;
    state.focus_seconds = 0;
    state.hourly_focus = [0u64; 24];
    state.apps.clear();
    state.timeline.clear();
    state.flow_minutes.clear();
    state.active_app_count = 0;
    state.mouse_clicks = 0;
    state.mouse_wheel_notches = 0;
    state.avg_click_interval_ms = 0;
    state.click_interval_count = 0;
    state.network_rx_bytes = 0;
    state.network_tx_bytes = 0;
    state.notification_count = 0;
    state.idle_seconds = 0;
    state.context_switches = 0;
    state.sessions.clear();
    state.current_session_started_at = None;
    state.current_session_active_seconds = 0;
    state.current_session_idle_seconds = 0;
    state.current_session_switches = 0;
    state.current_session_apps.clear();
    state.last_input_at = None;
    state.last_input_age_seconds = 0;
    state.resume_latency_seconds = 0;
    state.reentry_episodes.clear();
    state.pending_reentry = None;
    state.report_settings.work_mode_tag = None;
    state.report_settings.flow_satisfaction = None;
}

/// The day being collected: the recorded collection day, or when none is
/// recorded yet the date of the daily features, or else today.
pub open spec fn collected_day(state: TrackingState, today: Seq<char>, feature_date: Seq<char>) -> Seq<char> {
    if state.collection_day@.len() > 0 {
        state.collection_day@
    } else if feature_date.len() > 0 {
        feature_date
    } else {
        today
    }
}

/// Starts the change to a new day at `today` (the local date, at the Unix
/// time `now_unix` and the time text `now_text`). When the collected day is
/// today nothing changes but that the collected day is recorded, and `None`
/// is returned. Otherwise the running session is closed for `day_rollover`,
/// the pending break is dropped, the re-entry episodes are brought up to
/// date, and the collected day is returned: its report and features are
/// made next, and `finish_day_rollover` then clears the day.
pub fn begin_day_rollover(
    state: &mut TrackingState,
    today: &str,
    feature_date: &str,
    now_unix: i64,
    now_text: String,
) -> (r: Option<String>)
    ensures
        final(state).collection_day@ == collected_day(*old(state), today@, feature_date@),
        r is None <==> collected_day(*old(state), today@, feature_date@) == today@,
        r is None ==> *final(state) == (TrackingState {
            collection_day: final(state).collection_day,
            ..*old(state)
        }),
        r matches Some(previous) ==> {
            &&& previous@ == collected_day(*old(state), today@, feature_date@)
            &&& final(state).current_session_started_at is None
            &&& final(state).current_session_active_seconds == 0
            &&& final(state).current_session_apps.len() == 0
            &&& final(state).pending_reentry is None
            &&& (old(state).current_session_started_at is None ==> final(state).sessions@ == old(
                state,
            ).sessions@)
            &&& (old(state).current_session_started_at is Some ==> {
                &&& final(state).sessions.len() >= 1
                &&& crate::activity::closed_session(
                    *old(state),
                    now_text,
                    "day_rollover"@,
                    final(state).sessions@.last(),
                )
                &&& final(state).sessions@ == crate::activity::appended_bounded(
                    old(state).sessions@,
                    final(state).sessions@.last(),
                    crate::activity::MAX_SESSIONS as int,
                )
            })
            &&& final(state).reentry_episodes.len() == old(state).reentry_episodes.len()
            &&& forall|i: int|
                0 <= i < old(state).reentry_episodes.len()
                    ==> #[trigger] final(state).reentry_episodes@[i] == crate::reentry::refreshed(
                    old(state).reentry_episodes@[i],
                    old(state).flow_minutes@,
                    now_unix,
                )
            &&& *final(state) == (TrackingState {
                collection_day: final(state).collection_day,
                sessions: final(state).sessions,
                current_session_started_at: final(state).current_session_started_at,
                current_session_active_seconds: final(state).current_session_active_seconds,
                current_session_idle_seconds: final(state).current_session_idle_seconds,
                current_session_switches: final(state).current_session_switches,
                current_session_apps: final(state).current_session_apps,
                pending_reentry: final(state).pending_reentry,
                reentry_episodes: final(state).reentry_episodes,
                ..*old(state)
            })
        },
        old(state).sessions.len() <= MAX_SESSIONS ==> final(state).sessions.len() <= MAX_SESSIONS,
        sound_state(*old(state)) ==> sound_state(*final(state)),
{
    if state.collection_day.as_str().is_empty() {
        state.collection_day = if feature_date.is_empty() {
            owned(today)
        } else {
            owned(feature_date)
        };
    } else {
        proof {
            assert(old(state).collection_day@.len() > 0);
        }
    }
    if text_equals(state.collection_day.as_str(), today) {
        return None;
    }
    let previous = state.collection_day.clone();
    close_current_session(state, now_text, "day_rollover");
    state.pending_reentry = None;
    refresh_reentry_episodes(state, now_unix);
    Some(previous)
}

/// Ends the change to the new day `today`: the day's activity is cleared
/// and `today` becomes the collected day.
pub fn finish_day_rollover(state: &mut TrackingState, today: String)
    ensures
        final(state).collection_day == today,
        is_day_reset(*old(state), TrackingState { collection_day: old(state).collection_day, ..*final(state) }),
        final(state).apps.len() == 0,
        final(state).timeline.len() == 0,
        final(state).flow_minutes.len() == 0,
        final(state).sessions.len() == 0,
        final(state).reentry_episodes.len() == 0,
        final(state).current_session_started_at is None,
        final(state).pending_reentry is None,
        final(state).focus_seconds == 0 && final(state).idle_seconds == 0,
        final(state).report_settings.work_mode_tag is None,
        final(state).report_settings.flow_satisfaction is None,
        final(state).report_settings.enabled == old(state).report_settings.enabled,
        final(state).enabled == old(state).enabled,
        final(state).disk_snapshots == old(state).disk_snapshots,
        sound_state(*old(state)) ==> sound_state(*final(state)),
{
    reset_daily_activity(state);
    state.collection_day = today;
}

} // verus!
