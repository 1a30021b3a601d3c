//! Re-entry after a break: which breaks are observed, what the first ten
//! minutes after them looked like, and the day's totals.
use vstd::prelude::*;
use crate::laws::{
    reentry_window_sums_focus, sound_state, stabilization_is_first_run_of_five, window_focus, window_switches,
};
use crate::activity::appended_bounded;
use crate::clock::{minute_of_day_of, minute_of_text, parse_local_timestamp, rfc3339_reading};
use crate::flow::{cap, FlowMinute};
use crate::records::{PendingReentry, ReentryEpisode};
use crate::state::TrackingState;
use crate::stats::{median_of, median_u64};
use crate::text::{has_prefix, push_signed_decimal, report_date_matches, signed_decimal};

verus! {

broadcast use vstd::string::group_string_axioms;

/// The most re-entry episodes kept.
pub const MAX_REENTRY_EPISODES: usize = 64;

/// The shortest break, in seconds, after which a re-entry is observed.
pub const REENTRY_MIN_BREAK_SECS: i64 = 180;

/// The longest break, in seconds, after which a re-entry is observed.
pub const REENTRY_MAX_BREAK_SECS: i64 = 3600;

/// How long after resuming a re-entry is observed, in seconds.
pub const REENTRY_OBSERVATION_SECS: i64 = 600;

/// The five minutes before minute `k` after resuming (minutes `k - 5` to
/// `k - 1` from `start`) were all focused.
pub open spec fn five_focused_before(minutes: Seq<FlowMinute>, date: Seq<char>, start: int, k: int) -> bool {
    &&& k >= 5
    &&& forall|j: int| k - 5 <= j < k ==> #[trigger] minute_is_focused(minute_at(minutes, date, start + j))
}

/// The stabilization time after a resume: 60·k seconds for the least `k`
/// from 5 to 10 whose five preceding minutes were all focused, or none when
/// no such `k` exists.
pub open spec fn settles_after(minutes: Seq<FlowMinute>, date: Seq<char>, start: int, s: Option<u64>) -> bool {
    match s {
        Some(v) => exists|k: int|
            5 <= k <= 10 && v == 60 * k && #[trigger] five_focused_before(minutes, date, start, k) && forall|
                k2: int,
            |
                5 <= k2 < k ==> !#[trigger] five_focused_before(minutes, date, start, k2),
        None => forall|k: int| 5 <= k <= 10 ==> !#[trigger] five_focused_before(minutes, date, start, k),
    }
}

/// The flow minute that a lookup by minute of the day finds among the
/// minutes of `date`: the last one in the list with that minute.
pub open spec fn minute_at(minutes: Seq<FlowMinute>, date: Seq<char>, slot: int) -> Option<FlowMinute>
    decreases minutes.len(),
{
    if minutes.len() == 0 {
        None
    } else if has_prefix(minutes.last().start_at@, date) && minute_of_day_of(
        minutes.last().start_at@,
    ) == Some(slot) {
        Some(minutes.last())
    } else {
        minute_at(minutes.drop_last(), date, slot)
    }
}

/// A minute is focused when it has at least 30 observed seconds, at least
/// 75% of them focused, and at most one switch.
pub open spec fn minute_is_focused(m: Option<FlowMinute>) -> bool {
    match m {
        Some(x) => x.observed_seconds >= 30 && 4 * x.focus_seconds >= 3 * x.observed_seconds
            && x.switch_count <= 1,
        None => false,
    }
}

/// The first `n` minutes from `start`: focused seconds and switches (each
/// summed and held at `u16::MAX`), the run of focused minutes ending at the
/// last of them, and the first point at which five focused minutes ran in a
/// row, in seconds from `start`.
pub open spec fn reentry_scan(minutes: Seq<FlowMinute>, date: Seq<char>, start: int, n: int) -> (
    int,
    int,
    int,
    Option<int>,
)
    decreases n,
{
    if n <= 0 {
        (0, 0, 0, None)
    } else {
        let prev = reentry_scan(minutes, date, start, n - 1);
        let item = minute_at(minutes, date, start + n - 1);
        let focused = match item {
            Some(x) => cap(prev.0 + x.focus_seconds, u16::MAX as int),
            None => prev.0,
        };
        let switches = match item {
            Some(x) => cap(prev.1 + x.switch_count, u16::MAX as int),
            None => prev.1,
        };
        let streak = if minute_is_focused(item) {
            prev.2 + 1
        } else {
            0
        };
        let stable = if streak >= 5 && prev.3 is None {
            Some(n * 60)
        } else {
            prev.3
        };
        (focused, switches, streak, stable)
    }
}

/// What was observed after resuming.
pub struct ReentryOutcome {
    pub stabilization_seconds: Option<u64>,
    pub focused_seconds: u16,
    pub switch_count: u16,
    pub finalized: bool,
}

/// The outcome of an episode by the Unix time `now`: `None` when its resume
/// time cannot be read; otherwise the first ten minutes from the resume
/// minute on the resume day, and whether ten minutes have passed.
pub open spec fn outcome_of(minutes: Seq<FlowMinute>, resumed_at: Seq<char>, now: i64) -> Option<
    ReentryOutcome,
> {
    match rfc3339_reading(resumed_at) {
        None => None,
        Some(r) => {
            let scan = reentry_scan(minutes, r.3, r.1 * 60 + r.2, 10);
            Some(
                ReentryOutcome {
                    stabilization_seconds: match scan.3 {
                        Some(s) => Some(s as u64),
                        None => None,
                    },
                    focused_seconds: scan.0 as u16,
                    switch_count: scan.1 as u16,
                    finalized: now - r.0 >= REENTRY_OBSERVATION_SECS,
                },
            )
        },
    }
}

/// The last flow minute of `date` at minute `slot` of the day.
fn find_minute_at(minutes: &Vec<FlowMinute>, date: &str, slot: usize) -> (r: Option<usize>)
    ensures
        match minute_at(minutes@, date@, slot as int) {
            Some(m) => r matches Some(k) && k < minutes.len() && minutes@[k as int] == m,
            None => r is None,
        },
{
    let mut k: usize = minutes.len();
    proof {
        assert(minutes@.take(k as int) =~= minutes@);
    }
    while k > 0
        invariant
            k <= minutes.len(),
            minute_at(minutes@, date@, slot as int) == minute_at(minutes@.take(k as int), date@, slot as int),
        decreases k,
    {
        let ghost pre = minutes@.take(k as int);
        proof {
            assert(pre.drop_last() =~= minutes@.take(k - 1));
            assert(pre.last() == minutes@[k - 1]);
        }
        let m = &minutes[k - 1];
        if report_date_matches(m.start_at.as_str(), date) {
            match minute_of_text(m.start_at.as_str()) {
                Some(s) => {
                    if s == slot {
                        return Some(k - 1);
                    }
                },
                None => {},
            }
        }
        k = k - 1;
    }
    proof {
        assert(minutes@.take(0).len() == 0);
    }
    None
}

proof fn lemma_scan_bounds(minutes: Seq<FlowMinute>, date: Seq<char>, start: int, n: int)
    ensures
        0 <= reentry_scan(minutes, date, start, n).0 <= u16::MAX,
        0 <= reentry_scan(minutes, date, start, n).1 <= u16::MAX,
        0 <= reentry_scan(minutes, date, start, n).2 <= (if n < 0 { 0 } else { n }),
        reentry_scan(minutes, date, start, n).3 matches Some(s) ==> 0 < s <= n * 60,
    decreases n,
{
    if n > 0 {
        lemma_scan_bounds(minutes, date, start, n - 1);
    }
}

/// The outcome of an episode resumed at `resumed_at`, by the Unix time
/// `now_unix`.
pub fn reentry_outcome(flow_minutes: &Vec<FlowMinute>, resumed_at: &str, now_unix: i64) -> (r: Option<
    ReentryOutcome,
>)
    ensures
        r == outcome_of(flow_minutes@, resumed_at@, now_unix),
        r is None <==> rfc3339_reading(resumed_at@) is None,
        r matches Some(o) ==> rfc3339_reading(resumed_at@) matches Some(rd) && settles_after(
            flow_minutes@,
            rd.3,
            rd.1 * 60 + rd.2,
            o.stabilization_seconds,
        ),
        r matches Some(o) ==> rfc3339_reading(resumed_at@) matches Some(rd) && o.focused_seconds == cap(
            window_focus(flow_minutes@, rd.3, rd.1 * 60 + rd.2, 10),
            u16::MAX as int,
        ) && o.switch_count == cap(window_switches(flow_minutes@, rd.3, rd.1 * 60 + rd.2, 10), u16::MAX as int)
            && o.finalized == (now_unix - rd.0 >= 600),
{
    let resumed = match parse_local_timestamp(resumed_at) {
        Some(t) => t,
        None => return None,
    };
    let start_slot = resumed.hour as usize * 60 + resumed.minute as usize;
    let date = resumed.local_date.as_str();
    let mut focused_seconds: u16 = 0;
    let mut switches: u16 = 0;
    let mut streak: usize = 0;
    let mut stabilization: Option<u64> = None;
    let mut offset: usize = 0;
    while offset < 10
        invariant
            offset <= 10,
            start_slot < 1440,
            (focused_seconds as int, switches as int, streak as int, match stabilization {
                Some(s) => Some(s as int),
                None => None,
            }) == reentry_scan(flow_minutes@, date@, start_slot as int, offset as int),
        decreases 10 - offset,
    {
        proof {
            lemma_scan_bounds(flow_minutes@, date@, start_slot as int, offset as int);
        }
        let found = find_minute_at(flow_minutes, date, start_slot + offset);
        let is_focused = match found {
            Some(k) => {
                let m = &flow_minutes[k];
                focused_seconds = focused_seconds.saturating_add(m.focus_seconds);
                switches = switches.saturating_add(m.switch_count);
                m.observed_seconds >= 30 && 4 * (m.focus_seconds as u32) >= 3 * (
                m.observed_seconds as u32) && m.switch_count <= 1
            },
            None => false,
        };
        if is_focused {
            streak = streak + 1;
            if streak >= 5 && stabilization.is_none() {
                stabilization = Some(((offset + 1) * 60) as u64);
            }
        } else {
            streak = 0;
        }
        offset = offset + 1;
    }
    let finalized = now_unix as i128 - resumed.unix_seconds as i128 >= REENTRY_OBSERVATION_SECS as i128;
    proof {
        lemma_scan_bounds(flow_minutes@, date@, start_slot as int, 10);
        stabilization_is_first_run_of_five(flow_minutes@, date@, start_slot as int, 10);
        reentry_window_sums_focus(flow_minutes@, date@, start_slot as int, 10);
    }
    Some(
        ReentryOutcome {
            stabilization_seconds: stabilization,
            focused_seconds,
            switch_count: switches,
            finalized,
        },
    )
}

/// An episode brought up to date with its outcome.
pub open spec fn refreshed(episode: ReentryEpisode, minutes: Seq<FlowMinute>, now: i64) -> ReentryEpisode {
    if episode.finalized {
        episode
    } else {
        match outcome_of(minutes, episode.resumed_at@, now) {
            None => episode,
            Some(o) => ReentryEpisode {
                stabilization_seconds: o.stabilization_seconds,
                focused_seconds_first_10m: o.focused_seconds,
                switch_count_first_10m: o.switch_count,
                finalized: o.finalized,
                ..episode
            },
        }
    }
}

/// Brings every episode that is not finalized up to date with what the flow
/// minutes show by the Unix time `now_unix`.
pub fn refresh_reentry_episodes(state: &mut TrackingState, now_unix: i64)
    ensures
        final(state).reentry_episodes.len() == old(state).reentry_episodes.len(),
        forall|i: int|
            0 <= i < old(state).reentry_episodes.len() ==> #[trigger] final(state).reentry_episodes@[i]
                == refreshed(old(state).reentry_episodes@[i], old(state).flow_minutes@, now_unix),
        *final(state) == (TrackingState { reentry_episodes: final(state).reentry_episodes, ..*old(state) }),
        sound_state(*old(state)) ==> sound_state(*final(state)),
{
    let mut index: usize = 0;
    while index < state.reentry_episodes.len()
        invariant
            index <= state.reentry_episodes.len(),
            state.reentry_episodes.len() == old(state).reentry_episodes.len(),
            forall|i: int|
                0 <= i < index ==> #[trigger] state.reentry_episodes@[i] == refreshed(
                    old(state).reentry_episodes@[i],
                    old(state).flow_minutes@,
                    now_unix,
                ),
            forall|i: int|
                index <= i < state.reentry_episodes.len() ==> #[trigger] state.reentry_episodes@[i]
                    == old(state).reentry_episodes@[i],
            *state == (TrackingState { reentry_episodes: state.reentry_episodes, ..*old(state) }),
        decreases state.reentry_episodes.len() - index,
    {
        if !state.reentry_episodes[index].finalized {
            let outcome = reentry_outcome(
                &state.flow_minutes,
                state.reentry_episodes[index].resumed_at.as_str(),
                now_unix,
            );
            match outcome {
                Some(o) => {
                    let mut current = state.reentry_episodes[index].duplicate();
                    current.stabilization_seconds = o.stabilization_seconds;
                    current.focused_seconds_first_10m = o.focused_seconds;
                    current.switch_count_first_10m = o.switch_count;
                    current.finalized = o.finalized;
                    state.reentry_episodes.set(index, current);
                },
                None => {},
            }
        }
        index = index + 1;
    }
}

/// Marks the start of a break, at `now_text`, when daily reports are on.
pub fn begin_pending_reentry(state: &mut TrackingState, now_text: String)
    ensures
        *final(state) == (if old(state).report_settings.enabled {
            TrackingState {
                pending_reentry: Some(PendingReentry { break_started_at: now_text }),
                ..*old(state)
            }
        } else {
            *old(state)
        }),
        sound_state(*old(state)) ==> sound_state(*final(state)),
{
    if state.report_settings.enabled {
        state.pending_reentry = Some(PendingReentry { break_started_at: now_text });
    }
}

/// The episode recorded when work resumes at `now` (Unix time `now_unix`,
/// written `now_text`) after a break that began at `break_started_at`.
pub open spec fn new_episode(
    break_started_at: String,
    break_seconds: int,
    now_unix: i64,
    now_text: String,
    id: Seq<char>,
    episode: ReentryEpisode,
) -> bool {
    &&& episode.id@ == id
    &&& episode.id@ == break_started_at@ + "-"@ + signed_decimal(now_unix as int)
    &&& episode.break_started_at == break_started_at
    &&& episode.resumed_at == now_text
    &&& episode.break_seconds == break_seconds
    &&& episode.stabilization_seconds is None
    &&& episode.focused_seconds_first_10m == 0
    &&& episode.switch_count_first_10m == 0
    &&& !episode.finalized
}

/// The length of the pending break by `now_unix`, when its start can be read.
pub open spec fn pending_break_seconds(state: TrackingState, now_unix: i64) -> Option<int> {
    match state.pending_reentry {
        Some(p) => match rfc3339_reading(p.break_started_at@) {
            Some(r) => Some(now_unix - r.0),
            None => None,
        },
        None => None,
    }
}

/// A re-entry is recorded when reports are on, a break is pending, its start
/// can be read and it lasted 3 to 60 minutes.
pub open spec fn records_reentry(state: TrackingState, now_unix: i64) -> bool {
    state.report_settings.enabled && match pending_break_seconds(state, now_unix) {
        Some(b) => REENTRY_MIN_BREAK_SECS <= b <= REENTRY_MAX_BREAK_SECS,
        None => false,
    }
}

/// Every episode followed a break of 3 to 60 minutes.
pub open spec fn breaks_in_window(episodes: Seq<ReentryEpisode>) -> bool {
    forall|i: int|
        0 <= i < episodes.len() ==> REENTRY_MIN_BREAK_SECS <= #[trigger] episodes[i].break_seconds
            <= REENTRY_MAX_BREAK_SECS
}

/// Work resumes at `now`: with reports on, the pending break is consumed,
/// and a break of 3 to 60 minutes becomes a re-entry episode (the oldest
/// one dropped beyond 64).
pub fn begin_reentry_episode(state: &mut TrackingState, now_unix: i64, now_text: String)
    ensures
        !old(state).report_settings.enabled ==> *final(state) == *old(state),
        old(state).report_settings.enabled ==> final(state).pending_reentry is None,
        !records_reentry(*old(state), now_unix) ==> final(state).reentry_episodes@ == old(
            state,
        ).reentry_episodes@,
        records_reentry(*old(state), now_unix) ==> {
            let before = old(state).reentry_episodes@;
            let after = final(state).reentry_episodes@;
            let pending = old(state).pending_reentry->0;
            let b = pending_break_seconds(*old(state), now_unix)->0;
            &&& new_episode(
                pending.break_started_at,
                b,
                now_unix,
                now_text,
                pending.break_started_at@ + "-"@ + signed_decimal(now_unix as int),
                after.last(),
            )
            &&& after.len() >= 1
            &&& after == appended_bounded(before, after.last(), MAX_REENTRY_EPISODES as int)
        },
        old(state).reentry_episodes.len() <= MAX_REENTRY_EPISODES ==> final(state).reentry_episodes.len()
            <= MAX_REENTRY_EPISODES,
        breaks_in_window(old(state).reentry_episodes@) ==> breaks_in_window(final(state).reentry_episodes@),
        *final(state) == (TrackingState {
            reentry_episodes: final(state).reentry_episodes,
            pending_reentry: final(state).pending_reentry,
            ..*old(state)
        }),
        sound_state(*old(state)) ==> sound_state(*final(state)),
{
    if !state.report_settings.enabled {
        return;
    }
    let pending = match state.pending_reentry.take() {
        Some(p) => p,
        None => return,
    };
    let start = match parse_local_timestamp(pending.break_started_at.as_str()) {
        Some(t) => t,
        None => return,
    };
    let break_seconds = now_unix as i128 - start.unix_seconds as i128;
    if !(REENTRY_MIN_BREAK_SECS as i128 <= break_seconds && break_seconds <= REENTRY_MAX_BREAK_SECS as i128) {
        return;
    }
    let mut id = pending.break_started_at.clone();
    id.append("-");
    push_signed_decimal(&mut id, now_unix);
    let episode = ReentryEpisode {
        id,
        break_started_at: pending.break_started_at,
        resumed_at: now_text,
        break_seconds: break_seconds as u64,
        stabilization_seconds: None,
        focused_seconds_first_10m: 0,
        switch_count_first_10m: 0,
        finalized: false,
    };
    let ghost before = state.reentry_episodes@;
    state.reentry_episodes.push(episode);
    if state.reentry_episodes.len() > MAX_REENTRY_EPISODES {
        state.reentry_episodes.remove(0);
    }
    proof {
        assert(state.reentry_episodes@ =~= appended_bounded(before, episode, MAX_REENTRY_EPISODES as int));
    }
}

/// The finalized episodes resumed on `date`, in list order.
pub open spec fn analyzable_on(episodes: Seq<ReentryEpisode>, date: Seq<char>) -> Seq<ReentryEpisode>
    decreases episodes.len(),
{
    if episodes.len() == 0 {
        seq![]
    } else {
        let prev = analyzable_on(episodes.drop_last(), date);
        let e = episodes.last();
        if has_prefix(e.resumed_at@, date) && e.finalized {
            prev.push(e)
        } else {
            prev
        }
    }
}

/// The break lengths of some episodes.
pub open spec fn break_lengths(episodes: Seq<ReentryEpisode>) -> Seq<u64> {
    episodes.map_values(|e: ReentryEpisode| e.break_seconds)
}

/// The stabilization times of the episodes that reached one, in order.
pub open spec fn stabilizations(episodes: Seq<ReentryEpisode>) -> Seq<u64>
    decreases episodes.len(),
{
    if episodes.len() == 0 {
        seq![]
    } else {
        let prev = stabilizations(episodes.drop_last());
        match episodes.last().stabilization_seconds {
            Some(s) => prev.push(s),
            None => prev,
        }
    }
}

pub open spec fn switch_total(episodes: Seq<ReentryEpisode>) -> int
    decreases episodes.len(),
{
    if episodes.len() == 0 {
        0
    } else {
        switch_total(episodes.drop_last()) + episodes.last().switch_count_first_10m
    }
}

/// The day's re-entry totals. The caller derives the share of episodes
/// without stabilization `missing_stabilization_count / episode_count` and
/// the switches per episode `post_resume_switch_total / episode_count`;
/// without episodes both are absent.
pub struct ReentryCounts {
    pub analyzable_episode_count: u16,
    pub episode_count: u64,
    pub median_break_seconds: Option<u32>,
    pub median_stabilization_seconds: Option<u32>,
    pub missing_stabilization_count: u64,
    pub post_resume_switch_total: u64,
}

pub open spec fn median_u32_of(values: Seq<u64>) -> Option<u32> {
    match median_of(values) {
        Some(m) => Some(cap(m, u32::MAX as int) as u32),
        None => None,
    }
}

pub open spec fn reentry_counts_match(c: ReentryCounts, state: TrackingState, date: Seq<char>) -> bool {
    let e = analyzable_on(state.reentry_episodes@, date);
    let stable = stabilizations(e);
    &&& c.episode_count == e.len()
    &&& c.analyzable_episode_count == cap(e.len() as int, u16::MAX as int)
    &&& c.median_break_seconds == median_u32_of(break_lengths(e))
    &&& c.median_stabilization_seconds == median_u32_of(stable)
    &&& c.missing_stabilization_count == e.len() - stable.len()
    &&& c.post_resume_switch_total == cap(switch_total(e), u64::MAX as int)
}

proof fn lemma_stabilizations_len(episodes: Seq<ReentryEpisode>)
    ensures
        stabilizations(episodes).len() <= episodes.len(),
        switch_total(episodes) >= 0,
    decreases episodes.len(),
{
    if episodes.len() > 0 {
        lemma_stabilizations_len(episodes.drop_last());
    }
}

fn median_u32(values: Vec<u64>) -> (r: Option<u32>)
    ensures
        r == median_u32_of(values@),
{
    match median_u64(values) {
        Some(m) => Some(if m > 4294967295 { 4294967295 } else { m as u32 }),
        None => None,
    }
}

/// The re-entry totals of the day `date`.
pub fn aggregate_reentry_metrics(state: &TrackingState, date: &str) -> (r: ReentryCounts)
    ensures
        reentry_counts_match(r, *state, date@),
{
    let mut episodes: Vec<ReentryEpisode> = Vec::new();
    let mut i: usize = 0;
    while i < state.reentry_episodes.len()
        invariant
            i <= state.reentry_episodes.len(),
            episodes@ == analyzable_on(state.reentry_episodes@.take(i as int), date@),
        decreases state.reentry_episodes.len() - i,
    {
        proof {
            assert(state.reentry_episodes@.take(i + 1).drop_last() =~= state.reentry_episodes@.take(
                i as int,
            ));
        }
        let e = &state.reentry_episodes[i];
        if report_date_matches(e.resumed_at.as_str(), date) && e.finalized {
            episodes.push(e.duplicate());
        }
        i = i + 1;
    }
    proof {
        assert(state.reentry_episodes@.take(state.reentry_episodes.len() as int)
            =~= state.reentry_episodes@);
    }
    let mut breaks: Vec<u64> = Vec::new();
    let mut stable: Vec<u64> = Vec::new();
    let mut switches: u64 = 0;
    let mut j: usize = 0;
    while j < episodes.len()
        invariant
            j <= episodes.len(),
            breaks@ == break_lengths(episodes@.take(j as int)),
            stable@ == stabilizations(episodes@.take(j as int)),
            switches == cap(switch_total(episodes@.take(j as int)), u64::MAX as int),
        decreases episodes.len() - j,
    {
        let ghost pre = episodes@.take(j as int);
        proof {
            assert(episodes@.take(j + 1).drop_last() =~= pre);
            assert(break_lengths(episodes@.take(j + 1)) =~= break_lengths(pre).push(
                episodes@[j as int].break_seconds,
            ));
            lemma_stabilizations_len(pre);
        }
        let e = &episodes[j];
        breaks.push(e.break_seconds);
        match e.stabilization_seconds {
            Some(s) => stable.push(s),
            None => {},
        }
        switches = switches.saturating_add(e.switch_count_first_10m as u64);
        j = j + 1;
    }
    proof {
        assert(episodes@.take(episodes.len() as int) =~= episodes@);
        lemma_stabilizations_len(episodes@);
    }
    let count = episodes.len();
    let missing = (count - stable.len()) as u64;
    ReentryCounts {
        analyzable_episode_count: if count > 65535 {
            65535
        } else {
            count as u16
        },
        episode_count: count as u64,
        median_break_seconds: median_u32(breaks),
        median_stabilization_seconds: median_u32(stable),
        missing_stabilization_count: missing,
        post_resume_switch_total: switches,
    }
}

} // verus!
