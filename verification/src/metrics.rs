//! The day's flow metrics: its sessions in start order, their lengths and
//! breaks, and the totals of its flow minutes.
use vstd::prelude::*;
use crate::clock::{parse_local_timestamp, rfc3339_reading};
use crate::day_totals::{day_minute_totals, day_sum, observed_slot_range};
use crate::flow::{cap, MinuteField};
use crate::focus_view::has_running_session;
use crate::order::{is_ordering, stable_text_order, text_precedes};
use crate::records::WorkSession;
use crate::state::TrackingState;
use crate::stats::{median_of, median_u64};
use crate::text::{chars_of, has_prefix, report_date_matches};

verus! {

broadcast use vstd::string::group_string_axioms;

/// The running session as a session record.
pub open spec fn running_session(state: TrackingState) -> WorkSession {
    WorkSession {
        started_at: state.current_session_started_at->0,
        ended_at: None,
        active_seconds: state.current_session_active_seconds,
        idle_seconds: state.current_session_idle_seconds,
        switch_count: state.current_session_switches,
        app_count: state.current_session_apps.len() as u64,
        end_reason: None,
    }
}

/// The completed sessions started on `date`, in list order.
pub open spec fn completed_on(sessions: Seq<WorkSession>, date: Seq<char>) -> Seq<WorkSession>
    decreases sessions.len(),
{
    if sessions.len() == 0 {
        seq![]
    } else {
        let prev = completed_on(sessions.drop_last(), date);
        if has_prefix(sessions.last().started_at@, date) {
            prev.push(sessions.last())
        } else {
            prev
        }
    }
}

/// The sessions of the day `date`: the completed ones, then the running one.
pub open spec fn day_sessions(state: TrackingState, date: Seq<char>) -> Seq<WorkSession> {
    let done = completed_on(state.sessions@, date);
    if has_running_session(state, date) {
        done.push(running_session(state))
    } else {
        done
    }
}

pub open spec fn session_starts(sessions: Seq<WorkSession>) -> Seq<Seq<char>> {
    sessions.map_values(|s: WorkSession| s.started_at@)
}

/// `order` lists the sessions by start, earliest first, ties in list order.
pub open spec fn is_session_order(order: Seq<usize>, sessions: Seq<WorkSession>) -> bool {
    is_ordering(
        order,
        sessions.len() as int,
        |i: int, j: int| text_precedes(session_starts(sessions), false, i, j),
    )
}

/// `sorted` is `sessions` listed in the order `order`.
pub open spec fn arranged(sorted: Seq<WorkSession>, sessions: Seq<WorkSession>, order: Seq<usize>) -> bool {
    &&& sorted.len() == order.len()
    &&& forall|k: int| 0 <= k < order.len() ==> sorted[k] == sessions[order[k] as int]
}

/// The sessions of the day, unordered.
pub fn day_sessions_unordered(state: &TrackingState, date: &str) -> (r: Vec<WorkSession>)
    ensures
        r@ == day_sessions(*state, date@),
{
    let mut out: Vec<WorkSession> = Vec::new();
    let mut i: usize = 0;
    while i < state.sessions.len()
        invariant
            i <= state.sessions.len(),
            out@ == completed_on(state.sessions@.take(i as int), date@),
        decreases state.sessions.len() - i,
    {
        proof {
            assert(state.sessions@.take(i + 1).drop_last() =~= state.sessions@.take(i as int));
        }
        if report_date_matches(state.sessions[i].started_at.as_str(), date) {
            out.push(state.sessions[i].duplicate());
        }
        i = i + 1;
    }
    proof {
        assert(state.sessions@.take(state.sessions.len() as int) =~= state.sessions@);
    }
    match &state.current_session_started_at {
        Some(started_at) => {
            if report_date_matches(started_at.as_str(), date) {
                out.push(
                    WorkSession {
                        started_at: started_at.clone(),
                        ended_at: None,
                        active_seconds: state.current_session_active_seconds,
                        idle_seconds: state.current_session_idle_seconds,
                        switch_count: state.current_session_switches,
                        app_count: state.current_session_apps.len() as u64,
                        end_reason: None,
                    },
                );
            }
        },
        None => {},
    }
    out
}

/// The sessions listed by start, earliest first, ties in list order.
pub fn order_sessions(sessions: &Vec<WorkSession>) -> (r: Vec<WorkSession>)
    ensures
        exists|order: Seq<usize>| #[trigger]
            is_session_order(order, sessions@) && arranged(r@, sessions@, order),
{
    let mut keys: Vec<Vec<char>> = Vec::new();
    let mut i: usize = 0;
    while i < sessions.len()
        invariant
            i <= sessions.len(),
            keys.len() == i,
            forall|k: int| 0 <= k < i ==> #[trigger] keys@[k]@ == sessions@[k].started_at@,
        decreases sessions.len() - i,
    {
        keys.push(chars_of(sessions[i].started_at.as_str()));
        i = i + 1;
    }
    proof {
        assert(keys@.map_values(|k: Vec<char>| k@) =~= session_starts(sessions@));
    }
    let order = stable_text_order(&keys, false);
    let mut out: Vec<WorkSession> = Vec::new();
    let mut j: usize = 0;
    while j < order.len()
        invariant
            order.len() == sessions.len(),
            forall|k: int| 0 <= k < order.len() ==> #[trigger] order@[k] < sessions.len(),
            j <= order.len(),
            out.len() == j,
            forall|k: int| 0 <= k < j ==> #[trigger] out@[k] == sessions@[order@[k] as int],
        decreases order.len() - j,
    {
        out.push(sessions[order[j]].duplicate());
        j = j + 1;
    }
    proof {
        assert(is_session_order(order@, sessions@));
        assert(arranged(out@, sessions@, order@));
    }
    out
}

/// The sessions of the day `date`, ordered by start (earliest first, ties
/// in list order).
pub fn daily_sessions_for_date(state: &TrackingState, date: &str) -> (r: Vec<WorkSession>)
    ensures
        exists|order: Seq<usize>| #[trigger]
            is_session_order(order, day_sessions(*state, date@)) && arranged(
                r@,
                day_sessions(*state, date@),
                order,
            ),
{
    let unordered = day_sessions_unordered(state, date);
    order_sessions(&unordered)
}

/// The text of an optional timestamp, empty where there is none.
pub open spec fn text_or_empty(value: Option<String>) -> Seq<char> {
    match value {
        Some(t) => t@,
        None => Seq::empty(),
    }
}

/// A session of 90 active minutes or more is followed by a session that
/// starts less than 15 minutes (and not before) it ended.
pub open spec fn short_break_between(first: WorkSession, second: WorkSession) -> bool {
    first.active_seconds >= 5400 && match (
        rfc3339_reading(text_or_empty(first.ended_at)),
        rfc3339_reading(second.started_at@),
    ) {
        (Some(e), Some(n)) => 0 <= n.0 - e.0 < 900,
        _ => false,
    }
}

/// The number of neighbouring pairs of `sessions` with a short break after
/// an extended session.
pub open spec fn short_breaks(sessions: Seq<WorkSession>) -> int
    decreases sessions.len(),
{
    if sessions.len() < 2 {
        0
    } else {
        short_breaks(sessions.drop_last()) + if short_break_between(
            sessions[sessions.len() - 2],
            sessions.last(),
        ) {
            1int
        } else {
            0int
        }
    }
}

/// The active seconds of the sessions.
pub open spec fn session_lengths(sessions: Seq<WorkSession>) -> Seq<u64> {
    sessions.map_values(|s: WorkSession| s.active_seconds)
}

/// The sum of the active seconds of the sessions whose active seconds
/// satisfy `keep`.
pub open spec fn active_sum(sessions: Seq<WorkSession>, min_seconds: int) -> int
    decreases sessions.len(),
{
    if sessions.len() == 0 {
        0
    } else {
        active_sum(sessions.drop_last(), min_seconds) + if sessions.last().active_seconds
            >= min_seconds {
            sessions.last().active_seconds as int
        } else {
            0int
        }
    }
}

/// The number of sessions with at least `min_seconds` (when `at_least`) or
/// fewer than `min_seconds` (otherwise) active seconds.
pub open spec fn count_sessions(sessions: Seq<WorkSession>, min_seconds: int, at_least: bool) -> int
    decreases sessions.len(),
{
    if sessions.len() == 0 {
        0
    } else {
        count_sessions(sessions.drop_last(), min_seconds, at_least) + if (sessions.last().active_seconds
            >= min_seconds) == at_least {
            1int
        } else {
            0int
        }
    }
}

pub open spec fn longest_active(sessions: Seq<WorkSession>) -> int
    decreases sessions.len(),
{
    if sessions.len() == 0 {
        0
    } else {
        let prev = longest_active(sessions.drop_last());
        if sessions.last().active_seconds > prev {
            sessions.last().active_seconds as int
        } else {
            prev
        }
    }
}

/// The whole-number flow metrics of a day. The caller derives the ratios:
/// active ratio `focus / (focus + idle)`, long-form share
/// `long_form_seconds / session_seconds`, switches per active hour
/// `switch_total / (focus_seconds / 3600)`, short-session share
/// `short_session_count / number of sessions` (each 0 where its divisor is 0).
pub struct DailyFlowCounts {
    pub focus_seconds: u64,
    pub idle_seconds: u64,
    pub switch_total: u64,
    pub switch_count: u32,
    pub work_span_minutes: u16,
    pub session_count: u16,
    pub median_session_seconds: u32,
    pub longest_session_seconds: u32,
    pub session_seconds: u64,
    pub long_form_seconds: u64,
    pub short_session_count: u64,
    pub extended_session_count: u16,
    pub short_break_after_extended_count: u16,
}

pub open spec fn flow_counts_match(c: DailyFlowCounts, state: TrackingState, date: Seq<char>) -> bool {
    let minutes = state.flow_minutes@;
    let sessions = day_sessions(state, date);
    let switches = cap(day_sum(minutes, date, MinuteField::Switches), u64::MAX as int);
    &&& c.focus_seconds == cap(day_sum(minutes, date, MinuteField::Focus), u64::MAX as int)
    &&& c.idle_seconds == cap(day_sum(minutes, date, MinuteField::Idle), u64::MAX as int)
    &&& c.switch_total == switches
    &&& c.switch_count == cap(switches, u32::MAX as int)
    &&& c.work_span_minutes == match observed_slot_range(minutes, date) {
        Some(r) => cap(r.1 - r.0 + 1, u16::MAX as int),
        None => 0,
    }
    &&& c.session_count == cap(sessions.len() as int, u16::MAX as int)
    &&& c.median_session_seconds == cap(
        match median_of(session_lengths(sessions)) {
            Some(m) => m,
            None => 0,
        },
        u32::MAX as int,
    )
    &&& c.longest_session_seconds == cap(longest_active(sessions), u32::MAX as int)
    &&& c.session_seconds == cap(active_sum(sessions, 0), u64::MAX as int)
    &&& c.long_form_seconds == cap(active_sum(sessions, 1500), u64::MAX as int)
    &&& c.short_session_count == count_sessions(sessions, 600, false)
    &&& c.extended_session_count == count_sessions(sessions, 5400, true) % 65536
    &&& exists|order: Seq<usize>|
        #[trigger] is_session_order(order, sessions) && c.short_break_after_extended_count == cap(
            short_breaks(Seq::new(sessions.len(), |k: int| sessions[order[k] as int])),
            u16::MAX as int,
        )
}

/// The number of short breaks after extended sessions among sessions in
/// start order.
fn count_short_breaks(sorted: &Vec<WorkSession>) -> (r: u16)
    ensures
        r == cap(short_breaks(sorted@), u16::MAX as int),
{
    let mut n: u16 = 0;
    if sorted.len() < 2 {
        return 0;
    }
    let mut k: usize = 1;
    proof {
        assert(sorted@.take(1).len() < 2);
    }
    while k < sorted.len()
        invariant
            1 <= k <= sorted.len(),
            n == cap(short_breaks(sorted@.take(k as int)), u16::MAX as int),
        decreases sorted.len() - k,
    {
        let ghost pre = sorted@.take(k as int);
        let ghost next = sorted@.take(k + 1);
        proof {
            assert(next.drop_last() =~= pre);
            assert(next[next.len() - 2] == sorted@[k - 1]);
            assert(next.last() == sorted@[k as int]);
            lemma_short_breaks_nonnegative(pre);
        }
        let first = &sorted[k - 1];
        let second = &sorted[k];
        if first.active_seconds >= 5400 {
            let ended = match &first.ended_at {
                Some(t) => parse_local_timestamp(t.as_str()),
                None => parse_local_timestamp(""),
            };
            proof {
                reveal_strlit("");
                assert(""@ =~= Seq::<char>::empty());
            }
            let next_start = parse_local_timestamp(second.started_at.as_str());
            match (ended, next_start) {
                (Some(e), Some(s)) => {
                    let gap = s.unix_seconds as i128 - e.unix_seconds as i128;
                    if 0 <= gap && gap < 900 {
                        n = n.saturating_add(1);
                    }
                },
                _ => {},
            }
        }
        k = k + 1;
    }
    proof {
        assert(sorted@.take(sorted.len() as int) =~= sorted@);
    }
    n
}

proof fn lemma_short_breaks_nonnegative(sessions: Seq<WorkSession>)
    ensures
        short_breaks(sessions) >= 0,
    decreases sessions.len(),
{
    if sessions.len() >= 2 {
        lemma_short_breaks_nonnegative(sessions.drop_last());
    }
}

/// Sums, counts and lengths of some sessions.
struct SessionTotals {
    sum: u64,
    long_form: u64,
    short: u64,
    extended: u16,
    longest: u64,
}

fn session_totals(sessions: &Vec<WorkSession>) -> (r: SessionTotals)
    ensures
        r.sum == cap(active_sum(sessions@, 0), u64::MAX as int),
        r.long_form == cap(active_sum(sessions@, 1500), u64::MAX as int),
        r.short == count_sessions(sessions@, 600, false),
        r.extended == count_sessions(sessions@, 5400, true) % 65536,
        r.longest == longest_active(sessions@),
{
    let mut t = SessionTotals { sum: 0, long_form: 0, short: 0, extended: 0, longest: 0 };
    let mut i: usize = 0;
    while i < sessions.len()
        invariant
            i <= sessions.len(),
            t.sum == cap(active_sum(sessions@.take(i as int), 0), u64::MAX as int),
            t.long_form == cap(active_sum(sessions@.take(i as int), 1500), u64::MAX as int),
            t.short == count_sessions(sessions@.take(i as int), 600, false),
            t.short <= i,
            t.extended == count_sessions(sessions@.take(i as int), 5400, true) % 65536,
            t.longest == longest_active(sessions@.take(i as int)),
        decreases sessions.len() - i,
    {
        let ghost pre = sessions@.take(i as int);
        proof {
            assert(sessions@.take(i + 1).drop_last() =~= pre);
            lemma_session_sums_nonnegative(pre);
        }
        let s = &sessions[i];
        t.sum = t.sum.saturating_add(s.active_seconds);
        if s.active_seconds >= 1500 {
            t.long_form = t.long_form.saturating_add(s.active_seconds);
        }
        if s.active_seconds < 600 {
            t.short = t.short + 1;
        }
        if s.active_seconds >= 5400 {
            t.extended = t.extended.wrapping_add(1);
        }
        if s.active_seconds > t.longest {
            t.longest = s.active_seconds;
        }
        i = i + 1;
    }
    proof {
        assert(sessions@.take(sessions.len() as int) =~= sessions@);
    }
    t
}

proof fn lemma_session_sums_nonnegative(sessions: Seq<WorkSession>)
    ensures
        active_sum(sessions, 0) >= 0,
        active_sum(sessions, 1500) >= 0,
        count_sessions(sessions, 5400, true) >= 0,
    decreases sessions.len(),
{
    if sessions.len() > 0 {
        lemma_session_sums_nonnegative(sessions.drop_last());
    }
}

fn lengths_of(sessions: &Vec<WorkSession>) -> (r: Vec<u64>)
    ensures
        r@ == session_lengths(sessions@),
{
    let mut out: Vec<u64> = Vec::new();
    let mut i: usize = 0;
    while i < sessions.len()
        invariant
            i <= sessions.len(),
            out.len() == i,
            forall|k: int| 0 <= k < i ==> #[trigger] out@[k] == sessions@[k].active_seconds,
        decreases sessions.len() - i,
    {
        out.push(sessions[i].active_seconds);
        i = i + 1;
    }
    proof {
        assert(out@ =~= session_lengths(sessions@));
    }
    out
}

fn cap_u32(x: u64) -> (r: u32)
    ensures
        r == cap(x as int, u32::MAX as int),
{
    if x > 4294967295 {
        4294967295
    } else {
        x as u32
    }
}

/// The whole-number flow metrics of the day `date`.
pub fn aggregate_daily_flow_metrics(state: &TrackingState, date: &str) -> (r: DailyFlowCounts)
    ensures
        flow_counts_match(r, *state, date@),
{
    let totals = day_minute_totals(&state.flow_minutes, date);
    let work_span_minutes: u16 = match (totals.first_observed_minute, totals.last_observed_minute) {
        (Some(start), Some(end)) => {
            let span = end - start + 1;
            if span > 65535 {
                65535
            } else {
                span as u16
            }
        },
        _ => 0,
    };
    let unordered = day_sessions_unordered(state, date);
    let sorted = order_sessions(&unordered);
    let short_breaks_count = count_short_breaks(&sorted);
    let sums = session_totals(&unordered);
    let median = match median_u64(lengths_of(&unordered)) {
        Some(m) => m,
        None => 0,
    };
    let count = unordered.len();
    proof {
        let order = choose|order: Seq<usize>|
            #[trigger] is_session_order(order, unordered@) && arranged(sorted@, unordered@, order);
        assert(Seq::new(unordered@.len(), |k: int| unordered@[order[k] as int]) =~= sorted@);
        assert(is_session_order(order, day_sessions(*state, date@)));
    }
    DailyFlowCounts {
        focus_seconds: totals.focus_seconds,
        idle_seconds: totals.idle_seconds,
        switch_total: totals.switch_count,
        switch_count: cap_u32(totals.switch_count),
        work_span_minutes,
        session_count: if count > 65535 {
            65535
        } else {
            count as u16
        },
        median_session_seconds: cap_u32(median),
        longest_session_seconds: cap_u32(sums.longest),
        session_seconds: sums.sum,
        long_form_seconds: sums.long_form,
        short_session_count: sums.short,
        extended_session_count: sums.extended,
        short_break_after_extended_count: short_breaks_count,
    }
}

} // verus!
