//! Totals of one day's flow minutes, sessions and re-entries.
use vstd::prelude::*;
use crate::clock::{minute_of_day_of, minute_of_text};
use crate::flow::{cap, field_value, FlowMinute, MinuteField};
use crate::order::{is_ordering, number_precedes, stable_number_order};
use crate::records::{ReentryEpisode, WorkSession};
use crate::text::{has_prefix, report_date_matches};

verus! {

broadcast use vstd::string::group_string_axioms;

/// The sum of `field` over the flow minutes of the day `date`.
pub open spec fn day_sum(minutes: Seq<FlowMinute>, date: Seq<char>, field: MinuteField) -> int
    decreases minutes.len(),
{
    if minutes.len() == 0 {
        0
    } else {
        day_sum(minutes.drop_last(), date, field) + if has_prefix(minutes.last().start_at@, date) {
            field_value(minutes.last(), field)
        } else {
            0
        }
    }
}

pub proof fn lemma_day_sum_nonnegative(minutes: Seq<FlowMinute>, date: Seq<char>, field: MinuteField)
    ensures
        day_sum(minutes, date, field) >= 0,
    decreases minutes.len(),
{
    if minutes.len() > 0 {
        lemma_day_sum_nonnegative(minutes.drop_last(), date, field);
    }
}

/// The minute of the day of a flow minute of the day `date` that has
/// observation and a readable start.
pub open spec fn observed_slot(m: FlowMinute, date: Seq<char>) -> Option<int> {
    if has_prefix(m.start_at@, date) && m.observed_seconds > 0 {
        minute_of_day_of(m.start_at@)
    } else {
        None
    }
}

/// The earliest and the latest minute of the day with observation.
pub open spec fn observed_slot_range(minutes: Seq<FlowMinute>, date: Seq<char>) -> Option<(int, int)>
    decreases minutes.len(),
{
    if minutes.len() == 0 {
        None
    } else {
        let prev = observed_slot_range(minutes.drop_last(), date);
        match observed_slot(minutes.last(), date) {
            Some(s) => match prev {
                Some(r) => Some((if s < r.0 { s } else { r.0 }, if s > r.1 { s } else { r.1 })),
                None => Some((s, s)),
            },
            None => prev,
        }
    }
}

/// Sums of `observed`, `focus`, `idle` and `switch` seconds and counts of the
/// day's flow minutes (each held at `u64::MAX`), and the earliest and latest
/// observed minute.
pub struct DayMinuteTotals {
    pub observed_seconds: u64,
    pub focus_seconds: u64,
    pub idle_seconds: u64,
    pub switch_count: u64,
    pub first_observed_minute: Option<usize>,
    pub last_observed_minute: Option<usize>,
}

pub open spec fn minute_totals_match(t: DayMinuteTotals, minutes: Seq<FlowMinute>, date: Seq<char>) -> bool {
    let m = u64::MAX as int;
    &&& t.observed_seconds == cap(day_sum(minutes, date, MinuteField::Observed), m)
    &&& t.focus_seconds == cap(day_sum(minutes, date, MinuteField::Focus), m)
    &&& t.idle_seconds == cap(day_sum(minutes, date, MinuteField::Idle), m)
    &&& t.switch_count == cap(day_sum(minutes, date, MinuteField::Switches), m)
    &&& match observed_slot_range(minutes, date) {
        Some(r) => t.first_observed_minute == Some(r.0 as usize) && t.last_observed_minute == Some(
            r.1 as usize,
        ) && 0 <= r.0 <= r.1 < 1440,
        None => t.first_observed_minute is None && t.last_observed_minute is None,
    }
}

/// Totals of the flow minutes of the day `date`.
pub fn day_minute_totals(minutes: &Vec<FlowMinute>, date: &str) -> (r: DayMinuteTotals)
    ensures
        minute_totals_match(r, minutes@, date@),
{
    let mut t = DayMinuteTotals {
        observed_seconds: 0,
        focus_seconds: 0,
        idle_seconds: 0,
        switch_count: 0,
        first_observed_minute: None,
        last_observed_minute: None,
    };
    let mut i: usize = 0;
    proof {
        assert(minutes@.take(0) =~= Seq::<FlowMinute>::empty());
    }
    while i < minutes.len()
        invariant
            i <= minutes.len(),
            minute_totals_match(t, minutes@.take(i as int), date@),
        decreases minutes.len() - i,
    {
        let ghost pre = minutes@.take(i as int);
        let ghost next = minutes@.take(i + 1);
        proof {
            assert(next.drop_last() =~= pre);
            assert(next.last() == minutes@[i as int]);
            lemma_day_sum_nonnegative(pre, date@, MinuteField::Observed);
            lemma_day_sum_nonnegative(pre, date@, MinuteField::Focus);
            lemma_day_sum_nonnegative(pre, date@, MinuteField::Idle);
            lemma_day_sum_nonnegative(pre, date@, MinuteField::Switches);
            let last = next.last();
            let on = has_prefix(last.start_at@, date@);
            assert(day_sum(next, date@, MinuteField::Observed) == day_sum(pre, date@, MinuteField::Observed) + if on { field_value(last, MinuteField::Observed) } else { 0 });
            assert(day_sum(next, date@, MinuteField::Focus) == day_sum(pre, date@, MinuteField::Focus) + if on { field_value(last, MinuteField::Focus) } else { 0 });
            assert(day_sum(next, date@, MinuteField::Idle) == day_sum(pre, date@, MinuteField::Idle) + if on { field_value(last, MinuteField::Idle) } else { 0 });
            assert(day_sum(next, date@, MinuteField::Switches) == day_sum(pre, date@, MinuteField::Switches) + if on { field_value(last, MinuteField::Switches) } else { 0 });
            assert(observed_slot_range(next, date@) == match observed_slot(last, date@) {
                Some(s) => match observed_slot_range(pre, date@) {
                    Some(r) => Some((if s < r.0 { s } else { r.0 }, if s > r.1 { s } else { r.1 })),
                    None => Some((s, s)),
                },
                None => observed_slot_range(pre, date@),
            });
        }
        let m = &minutes[i];
        if report_date_matches(m.start_at.as_str(), date) {
            t.observed_seconds = t.observed_seconds.saturating_add(m.observed_seconds as u64);
            t.focus_seconds = t.focus_seconds.saturating_add(m.focus_seconds as u64);
            t.idle_seconds = t.idle_seconds.saturating_add(m.idle_seconds as u64);
            t.switch_count = t.switch_count.saturating_add(m.switch_count as u64);
            if m.observed_seconds > 0 {
                match minute_of_text(m.start_at.as_str()) {
                    Some(s) => {
                        t.first_observed_minute = match t.first_observed_minute {
                            Some(f) => Some(if s < f { s } else { f }),
                            None => Some(s),
                        };
                        t.last_observed_minute = match t.last_observed_minute {
                            Some(l) => Some(if s > l { s } else { l }),
                            None => Some(s),
                        };
                    },
                    None => {},
                }
            }
        }
        proof {
            let mm = u64::MAX as int;
            assert(t.observed_seconds == cap(day_sum(next, date@, MinuteField::Observed), mm));
            assert(t.focus_seconds == cap(day_sum(next, date@, MinuteField::Focus), mm));
            assert(t.idle_seconds == cap(day_sum(next, date@, MinuteField::Idle), mm));
            assert(t.switch_count == cap(day_sum(next, date@, MinuteField::Switches), mm));
        }
        i = i + 1;
    }
    proof {
        assert(minutes@.take(minutes.len() as int) =~= minutes@);
    }
    t
}

/// The number of the sessions started on `date`.
pub open spec fn sessions_on(sessions: Seq<WorkSession>, date: Seq<char>) -> int
    decreases sessions.len(),
{
    if sessions.len() == 0 {
        0
    } else {
        sessions_on(sessions.drop_last(), date) + if has_prefix(sessions.last().started_at@, date) {
            1int
        } else {
            0int
        }
    }
}

/// Counts the sessions started on `date`.
pub fn count_sessions_on(sessions: &Vec<WorkSession>, date: &str) -> (r: usize)
    ensures
        r == sessions_on(sessions@, date@),
{
    let mut n: usize = 0;
    let mut i: usize = 0;
    while i < sessions.len()
        invariant
            i <= sessions.len(),
            n == sessions_on(sessions@.take(i as int), date@),
            n <= i,
        decreases sessions.len() - i,
    {
        proof {
            assert(sessions@.take(i + 1).drop_last() =~= sessions@.take(i as int));
        }
        if report_date_matches(sessions[i].started_at.as_str(), date) {
            n = n + 1;
        }
        i = i + 1;
    }
    proof {
        assert(sessions@.take(sessions.len() as int) =~= sessions@);
    }
    n
}

/// The number of finalized re-entries resumed on `date`.
pub open spec fn finalized_reentries_on(episodes: Seq<ReentryEpisode>, date: Seq<char>) -> int
    decreases episodes.len(),
{
    if episodes.len() == 0 {
        0
    } else {
        finalized_reentries_on(episodes.drop_last(), date) + if has_prefix(
            episodes.last().resumed_at@,
            date,
        ) && episodes.last().finalized {
            1int
        } else {
            0int
        }
    }
}

/// Counts the finalized re-entries resumed on `date`.
pub fn count_finalized_reentries_on(episodes: &Vec<ReentryEpisode>, date: &str) -> (r: usize)
    ensures
        r == finalized_reentries_on(episodes@, date@),
{
    let mut n: usize = 0;
    let mut i: usize = 0;
    while i < episodes.len()
        invariant
            i <= episodes.len(),
            n == finalized_reentries_on(episodes@.take(i as int), date@),
            n <= i,
        decreases episodes.len() - i,
    {
        proof {
            assert(episodes@.take(i + 1).drop_last() =~= episodes@.take(i as int));
        }
        if report_date_matches(episodes[i].resumed_at.as_str(), date) && episodes[i].finalized {
            n = n + 1;
        }
        i = i + 1;
    }
    proof {
        assert(episodes@.take(episodes.len() as int) =~= episodes@);
    }
    n
}

/// The position of a flow minute when the day's minutes are put in order:
/// its minute of the day, or `u64::MAX` when its start cannot be read.
pub open spec fn minute_order_key(m: FlowMinute) -> u64 {
    match minute_of_day_of(m.start_at@) {
        Some(k) => k as u64,
        None => u64::MAX,
    }
}

/// The flow minutes of the day `date`, in the order of the list.
pub open spec fn minutes_on(minutes: Seq<FlowMinute>, date: Seq<char>) -> Seq<FlowMinute>
    decreases minutes.len(),
{
    if minutes.len() == 0 {
        seq![]
    } else {
        let prev = minutes_on(minutes.drop_last(), date);
        if has_prefix(minutes.last().start_at@, date) {
            prev.push(minutes.last())
        } else {
            prev
        }
    }
}

/// The order keys of some flow minutes.
pub open spec fn minute_keys(minutes: Seq<FlowMinute>) -> Seq<u64> {
    minutes.map_values(|m: FlowMinute| minute_order_key(m))
}

/// `order` lists the day's minutes by minute of the day, ties in list order.
pub open spec fn is_minute_order(order: Seq<usize>, on: Seq<FlowMinute>) -> bool {
    is_ordering(order, on.len() as int, |i: int, j: int| number_precedes(minute_keys(on), i, j))
}

/// The flow minutes of the day `date` ordered by minute of the day (ties,
/// and minutes whose start cannot be read, in list order; those last).
pub fn flow_minutes_for_date(minutes: &Vec<FlowMinute>, date: &str) -> (r: Vec<FlowMinute>)
    ensures
        exists|order: Seq<usize>|
            #[trigger] is_minute_order(order, minutes_on(minutes@, date@)) && r@.len()
                == order.len() && forall|k: int|
                0 <= k < order.len() ==> r@[k] == minutes_on(minutes@, date@)[order[k] as int],
{
    let mut chosen: Vec<FlowMinute> = Vec::new();
    let mut keys: Vec<u64> = Vec::new();
    let mut i: usize = 0;
    while i < minutes.len()
        invariant
            i <= minutes.len(),
            chosen@ == minutes_on(minutes@.take(i as int), date@),
            keys.len() == chosen.len(),
            forall|k: int| 0 <= k < keys.len() ==> #[trigger] keys@[k] == minute_order_key(chosen@[k]),
        decreases minutes.len() - i,
    {
        proof {
            assert(minutes@.take(i + 1).drop_last() =~= minutes@.take(i as int));
        }
        if report_date_matches(minutes[i].start_at.as_str(), date) {
            let key: u64 = match minute_of_text(minutes[i].start_at.as_str()) {
                Some(k) => k as u64,
                None => u64::MAX,
            };
            chosen.push(minutes[i].duplicate());
            keys.push(key);
        }
        i = i + 1;
    }
    proof {
        assert(minutes@.take(minutes.len() as int) =~= minutes@);
        assert(keys@ =~= minute_keys(chosen@));
    }
    let order = stable_number_order(&keys);
    let mut out: Vec<FlowMinute> = Vec::new();
    let mut j: usize = 0;
    while j < order.len()
        invariant
            order.len() == chosen.len(),
            forall|k: int| 0 <= k < order.len() ==> #[trigger] order@[k] < chosen.len(),
            j <= order.len(),
            out.len() == j,
            forall|k: int| 0 <= k < j ==> #[trigger] out@[k] == chosen@[order@[k] as int],
        decreases order.len() - j,
    {
        out.push(chosen[order[j]].duplicate());
        j = j + 1;
    }
    proof {
        assert(is_minute_order(order@, chosen@));
    }
    out
}

} // verus!
