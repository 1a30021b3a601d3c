//! The focus-experience view of one day: the flow ribbon of buckets and the
//! review list of work sessions.
use vstd::prelude::*;
use crate::clock::{date_reading, day_number_text, day_text, parsed_date};
use crate::flow::{
    bucket_accumulators, bucket_count, bucket_sum, bucket_totals, cap, flow_state, flow_state_of,
    FlowBucketAccumulator, FlowState, MinuteField,
};
use crate::order::{is_ordering, stable_text_order, text_precedes};
use crate::records::WorkSession;
use crate::sessions::{
    completed_card, live_session_card, running_card, session_card, CardContent, SessionCardView,
};
use crate::state::TrackingState;
use crate::laws::{
    all_focused, bucket_totals_add_up_to_minutes, longest_span_is_best_focused_run, slotted_sum, span_focus,
    switch_peak_is_first_maximum, weighed_switches,
};
use crate::text::{chars_of, has_prefix, lex_lt, owned, push_two_digits, report_date_matches, two_digits};

verus! {

broadcast use vstd::string::group_string_axioms;

/// The dates and the UTC offset from which bucket timestamps are written.
pub struct BucketCalendar {
    pub day: String,
    pub next_day: String,
    pub offset: String,
}

/// The day whose buckets are shown: the day `date` names, or `today_days`
/// where `date` cannot be read as a `%Y-%m-%d` date.
pub open spec fn base_day(date: Seq<char>, today_days: i32) -> int {
    match date_reading(date) {
        Some(d) => d.0 as int,
        None => today_days as int,
    }
}

/// The base day and the day after it can both be written as dates.
pub open spec fn calendar_available(date: Seq<char>, today_days: i32) -> bool {
    let d = base_day(date, today_days);
    &&& d < i32::MAX
    &&& day_number_text(d as i32) is Some
    &&& day_number_text((d + 1) as i32) is Some
}

/// The text of the base day.
pub open spec fn base_day_text(date: Seq<char>, today_days: i32) -> Seq<char> {
    day_number_text(base_day(date, today_days) as i32)->0
}

/// The text of the day after the base day.
pub open spec fn next_day_text(date: Seq<char>, today_days: i32) -> Seq<char> {
    day_number_text((base_day(date, today_days) + 1) as i32)->0
}

/// Resolves the dates on which bucket timestamps are written.
pub fn bucket_calendar(date: &str, today_days: i32, offset: &str) -> (r: Option<BucketCalendar>)
    ensures
        r is Some <==> calendar_available(date@, today_days),
        r matches Some(c) ==> {
            &&& c.day@ == base_day_text(date@, today_days)
            &&& c.next_day@ == next_day_text(date@, today_days)
            &&& c.offset@ == offset@
        },
{
    let base = match parsed_date(date) {
        Some(d) => d.days_from_ce,
        None => today_days,
    };
    if base == i32::MAX {
        return None;
    }
    let day = match day_text(base) {
        Some(t) => t,
        None => return None,
    };
    let next_day = match day_text(base + 1) {
        Some(t) => t,
        None => return None,
    };
    Some(BucketCalendar { day, next_day, offset: owned(offset) })
}

/// The timestamp of minute `minute` counted from the start of the base day
/// (minutes from 1440 on fall on the next day): `YYYY-MM-DDTHH:MM:00` and the
/// UTC offset.
pub open spec fn bucket_stamp(day: Seq<char>, next_day: Seq<char>, offset: Seq<char>, minute: int) -> Seq<
    char,
> {
    (if minute < 1440 {
        day
    } else {
        next_day
    }) + "T"@ + two_digits(((minute % 1440) / 60) as nat) + ":"@ + two_digits((minute % 60) as nat)
        + ":00"@ + offset
}

/// The timestamp at which minute `minute_of_day` of the bucket day begins.
pub fn flow_bucket_timestamp(calendar: &BucketCalendar, minute_of_day: usize) -> (r: String)
    requires
        minute_of_day < 2880,
    ensures
        r@ == bucket_stamp(
            calendar.day@,
            calendar.next_day@,
            calendar.offset@,
            minute_of_day as int,
        ),
{
    let mut out = if minute_of_day < 1440 {
        calendar.day.clone()
    } else {
        calendar.next_day.clone()
    };
    let minute = minute_of_day % 1440;
    proof {
        reveal_strlit("T");
        reveal_strlit(":");
        reveal_strlit(":00");
    }
    out.append("T");
    push_two_digits(&mut out, minute / 60);
    out.append(":");
    push_two_digits(&mut out, minute % 60);
    out.append(":00");
    out.append(calendar.offset.as_str());
    proof {
        assert((minute_of_day as int % 1440) % 60 == minute_of_day as int % 60);
    }
    out
}

/// One bucket of the flow ribbon. `totals` holds the bucket's sums; the
/// other counts are those sums held at `u16::MAX`.
pub struct FocusFlowBucketView {
    pub start_at: String,
    pub end_at: String,
    pub state: FlowState,
    pub observed_seconds: u16,
    pub focus_seconds: u16,
    pub idle_seconds: u16,
    pub switch_count: u16,
    pub input_actions: u32,
    pub totals: FlowBucketAccumulator,
}

pub struct FocusFlowSummary {
    pub focus_seconds: u64,
    pub idle_seconds: u64,
    pub longest_focused_span_seconds: u64,
    pub highest_switch_bucket_start_at: Option<String>,
    pub highest_switch_count: u16,
}

pub struct FocusFlowView {
    pub bucket_minutes: u8,
    pub day_start_at: String,
    pub day_end_at: String,
    pub buckets: Vec<FocusFlowBucketView>,
    pub summary: FocusFlowSummary,
}

pub struct SessionSummary {
    pub completed_count: u64,
    pub active_seconds: u64,
    pub longest_session_seconds: u64,
    pub average_session_seconds: u64,
}

pub struct SessionReviewView {
    pub sessions: Vec<SessionCardView>,
    pub summary: SessionSummary,
}

pub struct FocusExperienceView {
    pub schema_version: u32,
    pub date: String,
    pub generated_at: String,
    pub is_live: bool,
    pub ribbon: FocusFlowView,
    pub sessions: SessionReviewView,
}

/// The buckets of the day `date`, one per `bucket_minutes` minutes.
pub open spec fn day_buckets(
    state: TrackingState,
    date: Seq<char>,
    bucket_minutes: int,
) -> Seq<FlowBucketAccumulator> {
    Seq::new(
        bucket_count(bucket_minutes) as nat,
        |b: int| bucket_totals(state.flow_minutes@, date, bucket_minutes, b),
    )
}

/// The total `field` of some buckets.
pub open spec fn totals_sum(accs: Seq<FlowBucketAccumulator>, field: MinuteField) -> int
    decreases accs.len(),
{
    if accs.len() == 0 {
        0
    } else {
        totals_sum(accs.drop_last(), field) + match field {
            MinuteField::Observed => accs.last().observed_seconds as int,
            MinuteField::Focus => accs.last().focus_seconds as int,
            MinuteField::Idle => accs.last().idle_seconds as int,
            MinuteField::Switches => accs.last().switch_count as int,
            MinuteField::Inputs => accs.last().input_actions as int,
        }
    }
}

/// Walking the buckets in order: the focus seconds of the run of focused
/// buckets that ends at the last one, and of the longest such run.
pub open spec fn focus_runs(accs: Seq<FlowBucketAccumulator>) -> (int, int)
    decreases accs.len(),
{
    if accs.len() == 0 {
        (0, 0)
    } else {
        let prev = focus_runs(accs.drop_last());
        let v = accs.last();
        if flow_state_of(v) == FlowState::Focused {
            let c = cap(prev.0 + v.focus_seconds, u64::MAX as int);
            (c, if c > prev.1 {
                c
            } else {
                prev.1
            })
        } else {
            (0, prev.1)
        }
    }
}

/// The highest switch count of a bucket (held at `u16::MAX`), and the first
/// bucket that has it; no bucket when no bucket has a switch.
pub open spec fn switch_peak(accs: Seq<FlowBucketAccumulator>) -> (int, Option<int>)
    decreases accs.len(),
{
    if accs.len() == 0 {
        (0, None)
    } else {
        let prev = switch_peak(accs.drop_last());
        let sw = cap(accs.last().switch_count as int, u16::MAX as int);
        if sw > prev.0 {
            (sw, Some(accs.len() - 1))
        } else {
            prev
        }
    }
}

/// The cards of the completed sessions that started on `date`, in the
/// order of the session list.
pub open spec fn completed_cards(sessions: Seq<WorkSession>, date: Seq<char>) -> Seq<CardContent>
    decreases sessions.len(),
{
    if sessions.len() == 0 {
        seq![]
    } else {
        let prev = completed_cards(sessions.drop_last(), date);
        if has_prefix(sessions.last().started_at@, date) {
            prev.push(completed_card(sessions.last(), (sessions.len() - 1) as nat))
        } else {
            prev
        }
    }
}

/// The running session started on `date`.
pub open spec fn has_running_session(state: TrackingState, date: Seq<char>) -> bool {
    state.current_session_started_at is Some && has_prefix(
        state.current_session_started_at->0@,
        date,
    )
}

/// The cards of the day before ordering: the completed sessions, then the
/// running one.
pub open spec fn day_cards(state: TrackingState, date: Seq<char>) -> Seq<CardContent> {
    let done = completed_cards(state.sessions@, date);
    if has_running_session(state, date) {
        done.push(
            running_card(
                state.current_session_started_at->0@,
                state.enabled,
                state.current_session_active_seconds,
                state.current_session_apps.len() as u64,
                state.current_session_switches,
            ),
        )
    } else {
        done
    }
}

pub open spec fn cards_active_total(cards: Seq<CardContent>) -> int
    decreases cards.len(),
{
    if cards.len() == 0 {
        0
    } else {
        cards_active_total(cards.drop_last()) + cards.last().active_seconds
    }
}

pub open spec fn cards_longest(cards: Seq<CardContent>) -> int
    decreases cards.len(),
{
    if cards.len() == 0 {
        0
    } else {
        let prev = cards_longest(cards.drop_last());
        if cards.last().active_seconds > prev {
            cards.last().active_seconds as int
        } else {
            prev
        }
    }
}

pub open spec fn cards_completed(cards: Seq<CardContent>) -> int
    decreases cards.len(),
{
    if cards.len() == 0 {
        0
    } else {
        cards_completed(cards.drop_last()) + if cards.last().is_live {
            0int
        } else {
            1int
        }
    }
}

/// The starts of the cards, by which they are ordered.
pub open spec fn card_starts(cards: Seq<CardContent>) -> Seq<Seq<char>> {
    cards.map_values(|c: CardContent| c.started_at)
}

/// `order` lists the cards by start, latest first, ties in their order.
pub open spec fn is_review_order(order: Seq<usize>, cards: Seq<CardContent>) -> bool {
    is_ordering(
        order,
        cards.len() as int,
        |i: int, j: int| text_precedes(card_starts(cards), true, i, j),
    )
}

/// `shown` is `cards` ordered by start, latest first, ties in their order.
pub open spec fn in_review_order(shown: Seq<CardContent>, cards: Seq<CardContent>) -> bool {
    exists|order: Seq<usize>|
        #[trigger] is_review_order(order, cards) && shown.len() == cards.len() && forall|i: int|
            0 <= i < cards.len() ==> shown[i] == cards[order[i] as int]
}

/// One ribbon bucket shows the totals `v` between `start` and `end`.
pub open spec fn bucket_view_matches(
    view: FocusFlowBucketView,
    v: FlowBucketAccumulator,
    start: Seq<char>,
    end: Seq<char>,
) -> bool {
    &&& view.start_at@ == start
    &&& view.end_at@ == end
    &&& view.state == flow_state_of(v)
    &&& view.observed_seconds == cap(v.observed_seconds as int, u16::MAX as int)
    &&& view.focus_seconds == cap(v.focus_seconds as int, u16::MAX as int)
    &&& view.idle_seconds == cap(v.idle_seconds as int, u16::MAX as int)
    &&& view.switch_count == cap(v.switch_count as int, u16::MAX as int)
    &&& view.input_actions == v.input_actions
    &&& view.totals == v
}

/// The ribbon shows the buckets `accs` of `bucket_minutes` minutes, with
/// timestamps written on the days `day` and `next` at `offset`.
pub open spec fn ribbon_matches(
    ribbon: FocusFlowView,
    accs: Seq<FlowBucketAccumulator>,
    bucket_minutes: u8,
    day: Seq<char>,
    next: Seq<char>,
    offset: Seq<char>,
) -> bool {
    let bm = bucket_minutes as int;
    let peak = switch_peak(accs);
    &&& ribbon.bucket_minutes == bucket_minutes
    &&& ribbon.day_start_at@ == bucket_stamp(day, next, offset, 0)
    &&& ribbon.day_end_at@ == bucket_stamp(day, next, offset, 1440)
    &&& ribbon.buckets.len() == accs.len()
    &&& forall|b: int|
        0 <= b < accs.len() ==> bucket_view_matches(
            #[trigger] ribbon.buckets@[b],
            accs[b],
            bucket_stamp(day, next, offset, b * bm),
            bucket_stamp(day, next, offset, (b + 1) * bm),
        )
    &&& ribbon.summary.focus_seconds == cap(totals_sum(accs, MinuteField::Focus), u64::MAX as int)
    &&& ribbon.summary.idle_seconds == cap(totals_sum(accs, MinuteField::Idle), u64::MAX as int)
    &&& ribbon.summary.longest_focused_span_seconds == focus_runs(accs).1
    &&& ribbon.summary.highest_switch_count == peak.0
    &&& match peak.1 {
        Some(k) => ribbon.summary.highest_switch_bucket_start_at matches Some(s) && s@
            == bucket_stamp(day, next, offset, k * bm),
        None => ribbon.summary.highest_switch_bucket_start_at is None,
    }
}

/// The view of the day `date` with buckets of `bucket_minutes` minutes.
pub open spec fn focus_view_matches(
    view: FocusExperienceView,
    state: TrackingState,
    date: Seq<char>,
    bucket_minutes: u8,
    today_days: i32,
    offset: Seq<char>,
    generated_at: Seq<char>,
) -> bool {
    let cards = day_cards(state, date);
    &&& view.schema_version == 1
    &&& view.date@ == date
    &&& view.generated_at@ == generated_at
    &&& view.is_live == (state.enabled && has_running_session(state, date))
    &&& ribbon_matches(
        view.ribbon,
        day_buckets(state, date, bucket_minutes as int),
        bucket_minutes,
        base_day_text(date, today_days),
        next_day_text(date, today_days),
        offset,
    )
    &&& in_review_order(view.sessions.sessions@.map_values(|c: SessionCardView| c@), cards)
    &&& view.sessions.summary.completed_count == cards_completed(cards)
    &&& view.sessions.summary.active_seconds == cards_active_total(cards)
    &&& view.sessions.summary.longest_session_seconds == cards_longest(cards)
    &&& view.sessions.summary.average_session_seconds == if cards.len() == 0 {
        0
    } else {
        cards_active_total(cards) / (cards.len() as int)
    }
}

/// The flow ribbon of the day `date`.
pub fn build_ribbon(
    state: &TrackingState,
    date: &str,
    bucket_minutes: u8,
    calendar: &BucketCalendar,
) -> (r: FocusFlowView)
    requires
        bucket_minutes > 0,
    ensures
        ribbon_matches(
            r,
            day_buckets(*state, date@, bucket_minutes as int),
            bucket_minutes,
            calendar.day@,
            calendar.next_day@,
            calendar.offset@,
        ),
{
    let ghost bm = bucket_minutes as int;
    let ghost accs = day_buckets(*state, date@, bm);
    let ghost day = calendar.day@;
    let ghost next = calendar.next_day@;
    let ghost offset = calendar.offset@;
    let aggregates = bucket_accumulators(&state.flow_minutes, date, bucket_minutes);
    proof {
        assert(aggregates@ =~= accs);
    }
    let count = aggregates.len();
    let mut focus_seconds: u64 = 0;
    let mut idle_seconds: u64 = 0;
    let mut longest: u64 = 0;
    let mut current: u64 = 0;
    let mut highest_switch_count: u16 = 0;
    let mut highest_at: Option<String> = None;
    let mut buckets: Vec<FocusFlowBucketView> = Vec::new();
    let mut index: usize = 0;
    proof {
        assert(accs.take(0).len() == 0);
    }
    while index < count
        invariant
            bucket_minutes > 0,
            bm == bucket_minutes as int,
            aggregates@ == accs,
            count == accs.len(),
            count == bucket_count(bm),
            index <= count,
            buckets.len() == index,
            forall|b: int|
                0 <= b < index ==> bucket_view_matches(
                    #[trigger] buckets@[b],
                    accs[b],
                    bucket_stamp(day, next, offset, b * bm),
                    bucket_stamp(day, next, offset, (b + 1) * bm),
                ),
            day == calendar.day@,
            next == calendar.next_day@,
            offset == calendar.offset@,
            focus_seconds == cap(totals_sum(accs.take(index as int), MinuteField::Focus), u64::MAX as int),
            idle_seconds == cap(totals_sum(accs.take(index as int), MinuteField::Idle), u64::MAX as int),
            (current as int, longest as int) == focus_runs(accs.take(index as int)),
            highest_switch_count == switch_peak(accs.take(index as int)).0,
            match switch_peak(accs.take(index as int)).1 {
                Some(k) => highest_at matches Some(s) && s@ == bucket_stamp(day, next, offset, k * bm),
                None => highest_at is None,
            },
        decreases count - index,
    {
        let ghost pre = accs.take(index as int);
        let ghost now = accs.take(index + 1);
        proof {
            assert(now.drop_last() =~= pre);
            assert(now.last() == accs[index as int]);
            assert(index * bm < 1440) by (nonlinear_arith)
                requires index < count, count == 1440int / bm, bm > 0;
            assert((index + 1) * bm <= 1440) by (nonlinear_arith)
                requires index < count, count == 1440int / bm, bm > 0;
        }
        let v = aggregates[index];
        let state_name = flow_state(&v);
        let start_at = flow_bucket_timestamp(calendar, index * bucket_minutes as usize);
        let end_at = flow_bucket_timestamp(calendar, (index + 1) * bucket_minutes as usize);
        let observed: u16 = if v.observed_seconds > 65535 { 65535 } else { v.observed_seconds as u16 };
        let focus: u16 = if v.focus_seconds > 65535 { 65535 } else { v.focus_seconds as u16 };
        let idle: u16 = if v.idle_seconds > 65535 { 65535 } else { v.idle_seconds as u16 };
        let switches: u16 = if v.switch_count > 65535 { 65535 } else { v.switch_count as u16 };
        focus_seconds = focus_seconds.saturating_add(v.focus_seconds as u64);
        idle_seconds = idle_seconds.saturating_add(v.idle_seconds as u64);
        if state_name == FlowState::Focused {
            current = current.saturating_add(v.focus_seconds as u64);
            if current > longest {
                longest = current;
            }
        } else {
            current = 0;
        }
        if switches > highest_switch_count {
            highest_switch_count = switches;
            highest_at = Some(start_at.clone());
        }
        buckets.push(
            FocusFlowBucketView {
                start_at,
                end_at,
                state: state_name,
                observed_seconds: observed,
                focus_seconds: focus,
                idle_seconds: idle,
                switch_count: switches,
                input_actions: v.input_actions,
                totals: v,
            },
        );
        index = index + 1;
    }
    proof {
        assert(accs.take(count as int) =~= accs);
    }
    let day_start_at = flow_bucket_timestamp(calendar, 0);
    let day_end_at = flow_bucket_timestamp(calendar, 1440);
    FocusFlowView {
        bucket_minutes,
        day_start_at,
        day_end_at,
        buckets,
        summary: FocusFlowSummary {
            focus_seconds,
            idle_seconds,
            longest_focused_span_seconds: longest,
            highest_switch_bucket_start_at: highest_at,
            highest_switch_count,
        },
    }
}

/// The focus-experience view of the day `date`: the flow ribbon with buckets
/// of `bucket_minutes` minutes and the review of the day's sessions, latest
/// first. Bucket timestamps are written on the day `date` names (on the day
/// numbered `today_days` where `date` is not a date) at the UTC offset
/// `offset`; `None` where that day or the next cannot be written as a date.
pub fn build_focus_experience_view(
    state: &TrackingState,
    date: &str,
    bucket_minutes: u8,
    today_days: i32,
    offset: &str,
    generated_at: String,
) -> (r: Option<FocusExperienceView>)
    requires
        bucket_minutes > 0,
        cards_active_total(day_cards(*state, date@)) <= u64::MAX,
    ensures
        r is Some <==> calendar_available(date@, today_days),
        r matches Some(view) ==> focus_view_matches(
            view,
            *state,
            date@,
            bucket_minutes,
            today_days,
            offset@,
            generated_at@,
        ),
        r matches Some(view) ==> ({
            let shown = view.sessions.sessions@.map_values(|c: SessionCardView| c@);
            &&& forall|i: int, j: int|
                0 <= i < j < shown.len() ==> lex_lt(#[trigger] shown[j].started_at, #[trigger] shown[i].started_at)
                    || shown[i].started_at == shown[j].started_at
            &&& shown.to_multiset() == day_cards(*state, date@).to_multiset()
            &&& view.sessions.summary.completed_count == cards_completed(shown)
            &&& view.sessions.summary.active_seconds == cards_active_total(shown)
            &&& view.sessions.summary.longest_session_seconds == cards_longest(shown)
            &&& view.sessions.summary.average_session_seconds == if shown.len() == 0 {
                0
            } else {
                cards_active_total(shown) / (shown.len() as int)
            }
        }),
        r matches Some(view) ==> ({
            let n = bucket_count(bucket_minutes as int);
            let minutes = state.flow_minutes@;
            &&& (forall|b: int| 0 <= b < n ==> #[trigger] bucket_sum(minutes, date@, bucket_minutes as int, b, MinuteField::Focus) <= u32::MAX)
                ==> view.ribbon.summary.focus_seconds == cap(
                slotted_sum(minutes, date@, bucket_minutes as int, n, MinuteField::Focus),
                u64::MAX as int,
            )
            &&& (forall|b: int| 0 <= b < n ==> #[trigger] bucket_sum(minutes, date@, bucket_minutes as int, b, MinuteField::Idle) <= u32::MAX)
                ==> view.ribbon.summary.idle_seconds == cap(
                slotted_sum(minutes, date@, bucket_minutes as int, n, MinuteField::Idle),
                u64::MAX as int,
            )
        }),
        r matches Some(view) ==> ({
            let buckets = view.ribbon.buckets@;
            let summary = view.ribbon.summary;
            let totals = buckets.map_values(|b: FocusFlowBucketView| b.totals);
            &&& forall|i: int| 0 <= i < buckets.len() ==> #[trigger] buckets[i].switch_count <= summary.highest_switch_count
            &&& (summary.highest_switch_bucket_start_at is None <==> summary.highest_switch_count == 0)
            &&& (summary.highest_switch_bucket_start_at matches Some(s) ==> exists|j: int|
                0 <= j < buckets.len() && s@ == #[trigger] buckets[j].start_at@ && buckets[j].switch_count
                    == summary.highest_switch_count && forall|i: int|
                    0 <= i < j ==> #[trigger] buckets[i].switch_count < summary.highest_switch_count)
            &&& forall|i: int, j: int|
                0 <= i < j <= totals.len() && all_focused(totals, i, j) ==> cap(
                    #[trigger] span_focus(totals, i, j),
                    u64::MAX as int,
                ) <= summary.longest_focused_span_seconds
            &&& (summary.longest_focused_span_seconds == 0 || exists|i: int, j: int|
                0 <= i < j <= totals.len() && all_focused(totals, i, j) && summary.longest_focused_span_seconds
                    == cap(#[trigger] span_focus(totals, i, j), u64::MAX as int))
        }),
{
    let calendar = match bucket_calendar(date, today_days, offset) {
        Some(c) => c,
        None => return None,
    };
    let ribbon = build_ribbon(state, date, bucket_minutes, &calendar);
    proof {
        let accs = day_buckets(*state, date@, bucket_minutes as int);
        let buckets = ribbon.buckets@;
        assert(buckets.map_values(|b: FocusFlowBucketView| b.totals) =~= accs) by {
            assert forall|b: int| 0 <= b < accs.len() implies #[trigger] buckets[b].totals == accs[b] by {
                assert(bucket_view_matches(
                    buckets[b],
                    accs[b],
                    bucket_stamp(calendar.day@, calendar.next_day@, calendar.offset@, b * bucket_minutes),
                    bucket_stamp(calendar.day@, calendar.next_day@, calendar.offset@, (b + 1) * bucket_minutes),
                ));
            }
        }
        switch_peak_is_first_maximum(accs);
        longest_span_is_best_focused_run(accs);
        assert forall|i: int| 0 <= i < buckets.len() implies #[trigger] buckets[i].switch_count == weighed_switches(accs[i]) by {
            assert(bucket_view_matches(
                buckets[i],
                accs[i],
                bucket_stamp(calendar.day@, calendar.next_day@, calendar.offset@, i * bucket_minutes),
                bucket_stamp(calendar.day@, calendar.next_day@, calendar.offset@, (i + 1) * bucket_minutes),
            ));
        }
        if let Some(k) = switch_peak(accs).1 {
            assert(buckets[k].start_at@ == bucket_stamp(calendar.day@, calendar.next_day@, calendar.offset@, k * bucket_minutes));
        }
    }
    let unordered = unordered_day_cards(state, date);
    let totals = card_totals(&unordered);
    let cards = order_cards(&unordered);
    proof {
        let n = bucket_count(bucket_minutes as int);
        let minutes = state.flow_minutes@;
        assert(n >= 0) by (nonlinear_arith)
            requires
                n == 1440int / (bucket_minutes as int),
                bucket_minutes > 0,
        ;
        if forall|b: int| 0 <= b < n ==> #[trigger] bucket_sum(minutes, date@, bucket_minutes as int, b, MinuteField::Focus) <= u32::MAX {
            bucket_totals_add_up_to_minutes(minutes, date@, bucket_minutes as int, n, MinuteField::Focus);
        }
        if forall|b: int| 0 <= b < n ==> #[trigger] bucket_sum(minutes, date@, bucket_minutes as int, b, MinuteField::Idle) <= u32::MAX {
            bucket_totals_add_up_to_minutes(minutes, date@, bucket_minutes as int, n, MinuteField::Idle);
        }
        assert(unordered@.map_values(|c: SessionCardView| c@).len() == unordered.len());
        crate::laws::review_list_is_latest_first(
            cards@.map_values(|c: SessionCardView| c@),
            unordered@.map_values(|c: SessionCardView| c@),
        );
    }
    let count = unordered.len() as u64;
    let average = if count == 0 {
        0
    } else {
        totals.1 / count
    };
    let is_live = state.enabled && match &state.current_session_started_at {
        Some(started_at) => report_date_matches(started_at.as_str(), date),
        None => false,
    };
    Some(
        FocusExperienceView {
            schema_version: 1,
            date: owned(date),
            generated_at,
            is_live,
            ribbon,
            sessions: SessionReviewView {
                sessions: cards,
                summary: SessionSummary {
                    completed_count: totals.0,
                    active_seconds: totals.1,
                    longest_session_seconds: totals.2,
                    average_session_seconds: average,
                },
            },
        },
    )
}

/// The cards of the day before ordering.
pub fn unordered_day_cards(state: &TrackingState, date: &str) -> (r: Vec<SessionCardView>)
    ensures
        r@.map_values(|c: SessionCardView| c@) == day_cards(*state, date@),
{
    let mut cards: Vec<SessionCardView> = Vec::new();
    let mut i: usize = 0;
    while i < state.sessions.len()
        invariant
            i <= state.sessions.len(),
            cards@.map_values(|c: SessionCardView| c@) == completed_cards(
                state.sessions@.take(i as int),
                date@,
            ),
        decreases state.sessions.len() - i,
    {
        let ghost prefix = state.sessions@.take(i + 1);
        proof {
            assert(prefix.drop_last() =~= state.sessions@.take(i as int));
            assert(prefix.last() == state.sessions@[i as int]);
        }
        if report_date_matches(state.sessions[i].started_at.as_str(), date) {
            let card = session_card(&state.sessions[i], i);
            let ghost before = cards@;
            cards.push(card);
            proof {
                assert(cards@.map_values(|c: SessionCardView| c@) =~= before.map_values(
                    |c: SessionCardView| c@,
                ).push(card@));
            }
        }
        i = i + 1;
    }
    proof {
        assert(state.sessions@.take(state.sessions.len() as int) =~= state.sessions@);
    }
    match &state.current_session_started_at {
        Some(started_at) => {
            if report_date_matches(started_at.as_str(), date) {
                let card = live_session_card(
                    started_at,
                    state.enabled,
                    state.current_session_active_seconds,
                    state.current_session_apps.len() as u64,
                    state.current_session_switches,
                );
                let ghost before = cards@;
                cards.push(card);
                proof {
                    assert(cards@.map_values(|c: SessionCardView| c@) =~= before.map_values(
                        |c: SessionCardView| c@,
                    ).push(card@));
                }
            }
        },
        None => {},
    }
    cards
}

/// The cards ordered by start, latest first, ties in their order.
pub fn order_cards(cards: &Vec<SessionCardView>) -> (r: Vec<SessionCardView>)
    ensures
        in_review_order(
            r@.map_values(|c: SessionCardView| c@),
            cards@.map_values(|c: SessionCardView| c@),
        ),
{
    let ghost contents = cards@.map_values(|c: SessionCardView| c@);
    let mut keys: Vec<Vec<char>> = Vec::new();
    let mut i: usize = 0;
    while i < cards.len()
        invariant
            i <= cards.len(),
            keys.len() == i,
            forall|k: int| 0 <= k < i ==> #[trigger] keys@[k]@ == cards@[k].started_at@,
        decreases cards.len() - i,
    {
        keys.push(chars_of(cards[i].started_at.as_str()));
        i = i + 1;
    }
    proof {
        assert(keys@.map_values(|k: Vec<char>| k@) =~= card_starts(contents));
    }
    let order = stable_text_order(&keys, true);
    let mut shown: Vec<SessionCardView> = Vec::new();
    let mut j: usize = 0;
    while j < order.len()
        invariant
            order.len() == cards.len(),
            forall|k: int| 0 <= k < order.len() ==> #[trigger] order@[k] < cards.len(),
            j <= order.len(),
            shown.len() == j,
            forall|k: int| 0 <= k < j ==> #[trigger] shown@[k]@ == cards@[order@[k] as int]@,
        decreases order.len() - j,
    {
        shown.push(cards[order[j]].duplicate());
        j = j + 1;
    }
    proof {
        assert(is_review_order(order@, contents));
        let v = shown@.map_values(|c: SessionCardView| c@);
        assert forall|k: int| 0 <= k < contents.len() implies v[k] == contents[order@[k] as int] by {
        }
    }
    shown
}

/// Whether the active seconds of the day's cards add up within `u64`, as
/// totalling them for the summary asks.
pub fn day_cards_fit(state: &TrackingState, date: &str) -> (r: bool)
    ensures
        r == (cards_active_total(day_cards(*state, date@)) <= u64::MAX),
{
    let cards = unordered_day_cards(state, date);
    let ghost all = cards@.map_values(|c: SessionCardView| c@);
    assert(all == day_cards(*state, date@));
    let mut total: u64 = 0;
    let mut i: usize = 0;
    while i < cards.len()
        invariant
            all == cards@.map_values(|c: SessionCardView| c@),
            all == day_cards(*state, date@),
            i <= cards.len(),
            total == cards_active_total(all.take(i as int)),
        decreases cards.len() - i,
    {
        let ghost next = all.take(i + 1);
        proof {
            assert(next.drop_last() =~= all.take(i as int));
            assert(next.last() == cards@[i as int]@);
        }
        match total.checked_add(cards[i].active_seconds) {
            Some(t) => {
                total = t;
            },
            None => {
                proof {
                    assert(cards_active_total(next) == total + cards[i as int].active_seconds);
                    lemma_cards_total_prefix(all, cards.len() as int);
                    assert(all.take(cards.len() as int) =~= all);
                    assert(cards_active_total(all.take(i + 1)) <= cards_active_total(all));
                }
                return false;
            },
        }
        i = i + 1;
    }
    proof {
        assert(all.take(cards.len() as int) =~= all);
    }
    true
}

/// Completed count, total, longest of the cards.
fn card_totals(cards: &Vec<SessionCardView>) -> (r: (u64, u64, u64))
    requires
        cards_active_total(cards@.map_values(|c: SessionCardView| c@)) <= u64::MAX,
    ensures
        r.0 == cards_completed(cards@.map_values(|c: SessionCardView| c@)),
        r.1 == cards_active_total(cards@.map_values(|c: SessionCardView| c@)),
        r.2 == cards_longest(cards@.map_values(|c: SessionCardView| c@)),
{
    let ghost all = cards@.map_values(|c: SessionCardView| c@);
    let mut completed: u64 = 0;
    let mut active: u64 = 0;
    let mut longest: u64 = 0;
    let mut i: usize = 0;
    proof {
        lemma_cards_total_prefix(all, cards.len() as int);
        assert(all.take(cards.len() as int) =~= all);
    }
    while i < cards.len()
        invariant
            all == cards@.map_values(|c: SessionCardView| c@),
            cards_active_total(all) <= u64::MAX,
            i <= cards.len(),
            completed == cards_completed(all.take(i as int)),
            active == cards_active_total(all.take(i as int)),
            longest == cards_longest(all.take(i as int)),
            completed <= i,
            forall|k: int| 0 <= k <= cards.len() ==> cards_active_total(all.take(k)) <= cards_active_total(all),
        decreases cards.len() - i,
    {
        let ghost next = all.take(i + 1);
        proof {
            assert(next.drop_last() =~= all.take(i as int));
            assert(next.last() == cards@[i as int]@);
        }
        let card = &cards[i];
        if !card.is_live {
            completed = completed + 1;
        }
        active = active + card.active_seconds;
        if card.active_seconds > longest {
            longest = card.active_seconds;
        }
        i = i + 1;
    }
    proof {
        assert(all.take(cards.len() as int) =~= all);
    }
    (completed, active, longest)
}

proof fn lemma_cards_total_prefix(cards: Seq<CardContent>, n: int)
    requires
        0 <= n <= cards.len(),
    ensures
        forall|k: int| 0 <= k <= n ==> cards_active_total(cards.take(k)) <= cards_active_total(cards.take(n)),
    decreases n,
{
    if n > 0 {
        lemma_cards_total_prefix(cards, n - 1);
        let t = cards.take(n);
        assert(t.drop_last() =~= cards.take(n - 1));
    }
    if n == cards.len() {
        assert(cards.take(n) =~= cards);
    }
}

} // verus!
