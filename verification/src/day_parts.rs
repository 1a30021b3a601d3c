//! The four parts of the day and what each of them held.
use vstd::prelude::*;
use crate::clock::{minute_of_day_of, minute_of_text};
use crate::flow::{
    bucket_accumulators, cap, field_value, flow_state, flow_state_of, FlowBucketAccumulator,
    FlowMinute, FlowState, MinuteField,
};
use crate::focus_view::day_buckets;
use crate::quality::FOCUS_BUCKET_MINUTES;
use crate::state::TrackingState;
use crate::text::{has_prefix, report_date_matches, text_equals};

verus! {

#[derive(Clone, Copy, PartialEq, Eq, Structural, Debug)]
pub enum DayPart {
    Morning,
    Midday,
    Afternoon,
    Evening,
}

/// Hours 5 to 10 are the morning, 11 to 13 midday, 14 to 17 the afternoon,
/// and the rest the evening.
pub open spec fn day_part_of(hour: int) -> DayPart {
    if 5 <= hour <= 10 {
        DayPart::Morning
    } else if 11 <= hour <= 13 {
        DayPart::Midday
    } else if 14 <= hour <= 17 {
        DayPart::Afternoon
    } else {
        DayPart::Evening
    }
}

/// The part of the day of the hour `hour`.
pub fn day_part(hour: usize) -> (r: DayPart)
    ensures
        r == day_part_of(hour as int),
{
    if 5 <= hour && hour <= 10 {
        DayPart::Morning
    } else if 11 <= hour && hour <= 13 {
        DayPart::Midday
    } else if 14 <= hour && hour <= 17 {
        DayPart::Afternoon
    } else {
        DayPart::Evening
    }
}

impl DayPart {
    pub open spec fn label(self) -> Seq<char> {
        match self {
            DayPart::Morning => "morning"@,
            DayPart::Midday => "midday"@,
            DayPart::Afternoon => "afternoon"@,
            DayPart::Evening => "evening"@,
        }
    }

    pub open spec fn position(self) -> int {
        match self {
            DayPart::Morning => 0,
            DayPart::Midday => 1,
            DayPart::Afternoon => 2,
            DayPart::Evening => 3,
        }
    }

    /// The name under which the part is shown and stored.
    pub fn name(&self) -> (r: &'static str)
        ensures
            r@ == self.label(),
    {
        match self {
            DayPart::Morning => "morning",
            DayPart::Midday => "midday",
            DayPart::Afternoon => "afternoon",
            DayPart::Evening => "evening",
        }
    }

    /// The position of the part among the four, from the morning.
    pub fn index(&self) -> (r: usize)
        ensures
            r == self.position(),
    {
        match self {
            DayPart::Morning => 0,
            DayPart::Midday => 1,
            DayPart::Afternoon => 2,
            DayPart::Evening => 3,
        }
    }
}

/// The position of the part of the day named `name`: 0 for `morning`, 1 for
/// `midday`, 2 for `afternoon`, 3 for any other name.
pub fn day_part_index(name: &str) -> (r: usize)
    ensures
        r == if name@ == "morning"@ {
            0int
        } else if name@ == "midday"@ {
            1int
        } else if name@ == "afternoon"@ {
            2int
        } else {
            3int
        },
{
    if text_equals(name, "morning") {
        0
    } else if text_equals(name, "midday") {
        1
    } else if text_equals(name, "afternoon") {
        2
    } else {
        3
    }
}

/// The part of the day of a flow minute of the day `date` whose start can
/// be read.
pub open spec fn minute_part(m: FlowMinute, date: Seq<char>) -> Option<DayPart> {
    if has_prefix(m.start_at@, date) {
        match minute_of_day_of(m.start_at@) {
            Some(k) => Some(day_part_of(k / 60)),
            None => None,
        }
    } else {
        None
    }
}

/// The sum of `field` over the day's flow minutes in the part `part`.
pub open spec fn part_sum(minutes: Seq<FlowMinute>, date: Seq<char>, part: DayPart, field: MinuteField) -> int
    decreases minutes.len(),
{
    if minutes.len() == 0 {
        0
    } else {
        part_sum(minutes.drop_last(), date, part, field) + if minute_part(minutes.last(), date)
            == Some(part) {
            field_value(minutes.last(), field)
        } else {
            0
        }
    }
}

pub proof fn lemma_part_sum_nonnegative(
    minutes: Seq<FlowMinute>,
    date: Seq<char>,
    part: DayPart,
    field: MinuteField,
)
    ensures
        part_sum(minutes, date, part, field) >= 0,
    decreases minutes.len(),
{
    if minutes.len() > 0 {
        lemma_part_sum_nonnegative(minutes.drop_last(), date, part, field);
    }
}

/// Among the buckets (of `FOCUS_BUCKET_MINUTES` minutes) in the part
/// `part`, those with at least 30 observed seconds, and, when
/// `focused_only`, in the focused state.
pub open spec fn part_buckets(accs: Seq<FlowBucketAccumulator>, part: DayPart, focused_only: bool) -> int
    decreases accs.len(),
{
    if accs.len() == 0 {
        0
    } else {
        let b = accs.len() - 1;
        let v = accs.last();
        part_buckets(accs.drop_last(), part, focused_only) + if day_part_of(
            (b * FOCUS_BUCKET_MINUTES as int) / 60,
        ) == part && v.observed_seconds >= 30 && (!focused_only || flow_state_of(v)
            == FlowState::Focused) {
            1int
        } else {
            0int
        }
    }
}

/// What one part of the day held. The caller derives the focused bucket
/// share `focused_buckets / observed_buckets` and the switches per active
/// hour `switch_count / (focus_seconds / 3600)` (each 0 where its divisor
/// is 0).
#[derive(Clone, Copy)]
pub struct DayPartCounts {
    pub part: DayPart,
    pub observed_seconds: u32,
    pub focus_seconds: u32,
    pub idle_seconds: u32,
    pub switch_count: u16,
    pub input_actions: u32,
    pub observed_buckets: u32,
    pub focused_buckets: u32,
}

pub open spec fn part_minutes_match(c: DayPartCounts, minutes: Seq<FlowMinute>, date: Seq<char>, part: DayPart) -> bool {
    let m = u32::MAX as int;
    &&& c.part == part
    &&& c.observed_seconds == cap(part_sum(minutes, date, part, MinuteField::Observed), m)
    &&& c.focus_seconds == cap(part_sum(minutes, date, part, MinuteField::Focus), m)
    &&& c.idle_seconds == cap(part_sum(minutes, date, part, MinuteField::Idle), m)
    &&& c.switch_count == cap(part_sum(minutes, date, part, MinuteField::Switches), u16::MAX as int)
    &&& c.input_actions == cap(part_sum(minutes, date, part, MinuteField::Inputs), m)
}

pub open spec fn part_of_position(k: int) -> DayPart {
    if k == 0 {
        DayPart::Morning
    } else if k == 1 {
        DayPart::Midday
    } else if k == 2 {
        DayPart::Afternoon
    } else {
        DayPart::Evening
    }
}

pub open spec fn day_parts_match(parts: Seq<DayPartCounts>, state: TrackingState, date: Seq<char>) -> bool {
    let accs = day_buckets(state, date, FOCUS_BUCKET_MINUTES as int);
    &&& parts.len() == 4
    &&& forall|k: int|
        0 <= k < 4 ==> {
            &&& part_minutes_match(#[trigger] parts[k], state.flow_minutes@, date, part_of_position(k))
            &&& parts[k].observed_buckets == part_buckets(accs, part_of_position(k), false)
            &&& parts[k].focused_buckets == part_buckets(accs, part_of_position(k), true)
        }
}

fn empty_part(part: DayPart) -> (r: DayPartCounts)
    ensures
        r.part == part,
        r.observed_seconds == 0 && r.focus_seconds == 0 && r.idle_seconds == 0,
        r.switch_count == 0 && r.input_actions == 0,
        r.observed_buckets == 0 && r.focused_buckets == 0,
{
    DayPartCounts {
        part,
        observed_seconds: 0,
        focus_seconds: 0,
        idle_seconds: 0,
        switch_count: 0,
        input_actions: 0,
        observed_buckets: 0,
        focused_buckets: 0,
    }
}

proof fn lemma_part_buckets_bounded(accs: Seq<FlowBucketAccumulator>, part: DayPart, focused_only: bool)
    ensures
        0 <= part_buckets(accs, part, focused_only) <= accs.len(),
    decreases accs.len(),
{
    if accs.len() > 0 {
        lemma_part_buckets_bounded(accs.drop_last(), part, focused_only);
    }
}

/// What each of the four parts of the day `date` held, morning first.
pub fn aggregate_day_parts(state: &TrackingState, date: &str) -> (r: Vec<DayPartCounts>)
    ensures
        day_parts_match(r@, *state, date@),
{
    let mut parts: Vec<DayPartCounts> = Vec::new();
    parts.push(empty_part(DayPart::Morning));
    parts.push(empty_part(DayPart::Midday));
    parts.push(empty_part(DayPart::Afternoon));
    parts.push(empty_part(DayPart::Evening));
    let ghost minutes = state.flow_minutes@;
    let mut i: usize = 0;
    proof {
        assert(minutes.take(0) =~= Seq::<FlowMinute>::empty());
    }
    while i < state.flow_minutes.len()
        invariant
            minutes == state.flow_minutes@,
            i <= minutes.len(),
            parts.len() == 4,
            forall|k: int|
                0 <= k < 4 ==> #[trigger] part_minutes_match(
                    parts@[k],
                    minutes.take(i as int),
                    date@,
                    part_of_position(k),
                ),
            forall|k: int|
                #![trigger parts@[k]]
                0 <= k < 4 ==> parts@[k].observed_buckets == 0 && parts@[k].focused_buckets == 0,
        decreases minutes.len() - i,
    {
        let ghost pre = minutes.take(i as int);
        let ghost next = minutes.take(i + 1);
        let ghost before = parts@;
        proof {
            assert(next.drop_last() =~= pre);
            assert(next.last() == minutes[i as int]);
        }
        let m = &state.flow_minutes[i];
        if report_date_matches(m.start_at.as_str(), date) {
            match minute_of_text(m.start_at.as_str()) {
                Some(slot) => {
                    let index = day_part(slot / 60).index();
                    let p = parts[index];
                    let updated = DayPartCounts {
                        part: p.part,
                        observed_seconds: p.observed_seconds.saturating_add(m.observed_seconds as u32),
                        focus_seconds: p.focus_seconds.saturating_add(m.focus_seconds as u32),
                        idle_seconds: p.idle_seconds.saturating_add(m.idle_seconds as u32),
                        switch_count: p.switch_count.saturating_add(m.switch_count),
                        input_actions: p.input_actions.saturating_add(
                            m.keyboard_actions.saturating_add(m.mouse_actions),
                        ),
                        observed_buckets: p.observed_buckets,
                        focused_buckets: p.focused_buckets,
                    };
                    parts.set(index, updated);
                    proof {
                        assert forall|k: int|
                            #![trigger parts@[k]]
                            0 <= k < 4 implies parts@[k].observed_buckets == 0
                                && parts@[k].focused_buckets == 0 by {
                            if k == index {
                                assert(parts@[k] == updated);
                            } else {
                                assert(parts@[k] == before[k]);
                            }
                        }
                    }
                },
                None => {},
            }
        }
        proof {
            assert forall|k: int| 0 <= k < 4 implies #[trigger] part_minutes_match(
                parts@[k],
                next,
                date@,
                part_of_position(k),
            ) by {
                let part = part_of_position(k);
                assert(part_minutes_match(before[k], pre, date@, part));
                assert(part.position() == k);
                lemma_part_sum_nonnegative(pre, date@, part, MinuteField::Observed);
                lemma_part_sum_nonnegative(pre, date@, part, MinuteField::Focus);
                lemma_part_sum_nonnegative(pre, date@, part, MinuteField::Idle);
                lemma_part_sum_nonnegative(pre, date@, part, MinuteField::Switches);
                lemma_part_sum_nonnegative(pre, date@, part, MinuteField::Inputs);
                let last = next.last();
                let hit = minute_part(last, date@) == Some(part);
                assert(part_sum(next, date@, part, MinuteField::Observed) == part_sum(pre, date@, part, MinuteField::Observed) + if hit { field_value(last, MinuteField::Observed) } else { 0 });
                assert(part_sum(next, date@, part, MinuteField::Focus) == part_sum(pre, date@, part, MinuteField::Focus) + if hit { field_value(last, MinuteField::Focus) } else { 0 });
                assert(part_sum(next, date@, part, MinuteField::Idle) == part_sum(pre, date@, part, MinuteField::Idle) + if hit { field_value(last, MinuteField::Idle) } else { 0 });
                assert(part_sum(next, date@, part, MinuteField::Switches) == part_sum(pre, date@, part, MinuteField::Switches) + if hit { field_value(last, MinuteField::Switches) } else { 0 });
                assert(part_sum(next, date@, part, MinuteField::Inputs) == part_sum(pre, date@, part, MinuteField::Inputs) + if hit { field_value(last, MinuteField::Inputs) } else { 0 });
            }
        }
        i = i + 1;
    }
    proof {
        assert(minutes.take(minutes.len() as int) =~= minutes);
    }
    let accs = bucket_accumulators(&state.flow_minutes, date, FOCUS_BUCKET_MINUTES);
    let ghost all = day_buckets(*state, date@, FOCUS_BUCKET_MINUTES as int);
    proof {
        assert(accs@ =~= all);
        assert(all.take(0) =~= Seq::<FlowBucketAccumulator>::empty());
    }
    let mut b: usize = 0;
    while b < accs.len()
        invariant
            accs@ == all,
            b <= accs.len(),
            accs.len() == 288,
            parts.len() == 4,
            forall|k: int|
                0 <= k < 4 ==> #[trigger] part_minutes_match(
                    parts@[k],
                    minutes,
                    date@,
                    part_of_position(k),
                ),
            minutes == state.flow_minutes@,
            forall|k: int|
                #![trigger parts@[k]]
                0 <= k < 4 ==> parts@[k].observed_buckets == part_buckets(
                    all.take(b as int),
                    part_of_position(k),
                    false,
                ) && parts@[k].focused_buckets == part_buckets(
                    all.take(b as int),
                    part_of_position(k),
                    true,
                ),
        decreases accs.len() - b,
    {
        let ghost pre = all.take(b as int);
        let ghost next = all.take(b + 1);
        let ghost before = parts@;
        proof {
            assert(next.drop_last() =~= pre);
            assert(next.last() == all[b as int]);
            assert forall|k: int|
                #![trigger part_of_position(k)]
                0 <= k < 4 implies part_buckets(pre, part_of_position(k), false) <= b
                && part_buckets(pre, part_of_position(k), true) <= b by {
                lemma_part_buckets_bounded(pre, part_of_position(k), false);
                lemma_part_buckets_bounded(pre, part_of_position(k), true);
            }
        }
        let v = accs[b];
        let index = day_part((b * 5) / 60).index();
        if v.observed_seconds >= 30 {
            let p = parts[index];
            let focused = flow_state(&v) == FlowState::Focused;
            let updated = DayPartCounts {
                observed_buckets: p.observed_buckets + 1,
                focused_buckets: if focused {
                    p.focused_buckets + 1
                } else {
                    p.focused_buckets
                },
                ..p
            };
            parts.set(index, updated);
        }
        proof {
            assert forall|k: int|
                #![trigger parts@[k]]
                0 <= k < 4 implies parts@[k].observed_buckets == part_buckets(
                next,
                part_of_position(k),
                false,
            ) && parts@[k].focused_buckets == part_buckets(next, part_of_position(k), true) by {
                let part = part_of_position(k);
                if k == index {
                    assert(day_part_of((b * FOCUS_BUCKET_MINUTES as int) / 60) == part);
                } else {
                    assert(parts@[k] == before[k]);
                    assert(day_part_of((b * FOCUS_BUCKET_MINUTES as int) / 60) != part);
                }
                assert(part.position() == k);
                assert(next.len() - 1 == b);
                assert(part_buckets(next, part, false) == part_buckets(pre, part, false) + if day_part_of(
                    (b * FOCUS_BUCKET_MINUTES as int) / 60) == part && v.observed_seconds >= 30 { 1int } else { 0int });
                assert(part_buckets(next, part, true) == part_buckets(pre, part, true) + if day_part_of(
                    (b * FOCUS_BUCKET_MINUTES as int) / 60) == part && v.observed_seconds >= 30 && flow_state_of(v) == FlowState::Focused { 1int } else { 0int });
            }
            assert forall|k: int| 0 <= k < 4 implies #[trigger] part_minutes_match(
                parts@[k],
                minutes,
                date@,
                part_of_position(k),
            ) by {
                assert(part_minutes_match(before[k], minutes, date@, part_of_position(k)));
                assert(parts@[k].part == before[k].part);
                assert(parts@[k].observed_seconds == before[k].observed_seconds);
                assert(parts@[k].focus_seconds == before[k].focus_seconds);
                assert(parts@[k].idle_seconds == before[k].idle_seconds);
                assert(parts@[k].switch_count == before[k].switch_count);
                assert(parts@[k].input_actions == before[k].input_actions);
            }
        }
        b = b + 1;
    }
    proof {
        assert(all.take(288) =~= all);
    }
    parts
}

} // verus!
