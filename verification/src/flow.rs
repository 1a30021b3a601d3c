//! Per-minute flow records and their five-minute (or other width) buckets.
use vstd::prelude::*;
use crate::clock::{minute_of_day_of, minute_of_text};
use crate::text::{has_prefix, report_date_matches};

verus! {

/// Activity observed during one wall-clock minute.
///
/// `mouse_distance_px_bits` is the bit pattern of the `f32` pointer distance
/// of the minute; the library carries it and never computes with it.
#[derive(Clone)]
pub struct FlowMinute {
    pub start_at: String,
    pub observed_seconds: u16,
    pub focus_seconds: u16,
    pub idle_seconds: u16,
    pub switch_count: u16,
    pub keyboard_actions: u32,
    pub mouse_actions: u32,
    pub mouse_distance_px_bits: u32,
}

/// Totals of the flow minutes that fall into one bucket.
#[derive(Clone, Copy, PartialEq, Eq, Structural)]
pub struct FlowBucketAccumulator {
    pub observed_seconds: u32,
    pub focus_seconds: u32,
    pub idle_seconds: u32,
    pub switch_count: u32,
    pub input_actions: u32,
}

impl FlowBucketAccumulator {
    pub fn empty() -> (r: Self)
        ensures
            r == FlowBucketAccumulator::zero(),
    {
        FlowBucketAccumulator {
            observed_seconds: 0,
            focus_seconds: 0,
            idle_seconds: 0,
            switch_count: 0,
            input_actions: 0,
        }
    }

    pub open spec fn zero() -> Self {
        FlowBucketAccumulator {
            observed_seconds: 0,
            focus_seconds: 0,
            idle_seconds: 0,
            switch_count: 0,
            input_actions: 0,
        }
    }
}

/// `x`, or `max` where `x` exceeds it: what saturating additions of
/// non-negative terms add up to.
pub open spec fn cap(x: int, max: int) -> int {
    if x > max {
        max
    } else {
        x
    }
}

/// The input actions a flow minute contributes to its bucket.
pub open spec fn minute_inputs(m: FlowMinute) -> int {
    cap(m.keyboard_actions + m.mouse_actions, u32::MAX as int)
}

/// The bucket (of `bucket_minutes` minutes) of the day `date` into which the
/// flow minute falls: `None` when its start is not on that day or cannot be
/// read.
pub open spec fn minute_slot(m: FlowMinute, date: Seq<char>, bucket_minutes: int) -> Option<int> {
    if !has_prefix(m.start_at@, date) {
        None
    } else {
        match minute_of_day_of(m.start_at@) {
            Some(minute) => Some(minute / bucket_minutes),
            None => None,
        }
    }
}

/// The quantities that buckets total.
pub enum MinuteField {
    Observed,
    Focus,
    Idle,
    Switches,
    Inputs,
}

/// The quantity `field` of a flow minute.
pub open spec fn field_value(m: FlowMinute, field: MinuteField) -> int {
    match field {
        MinuteField::Observed => m.observed_seconds as int,
        MinuteField::Focus => m.focus_seconds as int,
        MinuteField::Idle => m.idle_seconds as int,
        MinuteField::Switches => m.switch_count as int,
        MinuteField::Inputs => minute_inputs(m),
    }
}

/// The sum of `field` over the flow minutes that fall into bucket `b`.
pub open spec fn bucket_sum(
    minutes: Seq<FlowMinute>,
    date: Seq<char>,
    bucket_minutes: int,
    b: int,
    field: MinuteField,
) -> int
    decreases minutes.len(),
{
    if minutes.len() == 0 {
        0
    } else {
        bucket_sum(minutes.drop_last(), date, bucket_minutes, b, field) + if minute_slot(
            minutes.last(),
            date,
            bucket_minutes,
        ) == Some(b) {
            field_value(minutes.last(), field)
        } else {
            0
        }
    }
}

pub proof fn lemma_bucket_sum_nonnegative(
    minutes: Seq<FlowMinute>,
    date: Seq<char>,
    bucket_minutes: int,
    b: int,
    field: MinuteField,
)
    ensures
        bucket_sum(minutes, date, bucket_minutes, b, field) >= 0,
    decreases minutes.len(),
{
    if minutes.len() > 0 {
        lemma_bucket_sum_nonnegative(minutes.drop_last(), date, bucket_minutes, b, field);
    }
}

/// The totals of bucket `b`: each a sum over its minutes, held at `u32::MAX`.
pub open spec fn bucket_totals(
    minutes: Seq<FlowMinute>,
    date: Seq<char>,
    bucket_minutes: int,
    b: int,
) -> FlowBucketAccumulator {
    let m = u32::MAX as int;
    FlowBucketAccumulator {
        observed_seconds: cap(
            bucket_sum(minutes, date, bucket_minutes, b, MinuteField::Observed),
            m,
        ) as u32,
        focus_seconds: cap(
            bucket_sum(minutes, date, bucket_minutes, b, MinuteField::Focus),
            m,
        ) as u32,
        idle_seconds: cap(
            bucket_sum(minutes, date, bucket_minutes, b, MinuteField::Idle),
            m,
        ) as u32,
        switch_count: cap(
            bucket_sum(minutes, date, bucket_minutes, b, MinuteField::Switches),
            m,
        ) as u32,
        input_actions: cap(
            bucket_sum(minutes, date, bucket_minutes, b, MinuteField::Inputs),
            m,
        ) as u32,
    }
}

/// The bucket into which a flow minute falls on the day `date`.
pub fn flow_minute_slot(item: &FlowMinute, date: &str, bucket_minutes: u8) -> (r: Option<usize>)
    requires
        bucket_minutes > 0,
    ensures
        r matches Some(s) ==> minute_slot(*item, date@, bucket_minutes as int) == Some(s as int),
        r is None ==> minute_slot(*item, date@, bucket_minutes as int) is None,
{
    if !report_date_matches(item.start_at.as_str(), date) {
        return None;
    }
    match minute_of_text(item.start_at.as_str()) {
        Some(minute) => Some(minute / bucket_minutes as usize),
        None => None,
    }
}

/// The number of buckets of `bucket_minutes` minutes in a day.
pub open spec fn bucket_count(bucket_minutes: int) -> int {
    1440int / bucket_minutes
}

/// The flow minutes of the day `date` totalled per bucket of
/// `bucket_minutes` minutes, one accumulator per bucket of the day.
pub fn bucket_accumulators(minutes: &Vec<FlowMinute>, date: &str, bucket_minutes: u8) -> (r: Vec<
    FlowBucketAccumulator,
>)
    requires
        bucket_minutes > 0,
    ensures
        r.len() == bucket_count(bucket_minutes as int),
        forall|b: int|
            0 <= b < r.len() ==> #[trigger] r@[b] == bucket_totals(
                minutes@,
                date@,
                bucket_minutes as int,
                b,
            ),
{
    let count: usize = 1440 / bucket_minutes as usize;
    let mut buckets: Vec<FlowBucketAccumulator> = Vec::new();
    let mut k: usize = 0;
    while k < count
        invariant
            count == bucket_count(bucket_minutes as int),
            k <= count,
            buckets.len() == k,
            forall|b: int| 0 <= b < k ==> #[trigger] buckets@[b] == FlowBucketAccumulator::zero(),
        decreases count - k,
    {
        buckets.push(FlowBucketAccumulator::empty());
        k = k + 1;
    }
    let ghost bm = bucket_minutes as int;
    proof {
        assert forall|b: int| 0 <= b < count implies #[trigger] buckets@[b] == bucket_totals(
            minutes@.take(0),
            date@,
            bm,
            b,
        ) by {
            assert(minutes@.take(0).len() == 0);
        }
    }
    let mut i: usize = 0;
    while i < minutes.len()
        invariant
            bucket_minutes > 0,
            bm == bucket_minutes as int,
            count == bucket_count(bm),
            buckets.len() == count,
            i <= minutes.len(),
            forall|b: int|
                0 <= b < count ==> #[trigger] buckets@[b] == bucket_totals(
                    minutes@.take(i as int),
                    date@,
                    bm,
                    b,
                ),
        decreases minutes.len() - i,
    {
        let ghost prev = buckets@;
        let minute = &minutes[i];
        let slot = flow_minute_slot(minute, date, bucket_minutes);
        let ghost next = minutes@.take(i + 1);
        proof {
            assert(next.drop_last() =~= minutes@.take(i as int));
            assert(next.last() == minutes@[i as int]);
        }
        if let Some(s) = slot {
            if s < buckets.len() {
                let v = buckets[s];
                let updated = FlowBucketAccumulator {
                    observed_seconds: v.observed_seconds.saturating_add(minute.observed_seconds as u32),
                    focus_seconds: v.focus_seconds.saturating_add(minute.focus_seconds as u32),
                    idle_seconds: v.idle_seconds.saturating_add(minute.idle_seconds as u32),
                    switch_count: v.switch_count.saturating_add(minute.switch_count as u32),
                    input_actions: v.input_actions.saturating_add(
                        minute.keyboard_actions.saturating_add(minute.mouse_actions),
                    ),
                };
                buckets.set(s, updated);
            }
        }
        proof {
            assert forall|b: int| 0 <= b < count implies #[trigger] buckets@[b] == bucket_totals(
                next,
                date@,
                bm,
                b,
            ) by {
                let pre = minutes@.take(i as int);
                assert(bucket_totals(pre, date@, bm, b) == prev[b]);
                lemma_bucket_sum_nonnegative(pre, date@, bm, b, MinuteField::Observed);
                lemma_bucket_sum_nonnegative(pre, date@, bm, b, MinuteField::Focus);
                lemma_bucket_sum_nonnegative(pre, date@, bm, b, MinuteField::Idle);
                lemma_bucket_sum_nonnegative(pre, date@, bm, b, MinuteField::Switches);
                lemma_bucket_sum_nonnegative(pre, date@, bm, b, MinuteField::Inputs);
                assert(bucket_sum(next, date@, bm, b, MinuteField::Observed) == bucket_sum(pre, date@, bm, b, MinuteField::Observed) + if minute_slot(next.last(), date@, bm) == Some(b) { field_value(next.last(), MinuteField::Observed) } else { 0 });
                assert(bucket_sum(next, date@, bm, b, MinuteField::Focus) == bucket_sum(pre, date@, bm, b, MinuteField::Focus) + if minute_slot(next.last(), date@, bm) == Some(b) { field_value(next.last(), MinuteField::Focus) } else { 0 });
                assert(bucket_sum(next, date@, bm, b, MinuteField::Idle) == bucket_sum(pre, date@, bm, b, MinuteField::Idle) + if minute_slot(next.last(), date@, bm) == Some(b) { field_value(next.last(), MinuteField::Idle) } else { 0 });
                assert(bucket_sum(next, date@, bm, b, MinuteField::Switches) == bucket_sum(pre, date@, bm, b, MinuteField::Switches) + if minute_slot(next.last(), date@, bm) == Some(b) { field_value(next.last(), MinuteField::Switches) } else { 0 });
                assert(bucket_sum(next, date@, bm, b, MinuteField::Inputs) == bucket_sum(pre, date@, bm, b, MinuteField::Inputs) + if minute_slot(next.last(), date@, bm) == Some(b) { field_value(next.last(), MinuteField::Inputs) } else { 0 });
            }
        }
        i = i + 1;
    }
    proof {
        assert(minutes@.take(minutes.len() as int) =~= minutes@);
    }
    buckets
}

/// What a bucket shows: too little observation, mostly idle, frequent
/// switching, steady focus, or a mixture.
#[derive(Clone, Copy, PartialEq, Eq, Structural, Debug)]
pub enum FlowState {
    Unobserved,
    Idle,
    Switching,
    Focused,
    Mixed,
}

/// Switching counts as rapid at 0.8 switches or more per observed minute,
/// where less than a minute of observation counts as one minute.
pub open spec fn rapid_switching(v: FlowBucketAccumulator) -> bool {
    if v.observed_seconds < 60 {
        v.switch_count >= 1
    } else {
        75 * v.switch_count >= v.observed_seconds
    }
}

/// The state of a bucket: under 30 observed seconds it is unobserved; with
/// at least 60% of the observed time idle it is idle; with 4 switches or
/// more, or rapid switching, it is switching; with at least 75% of the
/// observed time focused and at most 2 switches it is focused; else mixed.
pub open spec fn flow_state_of(v: FlowBucketAccumulator) -> FlowState {
    if v.observed_seconds < 30 {
        FlowState::Unobserved
    } else if 5 * v.idle_seconds >= 3 * v.observed_seconds {
        FlowState::Idle
    } else if v.switch_count >= 4 || rapid_switching(v) {
        FlowState::Switching
    } else if 4 * v.focus_seconds >= 3 * v.observed_seconds && v.switch_count <= 2 {
        FlowState::Focused
    } else {
        FlowState::Mixed
    }
}

/// The state of a bucket.
pub fn flow_state(v: &FlowBucketAccumulator) -> (r: FlowState)
    ensures
        r == flow_state_of(*v),
{
    let observed = v.observed_seconds as u64;
    if observed < 30 {
        FlowState::Unobserved
    } else if 5 * (v.idle_seconds as u64) >= 3 * observed {
        FlowState::Idle
    } else if v.switch_count >= 4 || (if observed < 60 {
        v.switch_count >= 1
    } else {
        75 * (v.switch_count as u64) >= observed
    }) {
        FlowState::Switching
    } else if 4 * (v.focus_seconds as u64) >= 3 * observed && v.switch_count <= 2 {
        FlowState::Focused
    } else {
        FlowState::Mixed
    }
}

impl FlowState {
    pub open spec fn label(self) -> Seq<char> {
        match self {
            FlowState::Unobserved => "unobserved"@,
            FlowState::Idle => "idle"@,
            FlowState::Switching => "switching"@,
            FlowState::Focused => "focused"@,
            FlowState::Mixed => "mixed"@,
        }
    }

    /// The name under which the state is shown.
    pub fn name(&self) -> (r: &'static str)
        ensures
            r@ == self.label(),
    {
        match self {
            FlowState::Unobserved => "unobserved",
            FlowState::Idle => "idle",
            FlowState::Switching => "switching",
            FlowState::Focused => "focused",
            FlowState::Mixed => "mixed",
        }
    }
}

} // verus!
