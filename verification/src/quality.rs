//! How well a day was observed, and what that leaves out of its report.
use vstd::prelude::*;
use crate::day_totals::{
    count_finalized_reentries_on, count_sessions_on, day_minute_totals, day_sum,
    finalized_reentries_on, observed_slot_range, sessions_on,
};
use crate::flow::{bucket_accumulators, cap, FlowBucketAccumulator, MinuteField};
use crate::focus_view::day_buckets;
use crate::state::TrackingState;
use crate::text::owned;

verus! {

/// The width of the flow buckets of the daily report, in minutes.
pub const FOCUS_BUCKET_MINUTES: u8 = 5;

#[derive(Clone, Copy, PartialEq, Eq, Structural, Debug)]
pub enum QualityLevel {
    Insufficient,
    Partial,
    Sufficient,
}

impl QualityLevel {
    pub open spec fn label(self) -> Seq<char> {
        match self {
            QualityLevel::Insufficient => "insufficient"@,
            QualityLevel::Partial => "partial"@,
            QualityLevel::Sufficient => "sufficient"@,
        }
    }

    /// The name under which the level is shown and stored.
    pub fn name(&self) -> (r: &'static str)
        ensures
            r@ == self.label(),
    {
        match self {
            QualityLevel::Insufficient => "insufficient",
            QualityLevel::Partial => "partial",
            QualityLevel::Sufficient => "sufficient",
        }
    }
}

/// The number of buckets with at least 30 observed seconds.
pub open spec fn observed_bucket_count(accs: Seq<FlowBucketAccumulator>) -> int
    decreases accs.len(),
{
    if accs.len() == 0 {
        0
    } else {
        observed_bucket_count(accs.drop_last()) + if accs.last().observed_seconds >= 30 {
            1int
        } else {
            0int
        }
    }
}

/// The observed share of the span from the first to the last observed
/// minute is below 60% (no span counts as no share).
pub open spec fn low_coverage(observed: int, span: int) -> bool {
    span == 0 || 5 * observed < 3 * span
}

/// Under an hour of observation, or under 12 observed five-minute buckets,
/// is insufficient; under two hours, under two completed sessions, or low
/// coverage is partial; anything more is sufficient.
pub open spec fn quality_level_of(observed: int, buckets: int, completed: int, span: int) -> QualityLevel {
    if observed < 3600 || buckets < 12 {
        QualityLevel::Insufficient
    } else if observed < 7200 || completed < 2 || low_coverage(observed, span) {
        QualityLevel::Partial
    } else {
        QualityLevel::Sufficient
    }
}

pub open spec fn short_observation_note() -> Seq<char> {
    "관측된 활동 시간이 60분 미만이어서 개인 비교를 만들지 않았습니다."@
}

pub open spec fn few_buckets_note() -> Seq<char> {
    "5분 흐름 버킷이 충분하지 않아 시간대 비교의 신뢰도가 낮습니다."@
}

pub open spec fn low_coverage_note() -> Seq<char> {
    "첫 관측부터 마지막 관측까지의 시간 중 실제 관측 비율이 낮습니다."@
}

pub open spec fn few_sessions_note() -> Seq<char> {
    "완료된 세션이 2개 미만이어서 세션 구조 비교를 제한합니다."@
}

/// The limitations a report states, in this order: under an hour of
/// observation; under 12 observed buckets; low coverage, and under two
/// completed sessions, each only with an hour of observation or more.
pub open spec fn limitations_of(observed: int, buckets: int, completed: int, span: int) -> Seq<
    Seq<char>,
> {
    let a = if observed < 3600 {
        seq![short_observation_note()]
    } else {
        seq![]
    };
    let b = if buckets < 12 {
        a.push(few_buckets_note())
    } else {
        a
    };
    let c = if low_coverage(observed, span) && observed >= 3600 {
        b.push(low_coverage_note())
    } else {
        b
    };
    if completed < 2 && observed >= 3600 {
        c.push(few_sessions_note())
    } else {
        c
    }
}

/// The data quality of a day's report. The observed coverage is
/// `observed_seconds / observed_span_seconds` held to `0..=1` (0 without a
/// span).
pub struct ReportDataQuality {
    pub observed_minutes: u16,
    pub active_minutes: u16,
    pub observed_seconds: u64,
    pub observed_span_seconds: u64,
    pub session_count: u16,
    pub reentry_episode_count: u16,
    pub comparison_sample_count: u16,
    pub level: QualityLevel,
    pub limitations: Vec<String>,
}

/// The span from the first to the last observed minute of the day, in
/// seconds (0 without observation).
pub open spec fn observed_span(state: TrackingState, date: Seq<char>) -> int {
    match observed_slot_range(state.flow_minutes@, date) {
        Some(r) => (r.1 - r.0 + 1) * 60,
        None => 0,
    }
}

pub open spec fn quality_matches(q: ReportDataQuality, state: TrackingState, date: Seq<char>) -> bool {
    let observed = cap(day_sum(state.flow_minutes@, date, MinuteField::Observed), u64::MAX as int);
    let active = cap(day_sum(state.flow_minutes@, date, MinuteField::Focus), u64::MAX as int);
    let span = observed_span(state, date);
    let buckets = observed_bucket_count(day_buckets(state, date, FOCUS_BUCKET_MINUTES as int));
    let completed = sessions_on(state.sessions@, date);
    &&& q.observed_seconds == observed
    &&& q.observed_span_seconds == span
    &&& q.observed_minutes == cap((observed + 59) / 60, u16::MAX as int)
    &&& q.active_minutes == cap((active + 59) / 60, u16::MAX as int)
    &&& q.session_count == cap(completed, u16::MAX as int)
    &&& q.reentry_episode_count == cap(
        finalized_reentries_on(state.reentry_episodes@, date),
        u16::MAX as int,
    )
    &&& q.comparison_sample_count == 0
    &&& q.level == quality_level_of(observed, buckets, completed, span)
    &&& q.limitations@.map_values(|t: String| t@) == limitations_of(
        observed,
        buckets,
        completed,
        span,
    )
}

fn minutes_up(seconds: u64) -> (r: u16)
    ensures
        r == cap((seconds + 59) / 60, u16::MAX as int),
{
    let whole = seconds / 60 + if seconds % 60 == 0 {
        0
    } else {
        1
    };
    if whole > 65535 {
        65535
    } else {
        whole as u16
    }
}

fn count_observed_buckets(accs: &Vec<FlowBucketAccumulator>) -> (r: usize)
    ensures
        r == observed_bucket_count(accs@),
{
    let mut n: usize = 0;
    let mut i: usize = 0;
    while i < accs.len()
        invariant
            i <= accs.len(),
            n <= i,
            n == observed_bucket_count(accs@.take(i as int)),
        decreases accs.len() - i,
    {
        proof {
            assert(accs@.take(i + 1).drop_last() =~= accs@.take(i as int));
        }
        if accs[i].observed_seconds >= 30 {
            n = n + 1;
        }
        i = i + 1;
    }
    proof {
        assert(accs@.take(accs.len() as int) =~= accs@);
    }
    n
}

/// How well the day `date` was observed.
pub fn assess_report_data_quality(state: &TrackingState, date: &str) -> (r: ReportDataQuality)
    ensures
        quality_matches(r, *state, date@),
        r.level == QualityLevel::Sufficient ==> r.observed_span_seconds > 0 && 5 * r.observed_seconds >= 3
            * r.observed_span_seconds,
        r.observed_seconds >= 3600 && (r.observed_span_seconds == 0 || 5 * r.observed_seconds < 3
            * r.observed_span_seconds) ==> r.limitations@.map_values(|t: String| t@).contains(
            "첫 관측부터 마지막 관측까지의 시간 중 실제 관측 비율이 낮습니다."@,
        ),
{
    let totals = day_minute_totals(&state.flow_minutes, date);
    let observed = totals.observed_seconds;
    let span: u64 = match (totals.first_observed_minute, totals.last_observed_minute) {
        (Some(start), Some(end)) => ((end - start + 1) * 60) as u64,
        _ => 0,
    };
    let accs = bucket_accumulators(&state.flow_minutes, date, FOCUS_BUCKET_MINUTES);
    proof {
        assert(accs@ =~= day_buckets(*state, date@, FOCUS_BUCKET_MINUTES as int));
    }
    let buckets = count_observed_buckets(&accs);
    let completed = count_sessions_on(&state.sessions, date);
    let reentries = count_finalized_reentries_on(&state.reentry_episodes, date);
    let low = span == 0 || 5 * (observed as u128) < 3 * (span as u128);
    let level = if observed < 3600 || buckets < 12 {
        QualityLevel::Insufficient
    } else if observed < 7200 || completed < 2 || low {
        QualityLevel::Partial
    } else {
        QualityLevel::Sufficient
    };
    let mut limitations: Vec<String> = Vec::new();
    let ghost expected = limitations_of(observed as int, buckets as int, completed as int, span as int);
    if observed < 3600 {
        limitations.push(owned("관측된 활동 시간이 60분 미만이어서 개인 비교를 만들지 않았습니다."));
    }
    if buckets < 12 {
        limitations.push(owned("5분 흐름 버킷이 충분하지 않아 시간대 비교의 신뢰도가 낮습니다."));
    }
    if low && observed >= 3600 {
        limitations.push(owned("첫 관측부터 마지막 관측까지의 시간 중 실제 관측 비율이 낮습니다."));
    }
    if completed < 2 && observed >= 3600 {
        limitations.push(owned("완료된 세션이 2개 미만이어서 세션 구조 비교를 제한합니다."));
    }
    proof {
        assert(limitations@.map_values(|t: String| t@) =~= expected);
    }
    let r = ReportDataQuality {
        observed_minutes: minutes_up(observed),
        active_minutes: minutes_up(totals.focus_seconds),
        observed_seconds: observed,
        observed_span_seconds: span,
        session_count: if completed > 65535 {
            65535
        } else {
            completed as u16
        },
        reentry_episode_count: if reentries > 65535 {
            65535
        } else {
            reentries as u16
        },
        comparison_sample_count: 0,
        level,
        limitations,
    };
    proof {
        crate::laws::sufficient_quality_needs_coverage(r, *state, date@);
    }
    r
}

} // verus!
