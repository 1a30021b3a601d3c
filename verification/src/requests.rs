//! Answering the interface's requests: the focus view of a day, a daily
//! report, the headline of a report and the insights of the embedding
//! analysis.
use vstd::prelude::*;
use crate::archive::{is_finalized, StoredReport};
use crate::focus_view::{
    build_focus_experience_view, calendar_available, cards_active_total, day_cards, focus_view_matches,
    FocusExperienceView,
};
use crate::quality::{QualityLevel, FOCUS_BUCKET_MINUTES};
use crate::state::TrackingState;
use crate::text::{owned, text_equals};

verus! {

broadcast use vstd::string::group_string_axioms;

/// Why a focus view request was refused.
#[derive(Clone, Copy, PartialEq, Eq, Structural, Debug)]
pub enum FocusViewError {
    UnsupportedBucket,
    NoCollectionDay,
    NotCurrentDay,
    DateOutOfRange,
}

impl FocusViewError {
    pub open spec fn message(self) -> Seq<char> {
        match self {
            FocusViewError::UnsupportedBucket => "only 5-minute focus buckets are supported"@,
            FocusViewError::NoCollectionDay => "collection day unavailable"@,
            FocusViewError::NotCurrentDay => "P0 focus experience currently supports the locally collected current day only"@,
            FocusViewError::DateOutOfRange => "focus view date out of range"@,
        }
    }

    /// The message with which the request is refused.
    pub fn text(&self) -> (r: &'static str)
        ensures
            r@ == self.message(),
    {
        match self {
            FocusViewError::UnsupportedBucket => "only 5-minute focus buckets are supported",
            FocusViewError::NoCollectionDay => "collection day unavailable",
            FocusViewError::NotCurrentDay => "P0 focus experience currently supports the locally collected current day only",
            FocusViewError::DateOutOfRange => "focus view date out of range",
        }
    }
}

/// The day a request names: the collection day when the request names
/// none.
pub open spec fn requested_day(date: Seq<char>, collection_day: Seq<char>) -> Seq<char> {
    if date.len() == 0 {
        collection_day
    } else {
        date
    }
}

/// The focus view of the requested day (the collection day when `date` is
/// empty). Only buckets of `FOCUS_BUCKET_MINUTES` minutes and only the
/// collection day are served; `today_days`, `offset` and `generated_at`
/// are the local day number, UTC offset and time of the request.
pub fn get_focus_experience_view(
    state: &TrackingState,
    date: &str,
    bucket_minutes: u8,
    today_days: i32,
    offset: &str,
    generated_at: String,
) -> (r: Result<FocusExperienceView, FocusViewError>)
    requires
        cards_active_total(day_cards(*state, state.collection_day@)) <= u64::MAX,
    ensures
        bucket_minutes != FOCUS_BUCKET_MINUTES ==> r == Err::<FocusExperienceView, FocusViewError>(
            FocusViewError::UnsupportedBucket,
        ),
        bucket_minutes == FOCUS_BUCKET_MINUTES && requested_day(date@, state.collection_day@).len() == 0
            ==> r == Err::<FocusExperienceView, FocusViewError>(FocusViewError::NoCollectionDay),
        bucket_minutes == FOCUS_BUCKET_MINUTES && requested_day(date@, state.collection_day@).len() > 0
            && requested_day(date@, state.collection_day@) != state.collection_day@ ==> r == Err::<
            FocusExperienceView,
            FocusViewError,
        >(FocusViewError::NotCurrentDay),
        bucket_minutes == FOCUS_BUCKET_MINUTES && state.collection_day@.len() > 0
            && requested_day(date@, state.collection_day@) == state.collection_day@ ==> {
            &&& !calendar_available(state.collection_day@, today_days) ==> r == Err::<
                FocusExperienceView,
                FocusViewError,
            >(FocusViewError::DateOutOfRange)
            &&& calendar_available(state.collection_day@, today_days) ==> (r matches Ok(view)
                && focus_view_matches(
                view,
                *state,
                state.collection_day@,
                bucket_minutes,
                today_days,
                offset@,
                generated_at@,
            ))
        },
{
    if bucket_minutes != FOCUS_BUCKET_MINUTES {
        return Err(FocusViewError::UnsupportedBucket);
    }
    let selected = if date.is_empty() {
        state.collection_day.as_str()
    } else {
        date
    };
    if selected.is_empty() {
        return Err(FocusViewError::NoCollectionDay);
    }
    if !text_equals(selected, state.collection_day.as_str()) {
        return Err(FocusViewError::NotCurrentDay);
    }
    match build_focus_experience_view(state, state.collection_day.as_str(), bucket_minutes, today_days, offset, generated_at) {
        Some(view) => Ok(view),
        None => Err(FocusViewError::DateOutOfRange),
    }
}

/// Why a daily report request was refused.
#[derive(Clone, Copy, PartialEq, Eq, Structural, Debug)]
pub enum ReportRequestError {
    ReportsDisabled,
    DraftNotRequested,
    NotArchived,
}

impl ReportRequestError {
    pub open spec fn message(self) -> Seq<char> {
        match self {
            ReportRequestError::ReportsDisabled => "daily reports are disabled; enable local daily reports before requesting an archive"@,
            ReportRequestError::DraftNotRequested => "the current local daily report is a draft; request include_draft to view it"@,
            ReportRequestError::NotArchived => "daily report not found in the local archive"@,
        }
    }

    /// The message with which the request is refused.
    pub fn text(&self) -> (r: &'static str)
        ensures
            r@ == self.message(),
    {
        match self {
            ReportRequestError::ReportsDisabled => "daily reports are disabled; enable local daily reports before requesting an archive",
            ReportRequestError::DraftNotRequested => "the current local daily report is a draft; request include_draft to view it",
            ReportRequestError::NotArchived => "daily report not found in the local archive",
        }
    }
}

/// How a daily report request is answered: with a draft of the collection
/// day, built now, or with the archived report at a position.
#[derive(PartialEq, Eq, Debug)]
pub enum ReportAnswer {
    Draft(String),
    Archived(usize),
}

/// The report may answer a request for `date`: its date, and finalized
/// unless drafts are asked for too.
pub open spec fn answers<B>(report: StoredReport<B>, date: Seq<char>, include_draft: bool) -> bool {
    report.date@ == date && (include_draft || is_finalized(report))
}

/// How a request for the report of `date` (the collection day when empty)
/// is answered: refused while reports are off; for the collection day, a
/// draft when drafts are asked for; otherwise the first archived report that
/// answers it.
pub fn daily_report_request<B>(
    state: &TrackingState,
    reports: &Vec<StoredReport<B>>,
    date: &str,
    include_draft: bool,
) -> (r: Result<ReportAnswer, ReportRequestError>)
    ensures
        !state.report_settings.enabled ==> r == Err::<ReportAnswer, ReportRequestError>(
            ReportRequestError::ReportsDisabled,
        ),
        state.report_settings.enabled && requested_day(date@, state.collection_day@)
            == state.collection_day@ ==> {
            &&& include_draft ==> (r matches Ok(ReportAnswer::Draft(d)) && d == state.collection_day)
            &&& !include_draft ==> r == Err::<ReportAnswer, ReportRequestError>(
                ReportRequestError::DraftNotRequested,
            )
        },
        state.report_settings.enabled && requested_day(date@, state.collection_day@)
            != state.collection_day@ ==> {
            &&& (forall|k: int| 0 <= k < reports.len() ==> !answers(#[trigger] reports@[k], date@, include_draft))
                ==> r == Err::<ReportAnswer, ReportRequestError>(ReportRequestError::NotArchived)
            &&& (exists|k: int| 0 <= k < reports.len() && answers(#[trigger] reports@[k], date@, include_draft))
                ==> (r matches Ok(ReportAnswer::Archived(i)) && i < reports.len() && answers(
                reports@[i as int],
                date@,
                include_draft,
            ) && forall|k: int| 0 <= k < i ==> !answers(#[trigger] reports@[k], date@, include_draft))
        },
{
    if !state.report_settings.enabled {
        return Err(ReportRequestError::ReportsDisabled);
    }
    let selected = if date.is_empty() {
        state.collection_day.as_str()
    } else {
        date
    };
    if text_equals(selected, state.collection_day.as_str()) {
        if !include_draft {
            return Err(ReportRequestError::DraftNotRequested);
        }
        return Ok(ReportAnswer::Draft(state.collection_day.clone()));
    }
    let mut i: usize = 0;
    while i < reports.len()
        invariant
            i <= reports.len(),
            selected@ == date@,
            state.report_settings.enabled,
            requested_day(date@, state.collection_day@) != state.collection_day@,
            forall|k: int| 0 <= k < i ==> !answers(#[trigger] reports@[k], date@, include_draft),
        decreases reports.len() - i,
    {
        if text_equals(reports[i].date.as_str(), selected) && (include_draft || text_equals(
            reports[i].status.as_str(),
            "finalized",
        )) {
            return Ok(ReportAnswer::Archived(i));
        }
        i = i + 1;
    }
    Err(ReportRequestError::NotArchived)
}

/// The headline of a daily report: from the data quality, whether a
/// baseline comparison was possible, and how many signals changed.
pub open spec fn headline_of(level: QualityLevel, eligible: bool, signal_count: u64) -> Seq<char> {
    if level == QualityLevel::Insufficient {
        "오늘의 기록을 더 모으면 흐름 요약을 만들 수 있습니다."@
    } else if !eligible {
        "오늘의 작업 흐름을 기록했습니다. 개인 기준선은 더 쌓인 뒤 비교합니다."@
    } else if signal_count == 0 {
        "오늘의 흐름은 현재 개인 기준선 범위에서 기록되었습니다."@
    } else if signal_count == 1 {
        "오늘의 흐름에서 확인할 변화 신호가 1개 있습니다."@
    } else {
        "오늘의 후반 작업 흐름에서 여러 변화 신호가 함께 기록되었습니다."@
    }
}

/// The headline of a daily report.
pub fn report_headline(level: QualityLevel, eligible: bool, signal_count: u64) -> (r: String)
    ensures
        r@ == headline_of(level, eligible, signal_count),
{
    let text = if level == QualityLevel::Insufficient {
        "오늘의 기록을 더 모으면 흐름 요약을 만들 수 있습니다."
    } else if !eligible {
        "오늘의 작업 흐름을 기록했습니다. 개인 기준선은 더 쌓인 뒤 비교합니다."
    } else if signal_count == 0 {
        "오늘의 흐름은 현재 개인 기준선 범위에서 기록되었습니다."
    } else if signal_count == 1 {
        "오늘의 흐름에서 확인할 변화 신호가 1개 있습니다."
    } else {
        "오늘의 후반 작업 흐름에서 여러 변화 신호가 함께 기록되었습니다."
    };
    owned(text)
}

/// One insight of the embedding analysis.
#[derive(Clone)]
pub struct PatternInsight {
    pub level: String,
    pub title: String,
    pub detail: String,
}

/// An insight of the given level, title and detail.
pub fn insight(level: &str, title: &str, detail: String) -> (r: PatternInsight)
    ensures
        r.level@ == level@,
        r.title@ == title@,
        r.detail == detail,
{
    PatternInsight { level: owned(level), title: owned(title), detail }
}

} // verus!
