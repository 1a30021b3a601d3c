//! The archive of daily reports: keeping it ordered and bounded, and
//! choosing the past days a new report is compared with.
use vstd::prelude::*;
use crate::clock::{date_reading, parsed_date, CalendarDay};
use crate::flow::cap;
use crate::dated::{is_date_order, placed, sort_by_date, Dated};
use crate::laws::{filed_archive_is_bounded_and_ordered, in_date_order};
use crate::records::ReportSettings;
use crate::sessions::text_option;
use crate::text::{lex_lt, text_equals, text_less};

verus! {

broadcast use vstd::string::group_string_axioms;

/// The most daily reports kept.
pub const MAX_DAILY_REPORTS: usize = 365;

/// An archived daily report: what the archive reads of it, and the rest of
/// the report as `body`.
pub struct StoredReport<B> {
    pub date: String,
    pub status: String,
    pub quality_level: String,
    pub work_mode_tag: Option<String>,
    pub body: B,
}

impl<B> Dated for StoredReport<B> {
    open spec fn date_key(&self) -> Seq<char> {
        self.date@
    }

    fn date_text(&self) -> (r: &str) {
        self.date.as_str()
    }
}

/// The first report of the date `date`.
pub open spec fn first_with_date<B>(reports: Seq<StoredReport<B>>, date: Seq<char>) -> Option<int>
    decreases reports.len(),
{
    if reports.len() == 0 {
        None
    } else {
        match first_with_date(reports.drop_last(), date) {
            Some(i) => Some(i),
            None => if reports.last().date@ == date {
                Some(reports.len() - 1)
            } else {
                None
            },
        }
    }
}

/// The archive with `report` in place of the first report of its date, or
/// added at the end.
pub open spec fn with_report<B>(reports: Seq<StoredReport<B>>, report: StoredReport<B>) -> Seq<StoredReport<B>> {
    match first_with_date(reports, report.date@) {
        Some(i) => reports.update(i, report),
        None => reports.push(report),
    }
}

pub open spec fn is_finalized<B>(report: StoredReport<B>) -> bool {
    report.status@ == "finalized"@
}

/// The first finalized report.
pub open spec fn first_finalized<B>(reports: Seq<StoredReport<B>>) -> Option<int>
    decreases reports.len(),
{
    if reports.len() == 0 {
        None
    } else {
        match first_finalized(reports.drop_last()) {
            Some(i) => Some(i),
            None => if is_finalized(reports.last()) {
                Some(reports.len() - 1)
            } else {
                None
            },
        }
    }
}

/// The archive after dropping one report: the first finalized one, or else
/// the first one.
pub open spec fn trim_once<B>(reports: Seq<StoredReport<B>>) -> Seq<StoredReport<B>> {
    match first_finalized(reports) {
        Some(i) => reports.remove(i),
        None => reports.remove(0),
    }
}

/// The archive after dropping reports, one at a time, until at most
/// `MAX_DAILY_REPORTS` remain.
pub open spec fn retained<B>(reports: Seq<StoredReport<B>>) -> Seq<StoredReport<B>>
    decreases reports.len(),
{
    if reports.len() <= MAX_DAILY_REPORTS {
        reports
    } else {
        proof {
            lemma_first_finalized(reports);
        }
        retained(trim_once(reports))
    }
}

pub proof fn lemma_first_with_date<B>(reports: Seq<StoredReport<B>>, date: Seq<char>)
    ensures
        first_with_date(reports, date) matches Some(i) ==> 0 <= i < reports.len() && reports[i].date@
            == date && forall|k: int| 0 <= k < i ==> reports[k].date@ != date,
        first_with_date(reports, date) is None ==> forall|k: int|
            0 <= k < reports.len() ==> reports[k].date@ != date,
    decreases reports.len(),
{
    if reports.len() > 0 {
        let prev = reports.drop_last();
        lemma_first_with_date(prev, date);
        assert(forall|k: int| 0 <= k < prev.len() ==> prev[k] == reports[k]);
    }
}

pub proof fn lemma_first_finalized<B>(reports: Seq<StoredReport<B>>)
    ensures
        first_finalized(reports) matches Some(i) ==> 0 <= i < reports.len() && is_finalized(
            reports[i],
        ) && forall|k: int| 0 <= k < i ==> !is_finalized(reports[k]),
        first_finalized(reports) is None ==> forall|k: int|
            0 <= k < reports.len() ==> !is_finalized(reports[k]),
    decreases reports.len(),
{
    if reports.len() > 0 {
        let prev = reports.drop_last();
        lemma_first_finalized(prev);
        assert(forall|k: int| 0 <= k < prev.len() ==> prev[k] == reports[k]);
    }
}

fn position_of_date<B>(reports: &Vec<StoredReport<B>>, date: &str) -> (r: Option<usize>)
    ensures
        match first_with_date(reports@, date@) {
            Some(i) => r == Some(i as usize),
            None => r is None,
        },
{
    let mut i: usize = 0;
    proof {
        lemma_first_with_date(reports@, date@);
    }
    while i < reports.len()
        invariant
            i <= reports.len(),
            forall|k: int| 0 <= k < i ==> reports@[k].date@ != date@,
        decreases reports.len() - i,
    {
        if text_equals(reports[i].date.as_str(), date) {
            proof {
                lemma_first_with_date(reports@, date@);
                match first_with_date(reports@, date@) {
                    Some(j) => {
                        if j < i {
                        } else if j > i {
                        }
                    },
                    None => {
                        assert(reports@[i as int].date@ == date@);
                    },
                }
            }
            return Some(i);
        }
        i = i + 1;
    }
    None
}

fn position_of_finalized<B>(reports: &Vec<StoredReport<B>>) -> (r: Option<usize>)
    ensures
        match first_finalized(reports@) {
            Some(i) => r == Some(i as usize),
            None => r is None,
        },
{
    let mut i: usize = 0;
    proof {
        lemma_first_finalized(reports@);
    }
    while i < reports.len()
        invariant
            i <= reports.len(),
            forall|k: int| 0 <= k < i ==> !is_finalized(reports@[k]),
        decreases reports.len() - i,
    {
        if text_equals(reports[i].status.as_str(), "finalized") {
            proof {
                lemma_first_finalized(reports@);
                match first_finalized(reports@) {
                    Some(j) => {
                        if j < i {
                        } else if j > i {
                        }
                    },
                    None => {
                        assert(is_finalized(reports@[i as int]));
                    },
                }
            }
            return Some(i);
        }
        i = i + 1;
    }
    None
}

/// Files `report` in the archive: it replaces the first report of its date
/// or is added; the archive is ordered by date (ties in their order); and
/// while more than `MAX_DAILY_REPORTS` remain, the first finalized report
/// (or else the first report) is dropped.
pub fn upsert_daily_report<B>(reports: &mut Vec<StoredReport<B>>, report: StoredReport<B>)
    ensures
        exists|order: Seq<usize>| #[trigger]
            is_date_order(order, with_report(old(reports)@, report)) && final(reports)@ == retained(
                Seq::new(
                    with_report(old(reports)@, report).len(),
                    |k: int| with_report(old(reports)@, report)[order[k] as int],
                ),
            ),
        final(reports).len() <= MAX_DAILY_REPORTS,
        in_date_order(final(reports)@),
{
    let ghost updated = with_report(reports@, report);
    proof {
        lemma_first_with_date(reports@, report.date@);
    }
    match position_of_date(reports, report.date.as_str()) {
        Some(i) => {
            reports.set(i, report);
        },
        None => {
            reports.push(report);
        },
    }
    proof {
        assert(reports@ =~= updated);
    }
    let mut current: Vec<StoredReport<B>> = Vec::new();
    std::mem::swap(&mut current, reports);
    let sorted = sort_by_date(current);
    let ghost order = choose|order: Seq<usize>| #[trigger]
        is_date_order(order, updated) && placed(sorted@, updated, order);
    let ghost arranged = Seq::new(updated.len(), |k: int| updated[order[k] as int]);
    proof {
        assert(sorted@ =~= arranged);
    }
    *reports = sorted;
    proof {
        filed_archive_is_bounded_and_ordered(old(reports)@, report, order);
    }
    while reports.len() > MAX_DAILY_REPORTS
        invariant
            retained(reports@) == retained(arranged),
        decreases reports.len(),
    {
        let ghost before = reports@;
        proof {
            lemma_first_finalized(before);
        }
        match position_of_finalized(reports) {
            Some(i) => {
                reports.remove(i);
            },
            None => {
                reports.remove(0);
            },
        }
        proof {
            assert(reports@ =~= trim_once(before));
        }
    }
}

/// The group of past days a report is compared with.
#[derive(Clone, Copy, PartialEq, Eq, Structural, Debug)]
pub enum Cohort {
    TagWeekday,
    Tag,
    Weekday,
    AllDays,
    Unavailable,
}

impl Cohort {
    pub open spec fn label(self) -> Seq<char> {
        match self {
            Cohort::TagWeekday => "tag_weekday"@,
            Cohort::Tag => "tag"@,
            Cohort::Weekday => "weekday"@,
            Cohort::AllDays => "all_days"@,
            Cohort::Unavailable => "unavailable"@,
        }
    }

    /// The name under which the cohort is shown and stored.
    pub fn name(&self) -> (r: &'static str)
        ensures
            r@ == self.label(),
    {
        match self {
            Cohort::TagWeekday => "tag_weekday",
            Cohort::Tag => "tag",
            Cohort::Weekday => "weekday",
            Cohort::AllDays => "all_days",
            Cohort::Unavailable => "unavailable",
        }
    }
}

/// A finalized report of sufficient quality, of another day, from 1 to 56
/// days before `today`.
pub open spec fn is_candidate<B>(r: StoredReport<B>, date: Seq<char>, today: (i32, u32)) -> bool {
    &&& r.status@ == "finalized"@
    &&& r.quality_level@ == "sufficient"@
    &&& r.date@ != date
    &&& match date_reading(r.date@) {
        Some(d) => 1 <= today.0 - d.0 <= 56,
        None => false,
    }
}

/// The report's day falls on the same weekday as `today`.
pub open spec fn same_weekday<B>(r: StoredReport<B>, today: (i32, u32)) -> bool {
    match date_reading(r.date@) {
        Some(d) => d.1 == today.1,
        None => false,
    }
}

/// A work mode is chosen and the report has the same one.
pub open spec fn same_tag<B>(r: StoredReport<B>, tag: Option<Seq<char>>) -> bool {
    tag is Some && text_option(r.work_mode_tag) == tag
}

pub open spec fn in_cohort<B>(
    r: StoredReport<B>,
    cohort: Cohort,
    date: Seq<char>,
    today: (i32, u32),
    tag: Option<Seq<char>>,
) -> bool {
    match cohort {
        Cohort::TagWeekday => is_candidate(r, date, today) && same_tag(r, tag) && same_weekday(
            r,
            today,
        ),
        Cohort::Tag => is_candidate(r, date, today) && same_tag(r, tag),
        Cohort::Weekday => is_candidate(r, date, today) && same_weekday(r, today),
        Cohort::AllDays => is_candidate(r, date, today),
        Cohort::Unavailable => false,
    }
}

/// The positions, in order, of the reports in the cohort.
pub open spec fn cohort_positions<B>(
    reports: Seq<StoredReport<B>>,
    cohort: Cohort,
    date: Seq<char>,
    today: (i32, u32),
    tag: Option<Seq<char>>,
) -> Seq<usize>
    decreases reports.len(),
{
    if reports.len() == 0 {
        seq![]
    } else {
        let prev = cohort_positions(reports.drop_last(), cohort, date, today, tag);
        if in_cohort(reports.last(), cohort, date, today, tag) {
            prev.push((reports.len() - 1) as usize)
        } else {
            prev
        }
    }
}

/// The narrowest cohort with enough days: at least 8 days with the same work
/// mode and weekday, else 10 with the same work mode, else 10 with the same
/// weekday, else 14 days of any kind; else none.
pub open spec fn chosen_cohort<B>(
    reports: Seq<StoredReport<B>>,
    date: Seq<char>,
    tag: Option<Seq<char>>,
) -> Cohort {
    match date_reading(date) {
        None => Cohort::Unavailable,
        Some(today) => if cohort_positions(reports, Cohort::TagWeekday, date, today, tag).len()
            >= 8 {
            Cohort::TagWeekday
        } else if cohort_positions(reports, Cohort::Tag, date, today, tag).len() >= 10 {
            Cohort::Tag
        } else if cohort_positions(reports, Cohort::Weekday, date, today, tag).len() >= 10 {
            Cohort::Weekday
        } else if cohort_positions(reports, Cohort::AllDays, date, today, tag).len() >= 14 {
            Cohort::AllDays
        } else {
            Cohort::Unavailable
        },
    }
}

/// The earliest of some texts.
pub open spec fn earliest(texts: Seq<Seq<char>>) -> Option<Seq<char>>
    decreases texts.len(),
{
    if texts.len() == 0 {
        None
    } else {
        match earliest(texts.drop_last()) {
            None => Some(texts.last()),
            Some(m) => Some(if lex_lt(texts.last(), m) { texts.last() } else { m }),
        }
    }
}

/// The latest of some texts.
pub open spec fn latest(texts: Seq<Seq<char>>) -> Option<Seq<char>>
    decreases texts.len(),
{
    if texts.len() == 0 {
        None
    } else {
        match latest(texts.drop_last()) {
            None => Some(texts.last()),
            Some(m) => Some(if lex_lt(m, texts.last()) { texts.last() } else { m }),
        }
    }
}

pub struct BaselineDescriptor {
    pub cohort: Cohort,
    pub sample_count: u16,
    pub date_range_start: Option<String>,
    pub date_range_end: Option<String>,
}

/// The chosen cohort and the positions of its reports in the archive.
pub struct BaselineSelection {
    pub descriptor: BaselineDescriptor,
    pub records: Vec<usize>,
}

/// The dates of the reports at `positions`.
pub open spec fn dates_at<B>(reports: Seq<StoredReport<B>>, positions: Seq<usize>) -> Seq<Seq<char>> {
    positions.map_values(|p: usize| reports[p as int].date@)
}

pub open spec fn baseline_matches<B>(
    b: BaselineSelection,
    reports: Seq<StoredReport<B>>,
    tag: Option<Seq<char>>,
    date: Seq<char>,
) -> bool {
    let cohort = chosen_cohort(reports, date, tag);
    let positions = match date_reading(date) {
        Some(today) => cohort_positions(reports, cohort, date, today, tag),
        None => seq![],
    };
    &&& b.descriptor.cohort == cohort
    &&& b.records@ == positions
    &&& b.descriptor.sample_count == cap(positions.len() as int, u16::MAX as int)
    &&& text_option(b.descriptor.date_range_start) == earliest(dates_at(reports, positions))
    &&& text_option(b.descriptor.date_range_end) == latest(dates_at(reports, positions))
}

fn positions_in<B>(
    reports: &Vec<StoredReport<B>>,
    cohort: Cohort,
    date: &str,
    today: CalendarDay,
    tag: &Option<String>,
) -> (r: Vec<usize>)
    requires
        date_reading(date@) == Some((today.days_from_ce, today.weekday_from_monday)),
    ensures
        r@ == cohort_positions(
            reports@,
            cohort,
            date@,
            (today.days_from_ce, today.weekday_from_monday),
            text_option(*tag),
        ),
{
    let ghost t = (today.days_from_ce, today.weekday_from_monday);
    let mut out: Vec<usize> = Vec::new();
    let mut i: usize = 0;
    while i < reports.len()
        invariant
            i <= reports.len(),
            t == (today.days_from_ce, today.weekday_from_monday),
            out@ == cohort_positions(reports@.take(i as int), cohort, date@, t, text_option(*tag)),
        decreases reports.len() - i,
    {
        proof {
            assert(reports@.take(i + 1).drop_last() =~= reports@.take(i as int));
        }
        let r = &reports[i];
        let candidate = text_equals(r.status.as_str(), "finalized") && text_equals(
            r.quality_level.as_str(),
            "sufficient",
        ) && !text_equals(r.date.as_str(), date) && match parsed_date(r.date.as_str()) {
            Some(d) => {
                let age = today.days_from_ce as i64 - d.days_from_ce as i64;
                1 <= age && age <= 56
            },
            None => false,
        };
        let weekday = match parsed_date(r.date.as_str()) {
            Some(d) => d.weekday_from_monday == today.weekday_from_monday,
            None => false,
        };
        let tagged = match (&r.work_mode_tag, tag) {
            (Some(a), Some(b)) => text_equals(a.as_str(), b.as_str()),
            _ => false,
        };
        let keep = match cohort {
            Cohort::TagWeekday => candidate && tagged && weekday,
            Cohort::Tag => candidate && tagged,
            Cohort::Weekday => candidate && weekday,
            Cohort::AllDays => candidate,
            Cohort::Unavailable => false,
        };
        if keep {
            out.push(i);
        }
        i = i + 1;
    }
    proof {
        assert(reports@.take(reports.len() as int) =~= reports@);
    }
    out
}

/// The earliest and the latest date among the reports at `positions`.
fn date_range<B>(reports: &Vec<StoredReport<B>>, positions: &Vec<usize>) -> (r: (Option<String>, Option<String>))
    requires
        forall|k: int| 0 <= k < positions.len() ==> #[trigger] positions@[k] < reports.len(),
    ensures
        text_option(r.0) == earliest(dates_at(reports@, positions@)),
        text_option(r.1) == latest(dates_at(reports@, positions@)),
{
    let mut first: Option<String> = None;
    let mut last: Option<String> = None;
    let mut k: usize = 0;
    while k < positions.len()
        invariant
            k <= positions.len(),
            forall|j: int| 0 <= j < positions.len() ==> #[trigger] positions@[j] < reports.len(),
            text_option(first) == earliest(dates_at(reports@, positions@.take(k as int))),
            text_option(last) == latest(dates_at(reports@, positions@.take(k as int))),
        decreases positions.len() - k,
    {
        let ghost pre = dates_at(reports@, positions@.take(k as int));
        let ghost next = dates_at(reports@, positions@.take(k + 1));
        proof {
            assert(next.drop_last() =~= pre);
            assert(next.last() == reports@[positions@[k as int] as int].date@);
        }
        let d = &reports[positions[k]].date;
        first = match first {
            None => Some(d.clone()),
            Some(m) => if text_less(d.as_str(), m.as_str()) {
                Some(d.clone())
            } else {
                Some(m)
            },
        };
        last = match last {
            None => Some(d.clone()),
            Some(m) => if text_less(m.as_str(), d.as_str()) {
                Some(d.clone())
            } else {
                Some(m)
            },
        };
        k = k + 1;
    }
    proof {
        assert(positions@.take(positions.len() as int) =~= positions@);
    }
    (first, last)
}

proof fn lemma_positions_in_range<B>(
    reports: Seq<StoredReport<B>>,
    cohort: Cohort,
    date: Seq<char>,
    today: (i32, u32),
    tag: Option<Seq<char>>,
)
    ensures
        forall|k: int|
            0 <= k < cohort_positions(reports, cohort, date, today, tag).len() ==> #[trigger] cohort_positions(
                reports,
                cohort,
                date,
                today,
                tag,
            )[k] < reports.len(),
    decreases reports.len(),
{
    if reports.len() > 0 {
        let prev = reports.drop_last();
        lemma_positions_in_range(prev, cohort, date, today, tag);
        let p = cohort_positions(prev, cohort, date, today, tag);
        assert(forall|k: int| 0 <= k < p.len() ==> #[trigger] p[k] < prev.len());
    }
}

/// The past reports that a report of the day `date` is compared with.
pub fn select_baseline<B>(reports: &Vec<StoredReport<B>>, settings: &ReportSettings, date: &str) -> (r: BaselineSelection)
    ensures
        baseline_matches(r, reports@, text_option(settings.work_mode_tag), date@),
        forall|k: int|
            0 <= k < r.records.len() ==> {
                let p = #[trigger] r.records@[k] as int;
                &&& 0 <= p < reports.len()
                &&& reports@[p].status@ == "finalized"@
                &&& reports@[p].quality_level@ == "sufficient"@
                &&& reports@[p].date@ != date@
            },
        date_reading(date@) matches Some(t) ==> forall|p: int|
            0 <= p < reports.len() ==> (crate::laws::baseline_member(
                reports@[p],
                r.descriptor.cohort,
                date@,
                t,
                text_option(settings.work_mode_tag),
            ) <==> exists|k: int| 0 <= k < r.records.len() && #[trigger] r.records@[k] == p),
        r.descriptor.cohort == Cohort::TagWeekday ==> r.records.len() >= 8,
        r.descriptor.cohort == Cohort::Tag ==> r.records.len() >= 10,
        r.descriptor.cohort == Cohort::Weekday ==> r.records.len() >= 10,
        r.descriptor.cohort == Cohort::AllDays ==> r.records.len() >= 14,
        r.descriptor.cohort == Cohort::Unavailable ==> r.records.len() == 0,
{
    let tag = &settings.work_mode_tag;
    let today = match parsed_date(date) {
        Some(d) => d,
        None => {
            return BaselineSelection {
                descriptor: BaselineDescriptor {
                    cohort: Cohort::Unavailable,
                    sample_count: 0,
                    date_range_start: None,
                    date_range_end: None,
                },
                records: Vec::new(),
            };
        },
    };
    let tag_weekday = positions_in(reports, Cohort::TagWeekday, date, today, tag);
    let tagged = positions_in(reports, Cohort::Tag, date, today, tag);
    let weekday = positions_in(reports, Cohort::Weekday, date, today, tag);
    let all = positions_in(reports, Cohort::AllDays, date, today, tag);
    let (cohort, records) = if tag_weekday.len() >= 8 {
        (Cohort::TagWeekday, tag_weekday)
    } else if tagged.len() >= 10 {
        (Cohort::Tag, tagged)
    } else if weekday.len() >= 10 {
        (Cohort::Weekday, weekday)
    } else if all.len() >= 14 {
        (Cohort::AllDays, all)
    } else {
        (Cohort::Unavailable, Vec::new())
    };
    proof {
        let t = (today.days_from_ce, today.weekday_from_monday);
        lemma_positions_in_range(reports@, cohort, date@, t, text_option(*tag));
        if cohort == Cohort::Unavailable {
            assert(records@ =~= cohort_positions(reports@, cohort, date@, t, text_option(*tag))) by {
                lemma_unavailable_empty(reports@, date@, t, text_option(*tag));
            }
        }
    }
    let range = date_range(reports, &records);
    let count = records.len();
    let r = BaselineSelection {
        descriptor: BaselineDescriptor {
            cohort,
            sample_count: if count > 65535 {
                65535
            } else {
                count as u16
            },
            date_range_start: range.0,
            date_range_end: range.1,
        },
        records,
    };
    proof {
        assert(reports@.len() == reports.len());
        crate::laws::baseline_draws_on_sufficient_past_days(r, reports@, text_option(settings.work_mode_tag), date@);
        crate::laws::baseline_lists_its_whole_cohort(r, reports@, text_option(settings.work_mode_tag), date@);
    }
    r
}

proof fn lemma_unavailable_empty<B>(
    reports: Seq<StoredReport<B>>,
    date: Seq<char>,
    today: (i32, u32),
    tag: Option<Seq<char>>,
)
    ensures
        cohort_positions(reports, Cohort::Unavailable, date, today, tag) =~= Seq::<usize>::empty(),
    decreases reports.len(),
{
    if reports.len() > 0 {
        lemma_unavailable_empty(reports.drop_last(), date, today, tag);
    }
}

} // verus!
