//! What holds of the tracker across calls: a sound state that every
//! operation keeps (bounded histories, one flow minute per key, one entry per
//! application, re-entries only after breaks of 3 to 60 minutes), ordered
//! and bounded archives, the change of day, and the shape of a day.
use vstd::prelude::*;
use vstd::seq_lib::{commutative_foldl, lemma_fold_left_permutation, lemma_sorted_unique};
use crate::activity::{
    appended_bounded, fresh_minute, key_position, lemma_minute_position, minute_position, minutes_with_key,
    MAX_FLOW_MINUTES, MAX_SESSIONS, MAX_TIMELINE,
};
use crate::archive::{
    first_finalized, first_with_date, lemma_first_finalized, lemma_first_with_date, retained, trim_once, with_report,
    StoredReport, MAX_DAILY_REPORTS,
};
use crate::dated::{dates_of, first_dated, is_date_order, lemma_first_dated, Dated};
use crate::day::{
    collected_day, first_active_hour, is_peak_hour, last_active_hour, lemma_first_active_exists,
    lemma_last_active_exists, work_span,
};
use crate::embeddings::{trimmed, EmbeddingEntry, MAX_EMBEDDING_HISTORY};
use crate::flow::{
    bucket_sum, bucket_totals, cap, field_value, flow_state_of, lemma_bucket_sum_nonnegative, minute_slot,
    FlowBucketAccumulator, FlowMinute, FlowState, MinuteField,
};
use crate::focus_view::{
    card_starts, cards_active_total, cards_completed, cards_longest, focus_runs, in_review_order, is_review_order,
    switch_peak, totals_sum,
};
use crate::sessions::CardContent;
use crate::order::text_precedes;
use crate::records::AppActivity;
use crate::requests::answers;
use crate::reentry::{
    breaks_in_window, five_focused_before, minute_at, minute_is_focused, reentry_scan, MAX_REENTRY_EPISODES,
};
use crate::state::TrackingState;
use crate::stats::{ascending, lemma_ascending_order, median_of};
use crate::records::DiskUsageSnapshot;
use crate::system::{filed_snapshots, latest_snapshots, without_bucket, MAX_DISK_SNAPSHOTS};
use crate::text::{lemma_lex_irreflexive, lex_lt};

use crate::archive::{baseline_matches, cohort_positions, in_cohort, is_candidate, BaselineSelection, Cohort};
use crate::clock::date_reading;
use crate::day_totals::{observed_slot, observed_slot_range, sessions_on};
use crate::focus_view::day_buckets;
use crate::quality::{observed_bucket_count, quality_matches, QualityLevel, ReportDataQuality, FOCUS_BUCKET_MINUTES};
use crate::sessions::{status_of, SessionStatus};
use crate::tracker::observed_second;

verus! {

/// Appending to a bounded history keeps it within its bound, with the new
/// item last: the timeline, the completed sessions, the flow minutes and
/// the re-entry episodes never outgrow their limits.
pub proof fn bounded_append_stays_within<T>(before: Seq<T>, item: T, max: int)
    requires
        before.len() <= max,
        max >= 1,
    ensures
        appended_bounded(before, item, max).len() <= max,
        appended_bounded(before, item, max).last() == item,
        appended_bounded(before, item, max).len() >= 1,
{
}

/// No two flow minutes start at the same time.
pub open spec fn unique_minute_keys(minutes: Seq<FlowMinute>) -> bool {
    forall|i: int, j: int|
        0 <= i < j < minutes.len() ==> #[trigger] minutes[i].start_at@ != #[trigger] minutes[j].start_at@
}

/// Looking up the flow minute of a key a second time changes nothing and
/// finds the same minute; the minutes stay within their bound and keep one
/// minute per key.
pub proof fn flow_minute_lookup_is_idempotent(before: Seq<FlowMinute>, key: String)
    ensures
        minutes_with_key(minutes_with_key(before, key), key) == minutes_with_key(before, key),
        key_position(minutes_with_key(before, key), key) == key_position(before, key),
        before.len() <= MAX_FLOW_MINUTES ==> minutes_with_key(before, key).len() <= MAX_FLOW_MINUTES,
        unique_minute_keys(before) ==> unique_minute_keys(minutes_with_key(before, key)),
{
    lemma_minute_position(before, key@);
    let after = minutes_with_key(before, key);
    match minute_position(before, key@) {
        Some(i) => {},
        None => {
            let pushed = before.push(fresh_minute(key));
            assert(pushed.last().start_at@ == key@);
            assert(after.last() == fresh_minute(key));
            assert forall|k: int| 0 <= k < after.len() - 1 implies after[k].start_at@ != key@ by {
                if before.len() + 1 > MAX_FLOW_MINUTES {
                    assert(after[k] == before[k + 1]);
                } else {
                    assert(after[k] == before[k]);
                }
            }
            lemma_minute_position(after, key@);
            assert(minute_position(after, key@) == Some(after.len() - 1));
            if unique_minute_keys(before) {
                assert forall|i: int, j: int| 0 <= i < j < after.len() implies #[trigger] after[i].start_at@
                    != #[trigger] after[j].start_at@ by {
                    if j == after.len() - 1 {
                    } else if before.len() + 1 > MAX_FLOW_MINUTES {
                        assert(after[i] == before[i + 1] && after[j] == before[j + 1]);
                    } else {
                        assert(after[i] == before[i] && after[j] == before[j]);
                    }
                }
            }
        },
    }
}

/// Dates in order: `a` is not later than `b`.
pub open spec fn not_later(a: Seq<char>, b: Seq<char>) -> bool {
    lex_lt(a, b) || a == b
}

/// The items' dates never decrease along the list.
pub open spec fn in_date_order<T: Dated>(items: Seq<T>) -> bool {
    forall|i: int, j: int|
        0 <= i < j < items.len() ==> not_later(#[trigger] items[i].date_key(), #[trigger] items[j].date_key())
}

/// The items arranged in a date order are in date order.
pub proof fn arranged_by_date_is_in_date_order<T: Dated>(items: Seq<T>, order: Seq<usize>)
    requires
        is_date_order(order, items),
    ensures
        in_date_order(Seq::new(items.len(), |k: int| items[order[k] as int])),
{
    let arranged = Seq::new(items.len(), |k: int| items[order[k] as int]);
    let prec = |i: int, j: int| text_precedes(dates_of(items), false, i, j);
    assert forall|i: int, j: int| 0 <= i < j < arranged.len() implies not_later(
        #[trigger] arranged[i].date_key(),
        #[trigger] arranged[j].date_key(),
    ) by {
        assert(prec(order[i] as int, order[j] as int));
        assert(order[i] < items.len() && order[j] < items.len());
    }
}

/// Dropping an item keeps the rest in date order.
pub proof fn removal_keeps_date_order<T: Dated>(items: Seq<T>, i: int)
    requires
        in_date_order(items),
        0 <= i < items.len(),
    ensures
        in_date_order(items.remove(i)),
{
    let after = items.remove(i);
    assert forall|a: int, b: int| 0 <= a < b < after.len() implies not_later(
        #[trigger] after[a].date_key(),
        #[trigger] after[b].date_key(),
    ) by {
        let x = if a < i { a } else { a + 1 };
        let y = if b < i { b } else { b + 1 };
        assert(after[a] == items[x] && after[b] == items[y]);
        assert(not_later(items[x].date_key(), items[y].date_key()));
    }
}

/// Trimming the archive leaves at most `MAX_DAILY_REPORTS` reports, still
/// in date order.
pub proof fn retained_is_bounded_and_ordered<B>(reports: Seq<StoredReport<B>>)
    requires
        in_date_order(reports),
    ensures
        retained(reports).len() <= MAX_DAILY_REPORTS,
        in_date_order(retained(reports)),
    decreases reports.len(),
{
    if reports.len() > MAX_DAILY_REPORTS {
        lemma_first_finalized(reports);
        match first_finalized(reports) {
            Some(i) => removal_keeps_date_order(reports, i),
            None => removal_keeps_date_order(reports, 0),
        }
        retained_is_bounded_and_ordered(trim_once(reports));
    }
}

/// Filing a report leaves the archive with at most `MAX_DAILY_REPORTS`
/// reports, in date order, whatever it held before.
pub proof fn filed_archive_is_bounded_and_ordered<B>(
    before: Seq<StoredReport<B>>,
    report: StoredReport<B>,
    order: Seq<usize>,
)
    requires
        is_date_order(order, with_report(before, report)),
    ensures
        ({
            let updated = with_report(before, report);
            let after = retained(Seq::new(updated.len(), |k: int| updated[order[k] as int]));
            after.len() <= MAX_DAILY_REPORTS && in_date_order(after)
        }),
{
    let updated = with_report(before, report);
    arranged_by_date_is_in_date_order(updated, order);
    retained_is_bounded_and_ordered(Seq::new(updated.len(), |k: int| updated[order[k] as int]));
}

/// No two items share a date.
pub open spec fn distinct_dates<T: Dated>(items: Seq<T>) -> bool {
    forall|i: int, j: int|
        0 <= i < j < items.len() ==> #[trigger] items[i].date_key() != #[trigger] items[j].date_key()
}

/// Arranging items in a date order keeps their dates distinct.
pub proof fn arranged_keeps_distinct_dates<T: Dated>(items: Seq<T>, order: Seq<usize>)
    requires
        is_date_order(order, items),
        distinct_dates(items),
    ensures
        distinct_dates(Seq::new(items.len(), |k: int| items[order[k] as int])),
{
    let arranged = Seq::new(items.len(), |k: int| items[order[k] as int]);
    let prec = |i: int, j: int| text_precedes(dates_of(items), false, i, j);
    assert forall|i: int, j: int| 0 <= i < j < arranged.len() implies #[trigger] arranged[i].date_key()
        != #[trigger] arranged[j].date_key() by {
        assert(prec(order[i] as int, order[j] as int));
        let (x, y) = (order[i] as int, order[j] as int);
        assert(x < items.len() && y < items.len());
        if x == y {
            lemma_lex_irreflexive(dates_of(items)[x]);
        } else if x < y {
            assert(items[x].date_key() != items[y].date_key());
        } else {
            assert(items[y].date_key() != items[x].date_key());
        }
    }
}

/// Dropping the first item keeps the dates distinct and in order.
pub proof fn dropping_first_keeps_dates<T: Dated>(items: Seq<T>)
    requires
        items.len() > 0,
    ensures
        distinct_dates(items) ==> distinct_dates(items.drop_first()),
        in_date_order(items) ==> in_date_order(items.drop_first()),
{
    let after = items.drop_first();
    if distinct_dates(items) {
        assert forall|i: int, j: int| 0 <= i < j < after.len() implies #[trigger] after[i].date_key()
            != #[trigger] after[j].date_key() by {
            assert(after[i] == items[i + 1] && after[j] == items[j + 1]);
        }
    }
    if in_date_order(items) {
        assert forall|i: int, j: int| 0 <= i < j < after.len() implies not_later(
            #[trigger] after[i].date_key(),
            #[trigger] after[j].date_key(),
        ) by {
            assert(after[i] == items[i + 1] && after[j] == items[j + 1]);
        }
    }
}

/// Filing a day's embedding keeps one record per date, in date order, and
/// within `MAX_EMBEDDING_HISTORY` records, when the history was so before.
pub proof fn embedding_history_stays_ordered_and_bounded<E>(
    before: Seq<EmbeddingEntry<E>>,
    entry: EmbeddingEntry<E>,
    order: Seq<usize>,
)
    requires
        first_dated(before, entry.date@) is None ==> is_date_order(order, before.push(entry)),
    ensures
        ({
            let after = match first_dated(before, entry.date@) {
                Some(i) => trimmed(before.update(i, entry)),
                None => trimmed(
                    Seq::new(before.len() + 1, |k: int| before.push(entry)[order[k] as int]),
                ),
            };
            &&& before.len() <= MAX_EMBEDDING_HISTORY ==> after.len() <= MAX_EMBEDDING_HISTORY
            &&& in_date_order(before) ==> in_date_order(after)
            &&& distinct_dates(before) ==> distinct_dates(after)
        }),
{
    lemma_first_dated(before, entry.date@);
    match first_dated(before, entry.date@) {
        Some(i) => {
            let updated = before.update(i, entry);
            assert(forall|k: int| 0 <= k < before.len() ==> #[trigger] updated[k].date_key() == before[k].date_key());
            if in_date_order(before) {
                assert forall|a: int, b: int| 0 <= a < b < updated.len() implies not_later(
                    #[trigger] updated[a].date_key(),
                    #[trigger] updated[b].date_key(),
                ) by {
                    assert(not_later(before[a].date_key(), before[b].date_key()));
                }
            }
            if distinct_dates(before) {
                assert forall|a: int, b: int| 0 <= a < b < updated.len() implies #[trigger] updated[a].date_key()
                    != #[trigger] updated[b].date_key() by {
                    assert(before[a].date_key() != before[b].date_key());
                }
            }
            if updated.len() > 0 {
                dropping_first_keeps_dates(updated);
            }
        },
        None => {
            let pushed = before.push(entry);
            let arranged = Seq::new(before.len() + 1, |k: int| pushed[order[k] as int]);
            arranged_by_date_is_in_date_order(pushed, order);
            if distinct_dates(before) {
                assert forall|a: int, b: int| 0 <= a < b < pushed.len() implies #[trigger] pushed[a].date_key()
                    != #[trigger] pushed[b].date_key() by {
                    if b < before.len() {
                        assert(pushed[a] == before[a] && pushed[b] == before[b]);
                    } else {
                        assert(pushed[a] == before[a]);
                    }
                }
                arranged_keeps_distinct_dates(pushed, order);
            }
            dropping_first_keeps_dates(arranged);
        },
    }
}

/// On a day with any focus, the busiest hour lies between the first and
/// the last hour with focus, and the work span counts the hours from the
/// first to the last; on a day without focus there is neither.
pub proof fn peak_lies_in_work_span(hours: Seq<u64>, peak: int)
    requires
        is_peak_hour(hours, peak),
    ensures
        (exists|h: int| 0 <= h < hours.len() && #[trigger] hours[h] > 0) ==> {
            &&& first_active_hour(hours) matches Some(s)
            &&& last_active_hour(hours) matches Some(e)
            &&& s <= peak <= e
            &&& work_span(hours) == e - s + 1
        },
        !(exists|h: int| 0 <= h < hours.len() && #[trigger] hours[h] > 0) ==> {
            &&& first_active_hour(hours) is None
            &&& last_active_hour(hours) is None
            &&& work_span(hours) == 0
        },
{
    if exists|h: int| 0 <= h < hours.len() && #[trigger] hours[h] > 0 {
        let w = choose|h: int| 0 <= h < hours.len() && #[trigger] hours[h] > 0;
        assert(hours[w] <= hours[peak]);
        lemma_first_active_exists(hours, w);
        lemma_last_active_exists(hours, w);
        let s = first_active_hour(hours)->0;
        let e = last_active_hour(hours)->0;
        if peak < s {
            assert(hours[peak] == 0);
        }
        if peak > e {
            assert(hours[peak] == 0);
        }
    }
}

/// The median depends on the values alone, not on the order in which they
/// were gathered.
pub proof fn median_ignores_order(a: Seq<u64>, b: Seq<u64>)
    requires
        a.to_multiset() == b.to_multiset(),
    ensures
        median_of(a) == median_of(b),
{
    let leq = |x: u64, y: u64| x <= y;
    lemma_ascending_order();
    a.lemma_sort_by_ensures(leq);
    b.lemma_sort_by_ensures(leq);
    a.to_multiset_ensures();
    b.to_multiset_ensures();
    lemma_sorted_unique(ascending(a), ascending(b), leq);
    assert(ascending(a) == ascending(b));
    assert(a.len() == a.to_multiset().len());
    assert(b.len() == b.to_multiset().len());
}

/// Once the day has changed to `today`, changing days again on that day
/// changes nothing: the change happens once per day.
pub proof fn day_changes_once(state: TrackingState, today: Seq<char>, feature_date: Seq<char>)
    requires
        state.collection_day@ == today,
        today.len() > 0,
    ensures
        collected_day(state, today, feature_date) == today,
{
}

/// Changing a flow minute in place, keeping its start, keeps one minute per
/// key.
pub proof fn updating_a_minute_keeps_keys(minutes: Seq<FlowMinute>, i: int, m: FlowMinute)
    requires
        0 <= i < minutes.len(),
        m.start_at@ == minutes[i].start_at@,
    ensures
        unique_minute_keys(minutes) ==> unique_minute_keys(minutes.update(i, m)),
{
    let after = minutes.update(i, m);
    if unique_minute_keys(minutes) {
        assert forall|a: int, b: int| 0 <= a < b < after.len() implies #[trigger] after[a].start_at@
            != #[trigger] after[b].start_at@ by {
            assert(after[a].start_at@ == minutes[a].start_at@);
            assert(after[b].start_at@ == minutes[b].start_at@);
        }
    }
}

/// No application has two entries.
pub open spec fn unique_app_names(apps: Seq<AppActivity>) -> bool {
    forall|i: int, j: int| 0 <= i < j < apps.len() ==> #[trigger] apps[i].app@ != #[trigger] apps[j].app@
}

/// Adding an entry for an application that has none, or changing an entry
/// in place without renaming it, keeps one entry per application.
pub proof fn app_entries_stay_unique(before: Seq<AppActivity>, after: Seq<AppActivity>)
    requires
        unique_app_names(before),
        after.len() == before.len() || after.len() == before.len() + 1,
        forall|k: int| 0 <= k < before.len() ==> #[trigger] after[k].app@ == before[k].app@,
        after.len() == before.len() + 1 ==> forall|k: int|
            0 <= k < before.len() ==> #[trigger] before[k].app@ != after.last().app@,
    ensures
        unique_app_names(after),
{
    assert forall|i: int, j: int| 0 <= i < j < after.len() implies #[trigger] after[i].app@
        != #[trigger] after[j].app@ by {
        if j < before.len() {
            assert(after[i].app@ == before[i].app@ && after[j].app@ == before[j].app@);
        } else {
            assert(after[i].app@ == before[i].app@);
        }
    }
}

/// The tracker's state is sound: every history within its bound, one flow
/// minute per key, one entry per application, and every re-entry episode
/// after a break of 3 to 60 minutes. A fresh state is sound, and every
/// operation of the library keeps it so.
pub open spec fn sound_state(s: TrackingState) -> bool {
    &&& s.timeline.len() <= MAX_TIMELINE
    &&& s.sessions.len() <= MAX_SESSIONS
    &&& s.flow_minutes.len() <= MAX_FLOW_MINUTES
    &&& s.disk_snapshots.len() <= MAX_DISK_SNAPSHOTS
    &&& s.reentry_episodes.len() <= MAX_REENTRY_EPISODES
    &&& unique_minute_keys(s.flow_minutes@)
    &&& unique_app_names(s.apps@)
    &&& breaks_in_window(s.reentry_episodes@)
}

/// Filing a report into an archive with room for it, where no two reports
/// share a date, keeps one report per date, and the report filed is the one
/// a request for its day finds (drafts included).
pub proof fn filed_report_is_read_back<B>(
    before: Seq<StoredReport<B>>,
    report: StoredReport<B>,
    order: Seq<usize>,
)
    requires
        is_date_order(order, with_report(before, report)),
        before.len() < MAX_DAILY_REPORTS,
        distinct_dates(before),
    ensures
        ({
            let updated = with_report(before, report);
            let after = retained(Seq::new(updated.len(), |k: int| updated[order[k] as int]));
            &&& distinct_dates(after)
            &&& exists|i: int|
                0 <= i < after.len() && after[i] == report && forall|k: int|
                    0 <= k < after.len() && k != i ==> !answers(#[trigger] after[k], report.date@, true)
        }),
{
    let updated = with_report(before, report);
    let arranged = Seq::new(updated.len(), |k: int| updated[order[k] as int]);
    lemma_first_with_date(before, report.date@);
    let p: int = match first_with_date(before, report.date@) {
        Some(i) => i,
        None => before.len() as int,
    };
    assert(updated[p] == report);
    assert(updated.len() <= MAX_DAILY_REPORTS);
    with_report_keeps_distinct_dates(before, report);
    assert(distinct_dates(updated));
    arranged_keeps_distinct_dates(updated, order);
    assert(order.contains(p as usize));
    let i = choose|i: int| 0 <= i < order.len() && order[i] == p as usize;
    assert(arranged[i] == report);
    assert(retained(arranged) == arranged);
    assert forall|k: int| 0 <= k < arranged.len() && k != i implies !answers(
        #[trigger] arranged[k],
        report.date@,
        true,
    ) by {
        if k < i {
            assert(arranged[k].date_key() != arranged[i].date_key());
        } else {
            assert(arranged[i].date_key() != arranged[k].date_key());
        }
    }
}

proof fn without_bucket_splits(x: Seq<DiskUsageSnapshot>, y: Seq<DiskUsageSnapshot>, at: Seq<char>)
    ensures
        without_bucket(x + y, at) == without_bucket(x, at) + without_bucket(y, at),
    decreases y.len(),
{
    if y.len() == 0 {
        assert(x + y =~= x);
        assert(without_bucket(x, at) + without_bucket(y, at) =~= without_bucket(x, at));
    } else {
        let shorter = y.drop_last();
        without_bucket_splits(x, shorter, at);
        assert((x + y).drop_last() =~= x + shorter);
        assert((x + y).last() == y.last());
        if y.last().at@ != at {
            assert(without_bucket(x, at) + without_bucket(shorter, at).push(y.last()) =~= (without_bucket(
                x,
                at,
            ) + without_bucket(shorter, at)).push(y.last()));
        }
    }
}

proof fn without_bucket_keeps_others(x: Seq<DiskUsageSnapshot>, at: Seq<char>)
    requires
        forall|i: int| 0 <= i < x.len() ==> #[trigger] x[i].at@ != at,
    ensures
        without_bucket(x, at) == x,
    decreases x.len(),
{
    if x.len() > 0 {
        without_bucket_keeps_others(x.drop_last(), at);
        assert(x.drop_last().push(x.last()) =~= x);
    }
}

proof fn without_bucket_drops_bucket(x: Seq<DiskUsageSnapshot>, at: Seq<char>)
    requires
        forall|i: int| 0 <= i < x.len() ==> #[trigger] x[i].at@ == at,
    ensures
        without_bucket(x, at).len() == 0,
    decreases x.len(),
{
    if x.len() > 0 {
        without_bucket_drops_bucket(x.drop_last(), at);
    }
}

proof fn without_bucket_leaves_none(x: Seq<DiskUsageSnapshot>, at: Seq<char>)
    ensures
        forall|i: int| 0 <= i < without_bucket(x, at).len() ==> #[trigger] without_bucket(x, at)[i].at@ != at,
    decreases x.len(),
{
    if x.len() > 0 {
        let prev = without_bucket(x.drop_last(), at);
        without_bucket_leaves_none(x.drop_last(), at);
        if x.last().at@ != at {
            assert forall|i: int| 0 <= i < prev.push(x.last()).len() implies #[trigger] prev.push(
                x.last(),
            )[i].at@ != at by {
                if i < prev.len() {
                    assert(prev.push(x.last())[i] == prev[i]);
                }
            }
        }
    }
}

/// Filing the snapshots of a bucket a second time changes nothing: each
/// half-hour bucket keeps one set of snapshots.
pub proof fn refiling_a_bucket_changes_nothing(
    before: Seq<DiskUsageSnapshot>,
    at: Seq<char>,
    snapshots: Seq<DiskUsageSnapshot>,
)
    requires
        forall|i: int| 0 <= i < snapshots.len() ==> #[trigger] snapshots[i].at@ == at,
    ensures
        filed_snapshots(filed_snapshots(before, at, snapshots), at, snapshots) == filed_snapshots(
            before,
            at,
            snapshots,
        ),
{
    if snapshots.len() > 0 {
        let w = without_bucket(before, at);
        let all = w + snapshots;
        let once = latest_snapshots(all);
        without_bucket_leaves_none(before, at);
        without_bucket_drops_bucket(snapshots, at);
        if all.len() <= MAX_DISK_SNAPSHOTS {
            without_bucket_splits(w, snapshots, at);
            without_bucket_keeps_others(w, at);
            assert(without_bucket(once, at) + snapshots =~= all);
        } else {
            let d = all.len() - MAX_DISK_SNAPSHOTS;
            if d <= w.len() {
                let rest = w.skip(d);
                assert(once =~= rest + snapshots);
                assert forall|i: int| 0 <= i < rest.len() implies #[trigger] rest[i].at@ != at by {
                    assert(rest[i] == w[i + d]);
                }
                without_bucket_splits(rest, snapshots, at);
                without_bucket_keeps_others(rest, at);
                assert(without_bucket(once, at) + snapshots =~= once);
            } else {
                let tail = snapshots.skip(d - w.len());
                assert(once =~= tail);
                assert forall|i: int| 0 <= i < tail.len() implies #[trigger] tail[i].at@ == at by {
                    assert(tail[i] == snapshots[i + d - w.len()]);
                }
                without_bucket_drops_bucket(tail, at);
                assert(without_bucket(once, at) + snapshots =~= snapshots);
                assert(snapshots.skip(snapshots.len() - MAX_DISK_SNAPSHOTS) =~= tail);
            }
        }
    }
}

/// Dropping an item keeps the dates distinct.
pub proof fn removal_keeps_distinct_dates<T: Dated>(items: Seq<T>, i: int)
    requires
        distinct_dates(items),
        0 <= i < items.len(),
    ensures
        distinct_dates(items.remove(i)),
{
    let after = items.remove(i);
    assert forall|a: int, b: int| 0 <= a < b < after.len() implies #[trigger] after[a].date_key()
        != #[trigger] after[b].date_key() by {
        let x = if a < i { a } else { a + 1 };
        let y = if b < i { b } else { b + 1 };
        assert(after[a] == items[x] && after[b] == items[y]);
    }
}

/// Trimming an archive with one report per date keeps one per date and
/// leaves `MAX_DAILY_REPORTS` reports when it held more.
pub proof fn retained_keeps_distinct_dates<B>(reports: Seq<StoredReport<B>>)
    requires
        distinct_dates(reports),
    ensures
        distinct_dates(retained(reports)),
        retained(reports).len() == if reports.len() > MAX_DAILY_REPORTS {
            MAX_DAILY_REPORTS as int
        } else {
            reports.len() as int
        },
    decreases reports.len(),
{
    if reports.len() > MAX_DAILY_REPORTS {
        lemma_first_finalized(reports);
        match first_finalized(reports) {
            Some(i) => removal_keeps_distinct_dates(reports, i),
            None => removal_keeps_distinct_dates(reports, 0),
        }
        retained_keeps_distinct_dates(trim_once(reports));
    }
}

/// Putting a report in place of the first one of its date, or adding it,
/// keeps one report per date.
pub proof fn with_report_keeps_distinct_dates<B>(before: Seq<StoredReport<B>>, report: StoredReport<B>)
    requires
        distinct_dates(before),
    ensures
        distinct_dates(with_report(before, report)),
        with_report(before, report).len() == before.len() + if first_with_date(before, report.date@) is Some {
            0int
        } else {
            1int
        },
{
    let updated = with_report(before, report);
    lemma_first_with_date(before, report.date@);
    let p: int = match first_with_date(before, report.date@) {
        Some(i) => i,
        None => before.len() as int,
    };
    assert(updated[p] == report);
    assert forall|a: int, b: int| 0 <= a < b < updated.len() implies #[trigger] updated[a].date_key()
        != #[trigger] updated[b].date_key() by {
        if a != p && b != p {
            assert(updated[a] == before[a] && updated[b] == before[b]);
        } else if a == p {
            assert(updated[b] == before[b]);
            if first_with_date(before, report.date@) is Some {
                assert(before[p].date@ == report.date@);
                assert(before[p].date_key() != before[b].date_key());
            }
        } else {
            assert(updated[a] == before[a]);
            if first_with_date(before, report.date@) is Some {
                assert(before[p].date@ == report.date@);
                assert(before[a].date_key() != before[p].date_key());
            }
        }
    }
}

/// Filing a report into an archive with one report per date keeps one
/// report per date, in date order. The report takes the place of the old
/// one of its date, other reports keep their contents, and the archive then
/// holds as many reports as it has dates, at most `MAX_DAILY_REPORTS`; when
/// one more would remain, the earliest finalized report (or else the
/// earliest) is the one dropped.
pub proof fn filed_archive_keeps_one_report_per_date<B>(
    before: Seq<StoredReport<B>>,
    report: StoredReport<B>,
    order: Seq<usize>,
)
    requires
        is_date_order(order, with_report(before, report)),
        distinct_dates(before),
    ensures
        ({
            let updated = with_report(before, report);
            let arranged = Seq::new(updated.len(), |k: int| updated[order[k] as int]);
            let after = retained(arranged);
            let dates = before.len() + if first_with_date(before, report.date@) is Some {
                0int
            } else {
                1int
            };
            &&& distinct_dates(after)
            &&& in_date_order(after)
            &&& after.len() == if dates > MAX_DAILY_REPORTS {
                MAX_DAILY_REPORTS as int
            } else {
                dates
            }
            &&& (first_with_date(before, report.date@) matches Some(i) ==> updated == before.update(i, report))
            &&& (first_with_date(before, report.date@) is None ==> updated == before.push(report))
            &&& (before.len() <= MAX_DAILY_REPORTS && arranged.len() > MAX_DAILY_REPORTS ==> after
                == trim_once(arranged))
        }),
{
    let updated = with_report(before, report);
    let arranged = Seq::new(updated.len(), |k: int| updated[order[k] as int]);
    with_report_keeps_distinct_dates(before, report);
    arranged_keeps_distinct_dates(updated, order);
    retained_keeps_distinct_dates(arranged);
    filed_archive_is_bounded_and_ordered(before, report, order);
    lemma_first_with_date(before, report.date@);
    if before.len() <= MAX_DAILY_REPORTS && arranged.len() > MAX_DAILY_REPORTS {
        lemma_first_finalized(arranged);
        let trimmed_once = trim_once(arranged);
        assert(trimmed_once.len() == MAX_DAILY_REPORTS);
        assert(retained(trimmed_once) == trimmed_once);
    }
}

/// Items listed through an order that names each position once hold the
/// same items.
pub proof fn listing_keeps_items<A>(items: Seq<A>, order: Seq<usize>, shown: Seq<A>)
    requires
        items.len() <= usize::MAX,
        order.len() == items.len(),
        shown.len() == items.len(),
        forall|i: int| 0 <= i < order.len() ==> #[trigger] order[i] < items.len(),
        forall|x: usize| x < items.len() ==> #[trigger] order.contains(x),
        forall|i: int, j: int| 0 <= i < j < order.len() ==> #[trigger] order[i] != #[trigger] order[j],
        forall|i: int| 0 <= i < shown.len() ==> #[trigger] shown[i] == items[order[i] as int],
    ensures
        shown.to_multiset() == items.to_multiset(),
    decreases items.len(),
{
    broadcast use vstd::seq_lib::group_to_multiset_ensures;

    if items.len() > 0 {
        let n = items.len() - 1;
        assert(order.contains(n as usize));
        let i = choose|i: int| 0 <= i < order.len() && order[i] == n as usize;
        let order2 = order.remove(i);
        let shown2 = shown.remove(i);
        let items2 = items.drop_last();
        assert forall|k: int| 0 <= k < order2.len() implies #[trigger] order2[k] < items2.len() by {
            let kk = if k < i { k } else { k + 1 };
            assert(order2[k] == order[kk]);
            if kk < i {
                assert(order[kk] != order[i]);
            } else {
                assert(order[i] != order[kk]);
            }
        }
        assert forall|x: usize| x < items2.len() implies #[trigger] order2.contains(x) by {
            assert(order.contains(x));
            let k = choose|k: int| 0 <= k < order.len() && order[k] == x;
            if k < i {
                assert(order2[k] == x);
            } else {
                assert(x as int != n);
                assert(k != i);
                assert(order2[k - 1] == x);
            }
        }
        assert forall|a: int, b: int| 0 <= a < b < order2.len() implies #[trigger] order2[a]
            != #[trigger] order2[b] by {
            let aa = if a < i { a } else { a + 1 };
            let bb = if b < i { b } else { b + 1 };
            assert(order2[a] == order[aa] && order2[b] == order[bb]);
        }
        assert forall|k: int| 0 <= k < shown2.len() implies #[trigger] shown2[k] == items2[order2[k] as int] by {
            let kk = if k < i { k } else { k + 1 };
            assert(shown2[k] == shown[kk] && order2[k] == order[kk]);
        }
        listing_keeps_items(items2, order2, shown2);
        assert(items2.push(items[n]) =~= items);
        assert(order[i] as int == n);
        assert(shown[i] == items[n]);
    }
}

/// The active seconds of cards, summed from the left.
pub open spec fn add_active(total: int, c: CardContent) -> int {
    total + c.active_seconds
}

/// The completed cards, counted from the left.
pub open spec fn add_completed(count: int, c: CardContent) -> int {
    count + if c.is_live {
        0int
    } else {
        1int
    }
}

/// The longest active seconds so far.
pub open spec fn keep_longest(longest: int, c: CardContent) -> int {
    if c.active_seconds > longest {
        c.active_seconds as int
    } else {
        longest
    }
}

proof fn totals_are_folds(cards: Seq<CardContent>)
    ensures
        cards_active_total(cards) == cards.fold_left(0int, |t: int, c: CardContent| add_active(t, c)),
        cards_completed(cards) == cards.fold_left(0int, |t: int, c: CardContent| add_completed(t, c)),
        cards_longest(cards) == cards.fold_left(0int, |t: int, c: CardContent| keep_longest(t, c)),
    decreases cards.len(),
{
    if cards.len() > 0 {
        totals_are_folds(cards.drop_last());
    }
}

/// The review list shows the day's cards latest first: the same cards, each
/// once, in order of start (latest first, ties in their order), so its
/// totals are the totals of the day's cards.
pub proof fn review_list_is_latest_first(shown: Seq<CardContent>, cards: Seq<CardContent>)
    requires
        in_review_order(shown, cards),
        cards.len() <= usize::MAX,
    ensures
        shown.len() == cards.len(),
        forall|i: int, j: int|
            0 <= i < j < shown.len() ==> lex_lt(#[trigger] shown[j].started_at, #[trigger] shown[i].started_at)
                || shown[i].started_at == shown[j].started_at,
        shown.to_multiset() == cards.to_multiset(),
        cards_active_total(shown) == cards_active_total(cards),
        cards_completed(shown) == cards_completed(cards),
        cards_longest(shown) == cards_longest(cards),
{
    let order = choose|order: Seq<usize>|
        #[trigger] is_review_order(order, cards) && shown.len() == cards.len() && forall|i: int|
            0 <= i < cards.len() ==> shown[i] == cards[order[i] as int];
    let prec = |i: int, j: int| text_precedes(card_starts(cards), true, i, j);
    assert forall|i: int, j: int| 0 <= i < j < shown.len() implies lex_lt(
        #[trigger] shown[j].started_at,
        #[trigger] shown[i].started_at,
    ) || shown[i].started_at == shown[j].started_at by {
        assert(prec(order[i] as int, order[j] as int));
    }
    assert forall|i: int, j: int| 0 <= i < j < order.len() implies #[trigger] order[i]
        != #[trigger] order[j] by {
        assert(prec(order[i] as int, order[j] as int));
        if order[i] == order[j] {
            lemma_lex_irreflexive(card_starts(cards)[order[i] as int]);
        }
    }
    listing_keeps_items(cards, order, shown);
    totals_are_folds(shown);
    totals_are_folds(cards);
    let fa = |t: int, c: CardContent| add_active(t, c);
    let fc = |t: int, c: CardContent| add_completed(t, c);
    let fl = |t: int, c: CardContent| keep_longest(t, c);
    assert(commutative_foldl(fa));
    assert(commutative_foldl(fc));
    assert(commutative_foldl(fl));
    lemma_fold_left_permutation(shown, cards, fa, 0int);
    lemma_fold_left_permutation(shown, cards, fc, 0int);
    lemma_fold_left_permutation(shown, cards, fl, 0int);
}

/// The sum of `field` over the flow minutes that fall, on the day `date`,
/// into one of the first `n` buckets of `bucket_minutes` minutes.
pub open spec fn slotted_sum(
    minutes: Seq<FlowMinute>,
    date: Seq<char>,
    bucket_minutes: int,
    n: int,
    field: MinuteField,
) -> int
    decreases minutes.len(),
{
    if minutes.len() == 0 {
        0
    } else {
        slotted_sum(minutes.drop_last(), date, bucket_minutes, n, field) + match minute_slot(
            minutes.last(),
            date,
            bucket_minutes,
        ) {
            Some(b) => if 0 <= b < n {
                field_value(minutes.last(), field)
            } else {
                0
            },
            None => 0,
        }
    }
}

/// The bucket sums of the first `n` buckets, added up.
pub open spec fn bucket_sums(
    minutes: Seq<FlowMinute>,
    date: Seq<char>,
    bucket_minutes: int,
    n: int,
    field: MinuteField,
) -> int
    decreases n,
{
    if n <= 0 {
        0
    } else {
        bucket_sums(minutes, date, bucket_minutes, n - 1, field) + bucket_sum(
            minutes,
            date,
            bucket_minutes,
            n - 1,
            field,
        )
    }
}

proof fn bucket_sums_split(minutes: Seq<FlowMinute>, date: Seq<char>, bucket_minutes: int, n: int, field: MinuteField)
    requires
        minutes.len() > 0,
        n >= 0,
    ensures
        bucket_sums(minutes, date, bucket_minutes, n, field) == bucket_sums(
            minutes.drop_last(),
            date,
            bucket_minutes,
            n,
            field,
        ) + match minute_slot(minutes.last(), date, bucket_minutes) {
            Some(b) => if 0 <= b < n {
                field_value(minutes.last(), field)
            } else {
                0
            },
            None => 0,
        },
    decreases n,
{
    if n > 0 {
        bucket_sums_split(minutes, date, bucket_minutes, n - 1, field);
    }
}

proof fn bucket_sums_are_slotted(minutes: Seq<FlowMinute>, date: Seq<char>, bucket_minutes: int, n: int, field: MinuteField)
    requires
        n >= 0,
    ensures
        bucket_sums(minutes, date, bucket_minutes, n, field) == slotted_sum(minutes, date, bucket_minutes, n, field),
    decreases minutes.len(),
{
    if minutes.len() == 0 {
        bucket_sums_of_nothing(minutes, date, bucket_minutes, n, field);
    } else {
        bucket_sums_split(minutes, date, bucket_minutes, n, field);
        bucket_sums_are_slotted(minutes.drop_last(), date, bucket_minutes, n, field);
    }
}

proof fn bucket_sums_of_nothing(minutes: Seq<FlowMinute>, date: Seq<char>, bucket_minutes: int, n: int, field: MinuteField)
    requires
        minutes.len() == 0,
        n >= 0,
    ensures
        bucket_sums(minutes, date, bucket_minutes, n, field) == 0,
    decreases n,
{
    if n > 0 {
        bucket_sums_of_nothing(minutes, date, bucket_minutes, n - 1, field);
    }
}

/// Where no bucket reaches `u32::MAX`, the buckets of a day add up to the
/// day's flow minutes that fall into them: the ribbon's focus and idle
/// totals are the day's focus and idle seconds over those minutes.
pub proof fn bucket_totals_add_up_to_minutes(
    minutes: Seq<FlowMinute>,
    date: Seq<char>,
    bucket_minutes: int,
    n: int,
    field: MinuteField,
)
    requires
        n >= 0,
        forall|b: int| 0 <= b < n ==> #[trigger] bucket_sum(minutes, date, bucket_minutes, b, field) <= u32::MAX,
    ensures
        totals_sum(Seq::new(n as nat, |b: int| bucket_totals(minutes, date, bucket_minutes, b)), field)
            == slotted_sum(minutes, date, bucket_minutes, n, field),
    decreases n,
{
    bucket_sums_are_slotted(minutes, date, bucket_minutes, n, field);
    if n > 0 {
        let accs = Seq::new(n as nat, |b: int| bucket_totals(minutes, date, bucket_minutes, b));
        let shorter = Seq::new((n - 1) as nat, |b: int| bucket_totals(minutes, date, bucket_minutes, b));
        assert(accs.drop_last() =~= shorter);
        bucket_totals_add_up_to_minutes(minutes, date, bucket_minutes, n - 1, field);
        bucket_sums_are_slotted(minutes, date, bucket_minutes, n - 1, field);
        lemma_bucket_sum_nonnegative(minutes, date, bucket_minutes, n - 1, field);
        assert(bucket_sum(minutes, date, bucket_minutes, n - 1, field) <= u32::MAX);
        assert(accs.last() == bucket_totals(minutes, date, bucket_minutes, n - 1));
    }
}

proof fn streak_is_nonnegative(minutes: Seq<FlowMinute>, date: Seq<char>, start: int, n: int)
    ensures
        reentry_scan(minutes, date, start, n).2 >= 0,
    decreases n,
{
    if n > 0 {
        streak_is_nonnegative(minutes, date, start, n - 1);
    }
}

proof fn streak_is_focused_run(minutes: Seq<FlowMinute>, date: Seq<char>, start: int, n: int, m: int)
    requires
        0 <= m <= n,
    ensures
        reentry_scan(minutes, date, start, n).2 >= m <==> forall|j: int|
            n - m <= j < n ==> #[trigger] minute_is_focused(minute_at(minutes, date, start + j)),
    decreases n,
{
    streak_is_nonnegative(minutes, date, start, n);
    if n > 0 && m > 0 {
        streak_is_focused_run(minutes, date, start, n - 1, m - 1);
        let last = minute_at(minutes, date, start + (n - 1));
        assert(minute_at(minutes, date, start + n - 1) == last);
        let all_before = forall|i: int|
            n - m <= i < n - 1 ==> #[trigger] minute_is_focused(minute_at(minutes, date, start + i));
        let all = forall|i: int|
            n - m <= i < n ==> #[trigger] minute_is_focused(minute_at(minutes, date, start + i));
        if all {
            assert(minute_is_focused(last));
            assert(all_before);
        }
        if minute_is_focused(last) && all_before {
            assert forall|i: int| n - m <= i < n implies #[trigger] minute_is_focused(
                minute_at(minutes, date, start + i),
            ) by {
                if i == n - 1 {
                    assert(minute_at(minutes, date, start + i) == last);
                }
            }
        }
    }
}

proof fn streak_is_bounded(minutes: Seq<FlowMinute>, date: Seq<char>, start: int, n: int)
    requires
        n >= 0,
    ensures
        reentry_scan(minutes, date, start, n).2 <= n,
    decreases n,
{
    if n > 0 {
        streak_is_bounded(minutes, date, start, n - 1);
    }
}

/// A re-entry stabilizes at the first minute `k` (from 5 to the minutes
/// observed) before which five focused minutes ran in a row, `60 * k`
/// seconds after resuming; without such a run it does not stabilize.
pub proof fn stabilization_is_first_run_of_five(minutes: Seq<FlowMinute>, date: Seq<char>, start: int, n: int)
    requires
        n >= 0,
    ensures
        reentry_scan(minutes, date, start, n).3 matches Some(s) ==> exists|k: int|
            5 <= k <= n && s == 60 * k && five_focused_before(minutes, date, start, k) && forall|k2: int|
                5 <= k2 < k ==> !#[trigger] five_focused_before(minutes, date, start, k2),
        reentry_scan(minutes, date, start, n).3 is None ==> forall|k: int|
            5 <= k <= n ==> !#[trigger] five_focused_before(minutes, date, start, k),
    decreases n,
{
    if n > 0 {
        stabilization_is_first_run_of_five(minutes, date, start, n - 1);
        if n >= 5 {
            streak_is_focused_run(minutes, date, start, n, 5);
        } else {
            streak_is_focused_run(minutes, date, start, n, n);
        }
        let prev = reentry_scan(minutes, date, start, n - 1);
        let scan = reentry_scan(minutes, date, start, n);
        if prev.3 is None && scan.3 is Some {
            assert(scan.3 == Some(n * 60));
            assert(n >= 5) by {
                if n < 5 {
                    streak_is_bounded(minutes, date, start, n);
                }
            }
            assert(five_focused_before(minutes, date, start, n));
        }
        if scan.3 is None {
            assert forall|k: int| 5 <= k <= n implies !#[trigger] five_focused_before(minutes, date, start, k) by {
                if k == n {
                    if five_focused_before(minutes, date, start, n) {
                        assert(scan.2 >= 5);
                    }
                }
            }
        }
    }
}

/// A bucket's switch count as the focus summary weighs it.
pub open spec fn weighed_switches(v: FlowBucketAccumulator) -> int {
    cap(v.switch_count as int, u16::MAX as int)
}

/// The highest switch count of the focus summary is the largest switch
/// count of any bucket, 0 without buckets; the bucket it names is the first
/// that has it, and none is named when no bucket has a switch.
pub proof fn switch_peak_is_first_maximum(accs: Seq<FlowBucketAccumulator>)
    ensures
        ({
            let peak = switch_peak(accs);
            &&& peak.0 >= 0
            &&& forall|i: int| 0 <= i < accs.len() ==> #[trigger] weighed_switches(accs[i]) <= peak.0
            &&& (peak.1 is None <==> peak.0 == 0)
            &&& (peak.1 matches Some(j) ==> 0 <= j < accs.len() && weighed_switches(accs[j]) == peak.0 && forall|
                i: int,
            |
                0 <= i < j ==> #[trigger] weighed_switches(accs[i]) < peak.0)
        }),
    decreases accs.len(),
{
    if accs.len() > 0 {
        let prev = accs.drop_last();
        switch_peak_is_first_maximum(prev);
        assert forall|i: int| 0 <= i < prev.len() implies #[trigger] weighed_switches(accs[i]) == weighed_switches(
            prev[i],
        ) by {}
        let last = accs.len() - 1;
        assert(weighed_switches(accs[last]) == cap(accs.last().switch_count as int, u16::MAX as int));
        let p = switch_peak(prev);
        assert forall|i: int| 0 <= i < accs.len() implies #[trigger] weighed_switches(accs[i]) <= switch_peak(accs).0 by {
            if i < last {
                assert(weighed_switches(prev[i]) <= p.0);
            }
        }
        if let Some(j) = switch_peak(accs).1 {
            assert forall|i: int| 0 <= i < j implies #[trigger] weighed_switches(accs[i]) < switch_peak(accs).0 by {
                assert(weighed_switches(prev[i]) <= p.0);
                if let Some(j0) = p.1 {
                    if j == j0 {
                        assert(weighed_switches(prev[i]) < p.0);
                    }
                }
            }
        }
    }
}

/// The focus seconds of buckets `i` to `j - 1`.
pub open spec fn span_focus(accs: Seq<FlowBucketAccumulator>, i: int, j: int) -> int
    decreases j - i,
{
    if j <= i {
        0
    } else {
        span_focus(accs, i, j - 1) + accs[j - 1].focus_seconds
    }
}

/// Buckets `i` to `j - 1` are all focused.
pub open spec fn all_focused(accs: Seq<FlowBucketAccumulator>, i: int, j: int) -> bool {
    forall|k: int| i <= k < j ==> #[trigger] flow_state_of(accs[k]) == FlowState::Focused
}

proof fn span_focus_nonnegative(accs: Seq<FlowBucketAccumulator>, i: int, j: int)
    ensures
        span_focus(accs, i, j) >= 0,
    decreases j - i,
{
    if j > i {
        span_focus_nonnegative(accs, i, j - 1);
    }
}

proof fn focus_runs_of_prefix(accs: Seq<FlowBucketAccumulator>, n: int)
    requires
        0 <= n <= accs.len(),
    ensures
        ({
            let r = focus_runs(accs.take(n));
            &&& 0 <= r.0 <= u64::MAX
            &&& r.0 <= r.1 <= u64::MAX
            &&& exists|s: int| 0 <= s <= n && all_focused(accs, s, n) && r.0 == cap(#[trigger] span_focus(accs, s, n), u64::MAX as int)
            &&& forall|i: int| 0 <= i <= n && all_focused(accs, i, n) ==> cap(#[trigger] span_focus(accs, i, n), u64::MAX as int) <= r.0
            &&& forall|i: int, j: int|
                0 <= i < j <= n && all_focused(accs, i, j) ==> cap(#[trigger] span_focus(accs, i, j), u64::MAX as int) <= r.1
            &&& (r.1 == 0 || exists|i: int, j: int|
                0 <= i < j <= n && all_focused(accs, i, j) && r.1 == cap(#[trigger] span_focus(accs, i, j), u64::MAX as int))
        }),
    decreases n,
{
    let r = focus_runs(accs.take(n));
    if n == 0 {
        assert(all_focused(accs, 0, 0));
        assert(span_focus(accs, 0, 0) == 0);
    } else {
        focus_runs_of_prefix(accs, n - 1);
        assert(accs.take(n).drop_last() =~= accs.take(n - 1));
        let prev = focus_runs(accs.take(n - 1));
        let v = accs[n - 1];
        assert(accs.take(n).last() == v);
        let s0 = choose|s: int| 0 <= s <= n - 1 && all_focused(accs, s, n - 1) && prev.0 == cap(#[trigger] span_focus(accs, s, n - 1), u64::MAX as int);
        if flow_state_of(v) == FlowState::Focused {
            span_focus_nonnegative(accs, s0, n - 1);
            assert(span_focus(accs, s0, n) == span_focus(accs, s0, n - 1) + v.focus_seconds);
            assert(all_focused(accs, s0, n));
            assert(r.0 == cap(span_focus(accs, s0, n), u64::MAX as int));
            assert forall|i: int| 0 <= i <= n && all_focused(accs, i, n) implies cap(#[trigger] span_focus(accs, i, n), u64::MAX as int) <= r.0 by {
                if i < n {
                    assert(all_focused(accs, i, n - 1));
                    span_focus_nonnegative(accs, i, n - 1);
                    assert(span_focus(accs, i, n) == span_focus(accs, i, n - 1) + v.focus_seconds);
                    assert(cap(span_focus(accs, i, n - 1), u64::MAX as int) <= prev.0);
                }
            }
            assert forall|i: int, j: int|
                0 <= i < j <= n && all_focused(accs, i, j) implies cap(#[trigger] span_focus(accs, i, j), u64::MAX as int) <= r.1 by {
                if j == n {
                    assert(cap(span_focus(accs, i, n), u64::MAX as int) <= r.0);
                } else {
                    assert(cap(span_focus(accs, i, j), u64::MAX as int) <= prev.1);
                }
            }
            if r.1 != 0 && r.0 > prev.1 {
                assert(s0 < n) by {
                    if s0 == n {
                        assert(span_focus(accs, n, n) == 0);
                    }
                }
                assert(0 <= s0 < n <= n && all_focused(accs, s0, n) && r.1 == cap(span_focus(accs, s0, n), u64::MAX as int));
            }
        } else {
            assert(all_focused(accs, n, n));
            assert(span_focus(accs, n, n) == 0);
            assert forall|i: int| 0 <= i <= n && all_focused(accs, i, n) implies cap(#[trigger] span_focus(accs, i, n), u64::MAX as int) <= r.0 by {
                if i < n {
                    assert(flow_state_of(accs[n - 1]) == FlowState::Focused);
                }
            }
            assert forall|i: int, j: int|
                0 <= i < j <= n && all_focused(accs, i, j) implies cap(#[trigger] span_focus(accs, i, j), u64::MAX as int) <= r.1 by {
                if j == n {
                    assert(flow_state_of(accs[n - 1]) == FlowState::Focused);
                } else {
                    assert(cap(span_focus(accs, i, j), u64::MAX as int) <= prev.1);
                }
            }
        }
    }
}

/// The longest focused span of the focus summary is the largest focus
/// total (held at `u64::MAX`) of a run of consecutive focused buckets, or 0
/// when no bucket is focused.
pub proof fn longest_span_is_best_focused_run(accs: Seq<FlowBucketAccumulator>)
    ensures
        forall|i: int, j: int|
            0 <= i < j <= accs.len() && all_focused(accs, i, j) ==> cap(#[trigger] span_focus(accs, i, j), u64::MAX as int)
                <= focus_runs(accs).1,
        focus_runs(accs).1 == 0 || exists|i: int, j: int|
            0 <= i < j <= accs.len() && all_focused(accs, i, j) && focus_runs(accs).1 == cap(
                #[trigger] span_focus(accs, i, j),
                u64::MAX as int,
            ),
{
    focus_runs_of_prefix(accs, accs.len() as int);
    assert(accs.take(accs.len() as int) =~= accs);
}

/// The four notes a report's limitations are written with differ.
proof fn quality_notes_differ()
    ensures
        crate::quality::short_observation_note() != crate::quality::few_buckets_note(),
        crate::quality::short_observation_note() != crate::quality::low_coverage_note(),
        crate::quality::short_observation_note() != crate::quality::few_sessions_note(),
        crate::quality::few_buckets_note() != crate::quality::low_coverage_note(),
        crate::quality::few_buckets_note() != crate::quality::few_sessions_note(),
        crate::quality::low_coverage_note() != crate::quality::few_sessions_note(),
{
    reveal_strlit("관측된 활동 시간이 60분 미만이어서 개인 비교를 만들지 않았습니다.");
    reveal_strlit("5분 흐름 버킷이 충분하지 않아 시간대 비교의 신뢰도가 낮습니다.");
    reveal_strlit("첫 관측부터 마지막 관측까지의 시간 중 실제 관측 비율이 낮습니다.");
    reveal_strlit("완료된 세션이 2개 미만이어서 세션 구조 비교를 제한합니다.");
    assert(crate::quality::short_observation_note()[0] != crate::quality::few_buckets_note()[0]);
    assert(crate::quality::short_observation_note()[0] != crate::quality::low_coverage_note()[0]);
    assert(crate::quality::short_observation_note()[0] != crate::quality::few_sessions_note()[0]);
    assert(crate::quality::few_buckets_note()[0] != crate::quality::low_coverage_note()[0]);
    assert(crate::quality::few_buckets_note()[0] != crate::quality::few_sessions_note()[0]);
    assert(crate::quality::low_coverage_note()[0] != crate::quality::few_sessions_note()[0]);
}

/// A day's data is insufficient exactly with under an hour observed or
/// under 12 observed buckets; sufficient exactly with two hours observed,
/// 12 observed buckets, two completed sessions and at least 60% of the span
/// from the first to the last observed minute observed; partial otherwise.
/// Each limitation is listed exactly when its condition holds: under an
/// hour observed; under 12 observed buckets; with an hour observed, a
/// coverage under 60% (or no span); with an hour observed, under two
/// completed sessions.
pub proof fn sufficient_quality_needs_coverage(q: ReportDataQuality, state: TrackingState, date: Seq<char>)
    requires
        quality_matches(q, state, date),
    ensures
        ({
            let buckets = observed_bucket_count(day_buckets(state, date, FOCUS_BUCKET_MINUTES as int));
            let completed = sessions_on(state.sessions@, date);
            let o = q.observed_seconds as int;
            let s = q.observed_span_seconds as int;
            let l = q.limitations@.map_values(|t: String| t@);
            &&& (q.level == QualityLevel::Insufficient <==> (o < 3600 || buckets < 12))
            &&& (q.level == QualityLevel::Sufficient <==> (o >= 7200 && buckets >= 12 && completed >= 2 && s > 0 && 5
                * o >= 3 * s))
            &&& (o >= 7200 && buckets >= 12 && completed >= 2 && (s == 0 || 5 * o < 3 * s) ==> q.level
                == QualityLevel::Partial)
            &&& (l.contains("관측된 활동 시간이 60분 미만이어서 개인 비교를 만들지 않았습니다."@) <==> o < 3600)
            &&& (l.contains("5분 흐름 버킷이 충분하지 않아 시간대 비교의 신뢰도가 낮습니다."@) <==> buckets < 12)
            &&& (l.contains("첫 관측부터 마지막 관측까지의 시간 중 실제 관측 비율이 낮습니다."@) <==> (o >= 3600 && (s
                == 0 || 5 * o < 3 * s)))
            &&& (l.contains("완료된 세션이 2개 미만이어서 세션 구조 비교를 제한합니다."@) <==> (o >= 3600 && completed
                < 2))
            &&& l.len() == (if o < 3600 { 1int } else { 0int }) + (if buckets < 12 { 1int } else { 0int }) + (if o
                >= 3600 && (s == 0 || 5 * o < 3 * s) { 1int } else { 0int }) + (if o >= 3600 && completed < 2 {
                1int
            } else {
                0int
            })
        }),
        (forall|i: int| 0 <= i < state.flow_minutes.len() ==> #[trigger] observed_slot(state.flow_minutes@[i], date)
            is None) ==> q.observed_span_seconds == 0,
        (exists|i: int| 0 <= i < state.flow_minutes.len() && #[trigger] observed_slot(state.flow_minutes@[i], date)
            is Some) ==> exists|i: int, j: int|
            #![trigger observed_slot(state.flow_minutes@[i], date), observed_slot(state.flow_minutes@[j], date)]
            {
                let ms = state.flow_minutes@;
                &&& 0 <= i < ms.len() && 0 <= j < ms.len()
                &&& observed_slot(ms[i], date) is Some && observed_slot(ms[j], date) is Some
                &&& q.observed_span_seconds == (observed_slot(ms[j], date)->0 - observed_slot(ms[i], date)->0 + 1) * 60
                &&& forall|k: int|
                    0 <= k < ms.len() && (#[trigger] observed_slot(ms[k], date)) is Some ==> observed_slot(
                        ms[i],
                        date,
                    )->0 <= observed_slot(ms[k], date)->0 <= observed_slot(ms[j], date)->0
            },
{
    observed_span_is_first_to_last(state.flow_minutes@, date);
    broadcast use vstd::seq_lib::lemma_seq_contains_after_push;
    quality_notes_differ();
    let l = q.limitations@.map_values(|t: String| t@);
    let e = Seq::<Seq<char>>::empty();
    assert(!e.contains(crate::quality::short_observation_note()));
    assert(!e.contains(crate::quality::few_buckets_note()));
    assert(!e.contains(crate::quality::low_coverage_note()));
    assert(!e.contains(crate::quality::few_sessions_note()));
    assert(seq![crate::quality::short_observation_note()] =~= e.push(crate::quality::short_observation_note()));
}

/// The observed span runs from the earliest to the latest minute of the
/// day with observation: every observed minute of the day lies within it,
/// and both ends are observed minutes; without any there is no span.
pub proof fn observed_span_is_first_to_last(minutes: Seq<FlowMinute>, date: Seq<char>)
    ensures
        observed_slot_range(minutes, date) is None <==> forall|i: int|
            0 <= i < minutes.len() ==> #[trigger] observed_slot(minutes[i], date) is None,
        observed_slot_range(minutes, date) matches Some(r) ==> {
            &&& forall|i: int|
                0 <= i < minutes.len() ==> (#[trigger] observed_slot(minutes[i], date) matches Some(s) ==> r.0 <= s
                    <= r.1)
            &&& exists|i: int| 0 <= i < minutes.len() && #[trigger] observed_slot(minutes[i], date) == Some(r.0)
            &&& exists|j: int| 0 <= j < minutes.len() && #[trigger] observed_slot(minutes[j], date) == Some(r.1)
        },
    decreases minutes.len(),
{
    if minutes.len() > 0 {
        let prev = minutes.drop_last();
        observed_span_is_first_to_last(prev, date);
        let last = minutes.len() - 1;
        assert(forall|i: int| 0 <= i < prev.len() ==> #[trigger] prev[i] == minutes[i]);
        assert(minutes.last() == minutes[last]);
        match observed_slot_range(prev, date) {
            Some(r) => {
                let i0 = choose|i: int| 0 <= i < prev.len() && #[trigger] observed_slot(prev[i], date) == Some(r.0);
                let j0 = choose|j: int| 0 <= j < prev.len() && #[trigger] observed_slot(prev[j], date) == Some(r.1);
                assert(observed_slot(minutes[i0], date) == Some(r.0));
                assert(observed_slot(minutes[j0], date) == Some(r.1));
                assert forall|i: int| 0 <= i < minutes.len() implies (#[trigger] observed_slot(minutes[i], date) matches Some(
                    s,
                ) ==> observed_slot_range(minutes, date) matches Some(w) && w.0 <= s <= w.1) by {
                    if i < last {
                        assert(observed_slot(prev[i], date) == observed_slot(minutes[i], date));
                    }
                }
            },
            None => {
                assert forall|i: int| 0 <= i < minutes.len() implies (#[trigger] observed_slot(minutes[i], date) matches Some(
                    s,
                ) ==> observed_slot_range(minutes, date) matches Some(r) && r.0 <= s <= r.1) by {
                    if i < last {
                        assert(observed_slot(prev[i], date) == observed_slot(minutes[i], date));
                    }
                }
                if observed_slot_range(minutes, date) is None {
                    assert forall|i: int| 0 <= i < minutes.len() implies #[trigger] observed_slot(minutes[i], date) is None by {
                        if i < last {
                            assert(observed_slot(prev[i], date) == observed_slot(minutes[i], date));
                        }
                    }
                }
            },
        }
        if observed_slot_range(minutes, date) is None {
            assert(observed_slot(minutes[last], date) is None);
        }
    }
}

/// Under ten active minutes a session is brief; it is focused exactly from
/// 25 active minutes with fewer than 6 switches per active hour, whatever
/// its length; otherwise it is steady exactly from 15 active minutes with
/// fewer than 12 switches per active hour, and fragmented from 10 active
/// minutes without that; lengthening a focused session at the same switch
/// count keeps it focused.
pub proof fn session_status_follows_switch_rate(active: int, switches: int, longer: int)
    requires
        0 <= switches,
        0 <= active <= longer,
    ensures
        status_of(active, switches) == SessionStatus::Brief <==> active < 600,
        status_of(active, switches) == SessionStatus::Focused <==> (active >= 1500 && switches * 600 < active),
        status_of(active, switches) == SessionStatus::Steady <==> (active >= 900 && switches * 300 < active && !(
        active >= 1500 && switches * 600 < active)),
        status_of(active, switches) == SessionStatus::Fragmented <==> (active >= 600 && !(active >= 900 && switches
            * 300 < active)),
        status_of(active, switches) == SessionStatus::Focused ==> status_of(longer, switches)
            == SessionStatus::Focused,
{
}

proof fn cohort_positions_are_members<B>(
    reports: Seq<StoredReport<B>>,
    cohort: Cohort,
    date: Seq<char>,
    today: (i32, u32),
    tag: Option<Seq<char>>,
)
    requires
        reports.len() <= usize::MAX,
    ensures
        ({
            let ps = cohort_positions(reports, cohort, date, today, tag);
            &&& forall|k: int|
                0 <= k < ps.len() ==> 0 <= #[trigger] ps[k] < reports.len() && in_cohort(
                    reports[ps[k] as int],
                    cohort,
                    date,
                    today,
                    tag,
                )
            &&& forall|j: int, k: int| 0 <= j < k < ps.len() ==> #[trigger] ps[j] < #[trigger] ps[k]
        }),
    decreases reports.len(),
{
    if reports.len() > 0 {
        let prev = reports.drop_last();
        cohort_positions_are_members(prev, cohort, date, today, tag);
        let pp = cohort_positions(prev, cohort, date, today, tag);
        let ps = cohort_positions(reports, cohort, date, today, tag);
        let last = reports.len() - 1;
        assert forall|k: int| 0 <= k < pp.len() implies 0 <= #[trigger] pp[k] < last && in_cohort(
            reports[pp[k] as int],
            cohort,
            date,
            today,
            tag,
        ) by {
            assert(prev[pp[k] as int] == reports[pp[k] as int]);
        }
        if in_cohort(reports.last(), cohort, date, today, tag) {
            assert(ps == pp.push(last as usize));
            assert forall|k: int| 0 <= k < ps.len() implies 0 <= #[trigger] ps[k] < reports.len() && in_cohort(
                reports[ps[k] as int],
                cohort,
                date,
                today,
                tag,
            ) by {
                if k < pp.len() {
                    assert(ps[k] == pp[k]);
                }
            }
            assert forall|j: int, k: int| 0 <= j < k < ps.len() implies #[trigger] ps[j] < #[trigger] ps[k] by {
                if k < pp.len() {
                    assert(ps[j] == pp[j] && ps[k] == pp[k]);
                } else {
                    assert(ps[j] == pp[j]);
                }
            }
        } else {
            assert(ps == pp);
        }
    }
}

/// Every report a baseline is drawn from is finalized, of sufficient
/// quality and of another day 1 to 56 days before the compared day; the
/// positions are distinct and in archive order, and the sample count is
/// their number.
pub proof fn baseline_draws_on_sufficient_past_days<B>(
    b: BaselineSelection,
    reports: Seq<StoredReport<B>>,
    tag: Option<Seq<char>>,
    date: Seq<char>,
)
    requires
        baseline_matches(b, reports, tag, date),
        reports.len() <= usize::MAX,
    ensures
        forall|k: int|
            0 <= k < b.records.len() ==> {
                let p = #[trigger] b.records@[k] as int;
                &&& 0 <= p < reports.len()
                &&& reports[p].status@ == "finalized"@
                &&& reports[p].quality_level@ == "sufficient"@
                &&& reports[p].date@ != date
                &&& date_reading(date) matches Some(t) && date_reading(reports[p].date@) matches Some(d) && 1 <= t.0
                    - d.0 <= 56
            },
        forall|j: int, k: int| 0 <= j < k < b.records.len() ==> #[trigger] b.records@[j] < #[trigger] b.records@[k],
        b.descriptor.sample_count == cap(b.records.len() as int, u16::MAX as int),
{
    if let Some(t) = date_reading(date) {
        let cohort = crate::archive::chosen_cohort(reports, date, tag);
        cohort_positions_are_members(reports, cohort, date, t, tag);
        let ps = cohort_positions(reports, cohort, date, t, tag);
        assert forall|k: int| 0 <= k < b.records.len() implies is_candidate(
            reports[#[trigger] b.records@[k] as int],
            date,
            t,
        ) by {
            assert(in_cohort(reports[ps[k] as int], cohort, date, t, tag));
        }
    }
}

/// Report `r` belongs to `cohort` for the day `date` (day number and
/// weekday `today`) under the work mode `tag`: finalized, of sufficient
/// quality, of another day 1 to 56 days back, on the same weekday for the
/// weekday cohorts, and with the chosen work mode for the work-mode cohorts.
pub open spec fn baseline_member<B>(
    r: StoredReport<B>,
    cohort: Cohort,
    date: Seq<char>,
    today: (i32, u32),
    tag: Option<Seq<char>>,
) -> bool {
    &&& cohort != Cohort::Unavailable
    &&& r.status@ == "finalized"@
    &&& r.quality_level@ == "sufficient"@
    &&& r.date@ != date
    &&& date_reading(r.date@) matches Some(d) && 1 <= today.0 - d.0 <= 56 && ((cohort == Cohort::TagWeekday
        || cohort == Cohort::Weekday) ==> d.1 == today.1)
    &&& (cohort == Cohort::TagWeekday || cohort == Cohort::Tag) ==> (tag is Some && crate::sessions::text_option(
        r.work_mode_tag,
    ) == tag)
}

proof fn cohort_positions_are_complete<B>(
    reports: Seq<StoredReport<B>>,
    cohort: Cohort,
    date: Seq<char>,
    today: (i32, u32),
    tag: Option<Seq<char>>,
)
    requires
        reports.len() <= usize::MAX,
    ensures
        forall|p: int|
            0 <= p < reports.len() && #[trigger] in_cohort(reports[p], cohort, date, today, tag) ==> exists|k: int|
                0 <= k < cohort_positions(reports, cohort, date, today, tag).len() && cohort_positions(
                    reports,
                    cohort,
                    date,
                    today,
                    tag,
                )[k] == p,
    decreases reports.len(),
{
    if reports.len() > 0 {
        let prev = reports.drop_last();
        cohort_positions_are_complete(prev, cohort, date, today, tag);
        let pp = cohort_positions(prev, cohort, date, today, tag);
        let ps = cohort_positions(reports, cohort, date, today, tag);
        let last = reports.len() - 1;
        assert forall|p: int| 0 <= p < reports.len() && #[trigger] in_cohort(reports[p], cohort, date, today, tag) implies exists|k: int|
            0 <= k < ps.len() && ps[k] == p by {
            if p < last {
                assert(prev[p] == reports[p]);
                assert(in_cohort(prev[p], cohort, date, today, tag));
                let k = choose|k: int| 0 <= k < pp.len() && pp[k] == p;
                if in_cohort(reports.last(), cohort, date, today, tag) {
                    assert(ps == pp.push(last as usize));
                    assert(ps[k] == pp[k]);
                } else {
                    assert(ps == pp);
                }
            } else {
                assert(ps == pp.push(last as usize));
                assert(ps[pp.len() as int] == p);
            }
        }
    }
}

/// A baseline lists exactly the reports of its cohort: those the cohort's
/// rules admit (see `baseline_member`), no others. Its cohort is the first
/// with enough reports: at least 8 for the work mode and weekday, 10 for
/// the work mode, 10 for the weekday, 14 for all days; none means no
/// reports.
pub proof fn baseline_lists_its_whole_cohort<B>(
    b: BaselineSelection,
    reports: Seq<StoredReport<B>>,
    tag: Option<Seq<char>>,
    date: Seq<char>,
)
    requires
        baseline_matches(b, reports, tag, date),
        reports.len() <= usize::MAX,
    ensures
        date_reading(date) matches Some(t) ==> forall|p: int|
            0 <= p < reports.len() ==> (baseline_member(reports[p], b.descriptor.cohort, date, t, tag) <==> exists|
                k: int,
            |
                0 <= k < b.records.len() && #[trigger] b.records@[k] == p),
        b.descriptor.cohort == Cohort::TagWeekday ==> b.records.len() >= 8,
        b.descriptor.cohort == Cohort::Tag ==> b.records.len() >= 10,
        b.descriptor.cohort == Cohort::Weekday ==> b.records.len() >= 10,
        b.descriptor.cohort == Cohort::AllDays ==> b.records.len() >= 14,
        b.descriptor.cohort == Cohort::Unavailable ==> b.records.len() == 0,
{
    let cohort = b.descriptor.cohort;
    match date_reading(date) {
        Some(t) => {
            cohort_positions_are_members(reports, cohort, date, t, tag);
            cohort_positions_are_complete(reports, cohort, date, t, tag);
            let ps = cohort_positions(reports, cohort, date, t, tag);
            assert forall|p: int| 0 <= p < reports.len() implies (baseline_member(reports[p], cohort, date, t, tag)
                <==> exists|k: int| 0 <= k < b.records.len() && #[trigger] b.records@[k] == p) by {
                assert(baseline_member(reports[p], cohort, date, t, tag) == in_cohort(reports[p], cohort, date, t, tag));
                if exists|k: int| 0 <= k < b.records.len() && #[trigger] b.records@[k] == p {
                    let k = choose|k: int| 0 <= k < b.records.len() && #[trigger] b.records@[k] == p;
                    assert(ps[k] == p);
                }
            }
            if cohort == Cohort::Unavailable {
                lemma_unavailable_positions(reports, date, t, tag);
            }
        },
        None => {},
    }
}

/// How many reports `baseline_member` admits to `cohort`.
pub open spec fn member_count<B>(
    reports: Seq<StoredReport<B>>,
    cohort: Cohort,
    date: Seq<char>,
    today: (i32, u32),
    tag: Option<Seq<char>>,
) -> int
    decreases reports.len(),
{
    if reports.len() == 0 {
        0
    } else {
        member_count(reports.drop_last(), cohort, date, today, tag) + if baseline_member(
            reports.last(),
            cohort,
            date,
            today,
            tag,
        ) {
            1int
        } else {
            0int
        }
    }
}

proof fn member_count_is_cohort_size<B>(
    reports: Seq<StoredReport<B>>,
    cohort: Cohort,
    date: Seq<char>,
    today: (i32, u32),
    tag: Option<Seq<char>>,
)
    ensures
        cohort_positions(reports, cohort, date, today, tag).len() == member_count(reports, cohort, date, today, tag),
    decreases reports.len(),
{
    if reports.len() > 0 {
        member_count_is_cohort_size(reports.drop_last(), cohort, date, today, tag);
        assert(baseline_member(reports.last(), cohort, date, today, tag) == in_cohort(
            reports.last(),
            cohort,
            date,
            today,
            tag,
        ));
    }
}

/// The cohort a baseline is drawn from is the narrowest with enough
/// reports: the work mode and weekday with at least 8, else the work mode
/// with at least 10, else the weekday with at least 10, else all days with
/// at least 14, else none; it lists every report of that cohort. A day
/// that is not a date has no baseline.
pub proof fn baseline_picks_the_narrowest_cohort<B>(
    b: BaselineSelection,
    reports: Seq<StoredReport<B>>,
    tag: Option<Seq<char>>,
    date: Seq<char>,
)
    requires
        baseline_matches(b, reports, tag, date),
    ensures
        date_reading(date) is None ==> b.descriptor.cohort == Cohort::Unavailable && b.records.len() == 0,
        date_reading(date) matches Some(t) ==> {
            let tw = member_count(reports, Cohort::TagWeekday, date, t, tag);
            let tg = member_count(reports, Cohort::Tag, date, t, tag);
            let wd = member_count(reports, Cohort::Weekday, date, t, tag);
            let all = member_count(reports, Cohort::AllDays, date, t, tag);
            &&& b.descriptor.cohort == if tw >= 8 {
                Cohort::TagWeekday
            } else if tg >= 10 {
                Cohort::Tag
            } else if wd >= 10 {
                Cohort::Weekday
            } else if all >= 14 {
                Cohort::AllDays
            } else {
                Cohort::Unavailable
            }
            &&& b.records.len() == member_count(reports, b.descriptor.cohort, date, t, tag)
        },
{
    if let Some(t) = date_reading(date) {
        member_count_is_cohort_size(reports, Cohort::TagWeekday, date, t, tag);
        member_count_is_cohort_size(reports, Cohort::Tag, date, t, tag);
        member_count_is_cohort_size(reports, Cohort::Weekday, date, t, tag);
        member_count_is_cohort_size(reports, Cohort::AllDays, date, t, tag);
        member_count_is_cohort_size(reports, Cohort::Unavailable, date, t, tag);
    }
}

proof fn lemma_unavailable_positions<B>(
    reports: Seq<StoredReport<B>>,
    date: Seq<char>,
    today: (i32, u32),
    tag: Option<Seq<char>>,
)
    ensures
        cohort_positions(reports, Cohort::Unavailable, date, today, tag).len() == 0,
    decreases reports.len(),
{
    if reports.len() > 0 {
        lemma_unavailable_positions(reports.drop_last(), date, today, tag);
    }
}

/// Every recorded second is observed, idle or focused: the minute's
/// observed seconds go up by one (held at `u16::MAX`), exactly one of its
/// idle and focus seconds goes up, so a minute whose observed seconds are
/// its idle plus its focus seconds stays so; nothing else in it changes.
pub proof fn every_recorded_second_is_observed(m: FlowMinute, idle: bool)
    ensures
        ({
            let n = observed_second(m, idle);
            &&& n.observed_seconds == if m.observed_seconds < u16::MAX {
                m.observed_seconds + 1
            } else {
                u16::MAX as int
            }
            &&& n.idle_seconds >= m.idle_seconds && n.focus_seconds >= m.focus_seconds
            &&& (idle ==> n.focus_seconds == m.focus_seconds)
            &&& (!idle ==> n.idle_seconds == m.idle_seconds)
            &&& (m.idle_seconds < u16::MAX && m.focus_seconds < u16::MAX ==> n.idle_seconds + n.focus_seconds
                == m.idle_seconds + m.focus_seconds + 1)
            &&& (m.observed_seconds == m.idle_seconds + m.focus_seconds && m.observed_seconds < u16::MAX
                ==> n.observed_seconds == n.idle_seconds + n.focus_seconds)
            &&& n.start_at == m.start_at && n.switch_count == m.switch_count
            &&& n.keyboard_actions == m.keyboard_actions && n.mouse_actions == m.mouse_actions
            &&& n.mouse_distance_px_bits == m.mouse_distance_px_bits
        }),
{
}

/// A minute after a resume counts as focused exactly when it was found,
/// observed for at least 30 seconds, at least 75% focused, with at most one
/// switch.
pub proof fn focused_minute_is_well_observed(m: Option<FlowMinute>)
    ensures
        minute_is_focused(m) <==> (m matches Some(x) && x.observed_seconds >= 30 && 4 * x.focus_seconds >= 3
            * x.observed_seconds && x.switch_count <= 1),
{
}

/// The flow minute `m` starts on `date` at minute `slot` of the day.
pub open spec fn lies_at(m: FlowMinute, date: Seq<char>, slot: int) -> bool {
    crate::text::has_prefix(m.start_at@, date) && crate::clock::minute_of_day_of(m.start_at@) == Some(slot)
}

/// The minute found for a minute of the day is the last flow minute of that
/// day and minute in the list; none is found when the list has none.
pub proof fn minute_lookup_finds_the_last_match(minutes: Seq<FlowMinute>, date: Seq<char>, slot: int)
    ensures
        minute_at(minutes, date, slot) is None <==> forall|i: int|
            0 <= i < minutes.len() ==> !#[trigger] lies_at(minutes[i], date, slot),
        minute_at(minutes, date, slot) matches Some(x) ==> exists|i: int|
            0 <= i < minutes.len() && minutes[i] == x && #[trigger] lies_at(minutes[i], date, slot) && forall|j: int|
                i < j < minutes.len() ==> !#[trigger] lies_at(minutes[j], date, slot),
    decreases minutes.len(),
{
    if minutes.len() > 0 {
        let prev = minutes.drop_last();
        minute_lookup_finds_the_last_match(prev, date, slot);
        let last = minutes.len() - 1;
        assert(forall|i: int| 0 <= i < prev.len() ==> #[trigger] prev[i] == minutes[i]);
        assert(minutes.last() == minutes[last]);
        if lies_at(minutes[last], date, slot) {
            assert(minute_at(minutes, date, slot) == Some(minutes[last]));
            assert(lies_at(minutes[last], date, slot));
        } else {
            assert(minute_at(minutes, date, slot) == minute_at(prev, date, slot));
            assert forall|i: int| 0 <= i < minutes.len() && #[trigger] lies_at(minutes[i], date, slot) implies i < last
                && lies_at(prev[i], date, slot) by {}
            if let Some(x) = minute_at(prev, date, slot) {
                let i0 = choose|i: int|
                    0 <= i < prev.len() && prev[i] == x && #[trigger] lies_at(prev[i], date, slot) && forall|j: int|
                        i < j < prev.len() ==> !#[trigger] lies_at(prev[j], date, slot);
                assert(lies_at(minutes[i0], date, slot));
                assert forall|j: int| i0 < j < minutes.len() implies !#[trigger] lies_at(minutes[j], date, slot) by {
                    if j < last {
                        assert(!lies_at(prev[j], date, slot));
                    }
                }
            }
        }
    }
}

/// The focus seconds of the flow minutes found at the first `n` minutes
/// from `start` on `date`.
pub open spec fn window_focus(minutes: Seq<FlowMinute>, date: Seq<char>, start: int, n: int) -> int
    decreases n,
{
    if n <= 0 {
        0
    } else {
        window_focus(minutes, date, start, n - 1) + match minute_at(minutes, date, start + n - 1) {
            Some(x) => x.focus_seconds as int,
            None => 0,
        }
    }
}

/// The switches of the flow minutes found at the first `n` minutes from
/// `start` on `date`.
pub open spec fn window_switches(minutes: Seq<FlowMinute>, date: Seq<char>, start: int, n: int) -> int
    decreases n,
{
    if n <= 0 {
        0
    } else {
        window_switches(minutes, date, start, n - 1) + match minute_at(minutes, date, start + n - 1) {
            Some(x) => x.switch_count as int,
            None => 0,
        }
    }
}

/// Over the first `n` minutes after a resume, the focused seconds of a
/// re-entry are the minutes' focus seconds summed, and its switches their
/// switches summed, each held at `u16::MAX`: idle seconds never count.
pub proof fn reentry_window_sums_focus(minutes: Seq<FlowMinute>, date: Seq<char>, start: int, n: int)
    ensures
        reentry_scan(minutes, date, start, n).0 == cap(window_focus(minutes, date, start, n), u16::MAX as int),
        reentry_scan(minutes, date, start, n).1 == cap(window_switches(minutes, date, start, n), u16::MAX as int),
        window_focus(minutes, date, start, n) >= 0,
        window_switches(minutes, date, start, n) >= 0,
    decreases n,
{
    if n > 0 {
        reentry_window_sums_focus(minutes, date, start, n - 1);
    }
}

} // verus!
