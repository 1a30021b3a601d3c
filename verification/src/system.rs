//! What the tracker reads from the system, once read: network totals, disk
//! usage, executable names, and the storage location.
use vstd::prelude::*;
use crate::laws::sound_state;
use crate::flow::cap;
use crate::records::DiskUsageSnapshot;
use crate::state::TrackingState;
use crate::text::{chars_of, owned, push_two_digits, text_equals, two_digits};

verus! {

broadcast use vstd::string::group_string_axioms;

/// The most disk snapshots kept.
pub const MAX_DISK_SNAPSHOTS: usize = 51840;

/// The width of a disk snapshot bucket, in seconds.
pub const DISK_SNAPSHOT_INTERVAL_SECS: u32 = 1800;

pub open spec fn octet_sum(rows: Seq<(u64, u64)>, sent: bool) -> int
    decreases rows.len(),
{
    if rows.len() == 0 {
        0
    } else {
        octet_sum(rows.drop_last(), sent) + if sent {
            rows.last().1 as int
        } else {
            rows.last().0 as int
        }
    }
}

proof fn lemma_octet_sum_nonnegative(rows: Seq<(u64, u64)>, sent: bool)
    ensures
        octet_sum(rows, sent) >= 0,
    decreases rows.len(),
{
    if rows.len() > 0 {
        lemma_octet_sum_nonnegative(rows.drop_last(), sent);
    }
}

/// The bytes received and sent over all network interfaces, given each
/// interface's received and sent octets; each total held at `u64::MAX`.
pub fn network_totals(rows: &Vec<(u64, u64)>) -> (r: (u64, u64))
    ensures
        r.0 == cap(octet_sum(rows@, false), u64::MAX as int),
        r.1 == cap(octet_sum(rows@, true), u64::MAX as int),
{
    let mut received: u64 = 0;
    let mut sent: u64 = 0;
    let mut i: usize = 0;
    while i < rows.len()
        invariant
            i <= rows.len(),
            received == cap(octet_sum(rows@.take(i as int), false), u64::MAX as int),
            sent == cap(octet_sum(rows@.take(i as int), true), u64::MAX as int),
        decreases rows.len() - i,
    {
        proof {
            assert(rows@.take(i + 1).drop_last() =~= rows@.take(i as int));
            lemma_octet_sum_nonnegative(rows@.take(i as int), false);
            lemma_octet_sum_nonnegative(rows@.take(i as int), true);
        }
        received = received.saturating_add(rows[i].0);
        sent = sent.saturating_add(rows[i].1);
        i = i + 1;
    }
    proof {
        assert(rows@.take(rows.len() as int) =~= rows@);
    }
    (received, sent)
}

/// The drive root texts in the first `written` units of a buffer of
/// nul-separated UTF-16 strings: the non-empty runs between nul units.
pub open spec fn drive_runs(units: Seq<u16>) -> Seq<Seq<u16>>
    decreases units.len(),
{
    if units.len() == 0 {
        seq![]
    } else {
        let prev = drive_runs(units.drop_last());
        let u = units.last();
        if u == 0 {
            prev
        } else if units.len() >= 2 && units[units.len() - 2] != 0 && prev.len() > 0 {
            prev.drop_last().push(prev.last().push(u))
        } else {
            prev.push(seq![u])
        }
    }
}

/// The drive roots listed in `buffer` (of which `written` units were
/// written); none when nothing was written or the buffer was too small.
pub fn drive_roots(buffer: &Vec<u16>, written: usize) -> (r: Vec<Vec<u16>>)
    ensures
        written == 0 || written >= buffer.len() ==> r.len() == 0,
        !(written == 0 || written >= buffer.len()) ==> r@.map_values(|v: Vec<u16>| v@) == drive_runs(
            buffer@.take(written as int),
        ),
{
    let mut out: Vec<Vec<u16>> = Vec::new();
    if written == 0 || written >= buffer.len() {
        return out;
    }
    let mut current: Vec<u16> = Vec::new();
    let mut i: usize = 0;
    while i < written
        invariant
            written < buffer.len(),
            i <= written,
            current.len() > 0 ==> i > 0 && buffer@[i - 1] != 0,
            i > 0 && buffer@[i - 1] != 0 ==> current.len() > 0,
            ({
                let runs = drive_runs(buffer@.take(i as int));
                if current.len() > 0 {
                    runs.len() > 0 && out@.map_values(|v: Vec<u16>| v@) == runs.drop_last()
                        && current@ == runs.last()
                } else {
                    out@.map_values(|v: Vec<u16>| v@) == runs
                }
            }),
        decreases written - i,
    {
        let ghost pre = buffer@.take(i as int);
        let ghost next = buffer@.take(i + 1);
        proof {
            assert(next.drop_last() =~= pre);
            assert(next.last() == buffer@[i as int]);
            if i >= 1 {
                assert(next[next.len() - 2] == buffer@[i - 1]);
            }
        }
        let u = buffer[i];
        if u == 0 {
            if current.len() > 0 {
                let ghost before = out@;
                let finished = current;
                current = Vec::new();
                out.push(finished);
                proof {
                    let runs = drive_runs(pre);
                    assert(out@.map_values(|v: Vec<u16>| v@) =~= before.map_values(|v: Vec<u16>| v@).push(finished@));
                    assert(runs =~= runs.drop_last().push(runs.last()));
                }
            }
        } else {
            let ghost before = current@;
            current.push(u);
            proof {
                let runs = drive_runs(pre);
                if before.len() > 0 {
                    assert(runs.drop_last().push(runs.last().push(u)).drop_last() =~= runs.drop_last());
                } else {
                    assert(current@ =~= seq![u]);
                }
            }
        }
        i = i + 1;
    }
    if current.len() > 0 {
        let ghost before = out@;
        out.push(current);
        proof {
            let runs = drive_runs(buffer@.take(written as int));
            assert(runs =~= runs.drop_last().push(runs.last()));
        }
    }
    out
}

/// What a drive reported: its root, and, when the query succeeded, its total
/// and free bytes.
pub struct DriveProbe {
    pub drive: String,
    pub space: Option<(u64, u64)>,
}

/// The snapshots of the drives that answered with a non-zero total.
pub open spec fn disk_snapshots_of(probes: Seq<DriveProbe>) -> Seq<DriveProbe>
    decreases probes.len(),
{
    if probes.len() == 0 {
        seq![]
    } else {
        let prev = disk_snapshots_of(probes.drop_last());
        match probes.last().space {
            Some(s) => if s.0 != 0 {
                prev.push(probes.last())
            } else {
                prev
            },
            None => prev,
        }
    }
}

/// The snapshot of a drive at `at`: its used bytes are its total less its
/// free bytes (0 where free exceeds total).
pub open spec fn snapshot_matches(s: DiskUsageSnapshot, probe: DriveProbe, at: Seq<char>) -> bool {
    let space = probe.space->0;
    &&& s.at@ == at
    &&& s.drive == probe.drive
    &&& s.total_bytes == space.0
    &&& s.free_bytes == space.1
    &&& s.used_bytes == if space.1 > space.0 {
        0
    } else {
        space.0 - space.1
    }
}

/// The usage snapshots, taken at `at`, of the drives that answered with a
/// non-zero total, in the order of the probes.
pub fn mounted_disk_usage(at: &str, probes: &Vec<DriveProbe>) -> (r: Vec<DiskUsageSnapshot>)
    ensures
        r.len() == disk_snapshots_of(probes@).len(),
        forall|k: int|
            0 <= k < r.len() ==> snapshot_matches(#[trigger] r@[k], disk_snapshots_of(probes@)[k], at@),
{
    let mut out: Vec<DiskUsageSnapshot> = Vec::new();
    let mut i: usize = 0;
    while i < probes.len()
        invariant
            i <= probes.len(),
            out.len() == disk_snapshots_of(probes@.take(i as int)).len(),
            forall|k: int|
                0 <= k < out.len() ==> snapshot_matches(
                    #[trigger] out@[k],
                    disk_snapshots_of(probes@.take(i as int))[k],
                    at@,
                ),
        decreases probes.len() - i,
    {
        proof {
            assert(probes@.take(i + 1).drop_last() =~= probes@.take(i as int));
            assert(probes@.take(i + 1).last() == probes@[i as int]);
        }
        let p = &probes[i];
        match p.space {
            Some((total, free)) => {
                if total != 0 {
                    out.push(
                        DiskUsageSnapshot {
                            at: owned(at),
                            drive: p.drive.clone(),
                            total_bytes: total,
                            free_bytes: free,
                            used_bytes: if free > total {
                                0
                            } else {
                                total - free
                            },
                        },
                    );
                }
            },
            None => {},
        }
        i = i + 1;
    }
    proof {
        assert(probes@.take(probes.len() as int) =~= probes@);
    }
    out
}

/// The snapshots of the bucket `at` that a new set of snapshots replaces.
pub open spec fn without_bucket(snapshots: Seq<DiskUsageSnapshot>, at: Seq<char>) -> Seq<DiskUsageSnapshot>
    decreases snapshots.len(),
{
    if snapshots.len() == 0 {
        seq![]
    } else {
        let prev = without_bucket(snapshots.drop_last(), at);
        if snapshots.last().at@ == at {
            prev
        } else {
            prev.push(snapshots.last())
        }
    }
}

/// The last `MAX_DISK_SNAPSHOTS` snapshots.
pub open spec fn latest_snapshots(all: Seq<DiskUsageSnapshot>) -> Seq<DiskUsageSnapshot> {
    if all.len() > MAX_DISK_SNAPSHOTS {
        all.skip(all.len() - MAX_DISK_SNAPSHOTS)
    } else {
        all
    }
}

/// The snapshots after filing `snapshots` for the bucket `at`: they replace
/// any earlier ones of that bucket, and beyond `MAX_DISK_SNAPSHOTS` the
/// oldest are dropped; without new snapshots nothing changes.
pub open spec fn filed_snapshots(
    before: Seq<DiskUsageSnapshot>,
    at: Seq<char>,
    snapshots: Seq<DiskUsageSnapshot>,
) -> Seq<DiskUsageSnapshot> {
    if snapshots.len() == 0 {
        before
    } else {
        latest_snapshots(without_bucket(before, at) + snapshots)
    }
}

/// Files the snapshots of the bucket `at`: they replace any earlier ones of
/// that bucket; beyond `MAX_DISK_SNAPSHOTS` the oldest are dropped. Without
/// new snapshots nothing changes.
pub fn record_disk_snapshots(state: &mut TrackingState, at: &str, snapshots: Vec<DiskUsageSnapshot>)
    ensures
        snapshots.len() == 0 ==> *final(state) == *old(state),
        final(state).disk_snapshots@ == filed_snapshots(old(state).disk_snapshots@, at@, snapshots@),
        snapshots.len() > 0 || old(state).disk_snapshots.len() <= MAX_DISK_SNAPSHOTS
            ==> final(state).disk_snapshots.len() <= MAX_DISK_SNAPSHOTS,
        *final(state) == (TrackingState { disk_snapshots: final(state).disk_snapshots, ..*old(state) }),
        sound_state(*old(state)) ==> sound_state(*final(state)),
{
    if snapshots.len() == 0 {
        return;
    }
    let mut kept: Vec<DiskUsageSnapshot> = Vec::new();
    let mut i: usize = 0;
    while i < state.disk_snapshots.len()
        invariant
            i <= state.disk_snapshots.len(),
            *state == *old(state),
            kept@ == without_bucket(state.disk_snapshots@.take(i as int), at@),
        decreases state.disk_snapshots.len() - i,
    {
        proof {
            assert(state.disk_snapshots@.take(i + 1).drop_last() =~= state.disk_snapshots@.take(
                i as int,
            ));
        }
        let s = &state.disk_snapshots[i];
        if !text_equals(s.at.as_str(), at) {
            kept.push(
                DiskUsageSnapshot {
                    at: s.at.clone(),
                    drive: s.drive.clone(),
                    total_bytes: s.total_bytes,
                    free_bytes: s.free_bytes,
                    used_bytes: s.used_bytes,
                },
            );
        }
        i = i + 1;
    }
    proof {
        assert(state.disk_snapshots@.take(state.disk_snapshots.len() as int) =~= state.disk_snapshots@);
    }
    let ghost all = kept@ + snapshots@;
    let mut fresh = snapshots;
    kept.append(&mut fresh);
    proof {
        assert(kept@ =~= all);
    }
    if kept.len() > MAX_DISK_SNAPSHOTS {
        let overflow = kept.len() - MAX_DISK_SNAPSHOTS;
        let mut trimmed: Vec<DiskUsageSnapshot> = Vec::new();
        let mut j: usize = 0;
        let mut rest = kept;
        while j < overflow
            invariant
                j <= overflow,
                overflow < all.len(),
                rest@ == all.skip(j as int),
            decreases overflow - j,
        {
            rest.remove(0);
            proof {
                assert(all.skip(j as int).drop_first() =~= all.skip(j + 1));
            }
            j = j + 1;
        }
        state.disk_snapshots = rest;
    } else {
        state.disk_snapshots = kept;
    }
}

/// The half-hour bucket of a time: the minute at which its bucket begins.
pub open spec fn bucket_minute(minute: int, second: int) -> int {
    ((minute * 60 + second) / 1800 * 1800) / 60
}

/// The key of the disk snapshot bucket of a local time: its date, its hour,
/// the minute at which its half hour begins, and its UTC offset
/// (`YYYY-MM-DDTHH:MM:00+HH:MM`).
pub open spec fn disk_key_text(date: Seq<char>, hour: nat, minute: nat, second: nat, offset: Seq<char>) -> Seq<char> {
    date + "T"@ + two_digits(hour) + ":"@ + two_digits(bucket_minute(minute as int, second as int) as nat)
        + ":00"@ + offset
}

/// The disk snapshot bucket of the local time given by its date text,
/// hour, minute and second and its UTC offset text.
pub fn disk_bucket_key(date: &str, hour: u32, minute: u32, second: u32, offset: &str) -> (r: String)
    requires
        hour < 24,
        minute < 60,
        second < 61,
    ensures
        r@ == disk_key_text(date@, hour as nat, minute as nat, second as nat, offset@),
{
    let elapsed = minute * 60 + second;
    let start = elapsed / DISK_SNAPSHOT_INTERVAL_SECS * DISK_SNAPSHOT_INTERVAL_SECS;
    let bucket = start / 60;
    let mut out = owned(date);
    out.append("T");
    push_two_digits(&mut out, hour as usize);
    out.append(":");
    push_two_digits(&mut out, bucket as usize);
    out.append(":00");
    out.append(offset);
    out
}

/// The executable's file name: the last part of its path after `\\` or
/// `/`; none when the path ends in a separator (or is empty).
pub open spec fn last_path_part(path: Seq<char>) -> Seq<char>
    decreases path.len(),
{
    if path.len() == 0 {
        seq![]
    } else if path.last() == '\\' || path.last() == '/' {
        seq![]
    } else {
        last_path_part(path.drop_last()).push(path.last())
    }
}

/// The executable's file name in its full path; `None` when that name is
/// empty.
pub fn executable_file_name(path: &str) -> (r: Option<String>)
    ensures
        last_path_part(path@).len() == 0 ==> r is None,
        last_path_part(path@).len() > 0 ==> (r matches Some(name) && name@ == last_path_part(path@)),
{
    let chars = chars_of(path);
    let mut start: usize = chars.len();
    proof {
        assert(path@.take(start as int) =~= path@);
        assert(path@.skip(start as int) =~= Seq::<char>::empty());
        assert(last_path_part(path@) + Seq::<char>::empty() =~= last_path_part(path@));
    }
    while start > 0 && chars[start - 1] != '\\' && chars[start - 1] != '/'
        invariant
            start <= chars.len(),
            chars@ == path@,
            last_path_part(path@) == last_path_part(path@.take(start as int)) + path@.skip(
                start as int,
            ),
        decreases start,
    {
        proof {
            let t = path@.take(start as int);
            assert(t.drop_last() =~= path@.take(start - 1));
            assert(path@.skip(start - 1) =~= seq![path@[start - 1]] + path@.skip(start as int));
            assert(last_path_part(t) == last_path_part(path@.take(start - 1)).push(path@[start - 1]));
            assert(last_path_part(path@.take(start - 1)).push(path@[start - 1]) + path@.skip(start as int)
                =~= last_path_part(path@.take(start - 1)) + path@.skip(start - 1));
        }
        start = start - 1;
    }
    if start == chars.len() {
        proof {
            assert(path@.skip(start as int).len() == 0);
            if start > 0 {
                assert(last_path_part(path@.take(start as int)).len() == 0);
            }
            assert(last_path_part(path@) =~= last_path_part(path@.take(start as int)));
        }
        return None;
    }
    proof {
        if start > 0 {
            assert(last_path_part(path@.take(start as int)).len() == 0);
        } else {
            assert(path@.take(0).len() == 0);
        }
        assert(last_path_part(path@) =~= path@.skip(start as int));
    }
    Some(owned(path.substring_char(start, chars.len())))
}

/// The storage location, when the lock that guards it could be taken;
/// otherwise the error `storage path unavailable`.
pub fn storage_path(locked: Option<&String>) -> (r: Result<String, String>)
    ensures
        match locked {
            Some(p) => r == Ok::<String, String>(*p),
            None => r matches Err(e) && e@ == "storage path unavailable"@,
        },
{
    match locked {
        Some(p) => Ok(p.clone()),
        None => Err(owned("storage path unavailable")),
    }
}

} // verus!
