//! Job lifecycle tracking and telemetry storage.
//!
//! The tracker is an event log, not an enforcing automaton: ground stations
//! may report statuses out of order or more than once, so any status may be
//! appended at any time.  Per job, updates are kept in non-decreasing
//! timestamp order, an update never overtaking a later-stamped one it
//! arrives after; the *current* status of a job is the status of the update
//! with the greatest timestamp, the last one recorded among equals.
//! Telemetry records are stored append-only.

use vstd::prelude::*;
use crate::entities::{Job, JobStatus, JobStatusUpdate, TelemetryRecord};

verus! {

/// Why the tracker refused an operation.
#[derive(Clone, Copy, Debug, PartialEq, Eq, Structural)]
pub enum TrackerError {
    /// The referenced job id does not correspond to an existing job.
    UnknownJob,
    /// A job with this id already exists.
    DuplicateJob,
}

/// Updates stand in non-decreasing timestamp order.
pub open spec fn spec_sorted_by_time(s: Seq<JobStatusUpdate>) -> bool {
    forall|i: int, j: int| 0 <= i < j < s.len() ==> s[i].timestamp <= s[j].timestamp
}

/// Where a new update with timestamp `ts` lands: after every update stamped
/// at or before `ts`, in front of the first one stamped later.
pub open spec fn spec_insert_pos(s: Seq<JobStatusUpdate>, ts: i64) -> int
    decreases s.len(),
{
    if s.len() == 0 {
        0
    } else if s[0].timestamp <= ts {
        1 + spec_insert_pos(s.drop_first(), ts)
    } else {
        0
    }
}

/// The log after recording `u`: `u` is inserted at its position, staying
/// behind every update already stamped at or before it.
pub open spec fn spec_insert_sorted(s: Seq<JobStatusUpdate>, u: JobStatusUpdate) -> Seq<
    JobStatusUpdate,
> {
    s.insert(spec_insert_pos(s, u.timestamp), u)
}

/// The current status a history stands for: that of its latest update, or
/// nothing when nothing has been reported yet.
pub open spec fn spec_current_status(h: Seq<JobStatusUpdate>) -> Option<JobStatus> {
    if h.len() == 0 {
        None
    } else {
        Some(h.last().status)
    }
}

pub proof fn lemma_insert_pos_bounds(s: Seq<JobStatusUpdate>, ts: i64)
    ensures
        0 <= spec_insert_pos(s, ts) <= s.len(),
        forall|i: int| 0 <= i < spec_insert_pos(s, ts) ==> s[i].timestamp <= ts,
        spec_insert_pos(s, ts) < s.len() ==> s[spec_insert_pos(s, ts)].timestamp > ts,
    decreases s.len(),
{
    if s.len() == 0 {
    } else if s[0].timestamp <= ts {
        lemma_insert_pos_bounds(s.drop_first(), ts);
        assert forall|i: int| 0 <= i < spec_insert_pos(s, ts) implies s[i].timestamp <= ts by {
            if i > 0 {
                assert(s.drop_first()[i - 1] == s[i]);
            }
        }
        if spec_insert_pos(s, ts) < s.len() {
            assert(s.drop_first()[spec_insert_pos(s, ts) - 1] == s[spec_insert_pos(s, ts)]);
        }
    } else {
    }
}

proof fn lemma_insert_pos_of(s: Seq<JobStatusUpdate>, ts: i64, k: int)
    requires
        0 <= k <= s.len(),
        forall|i: int| 0 <= i < k ==> s[i].timestamp <= ts,
        k < s.len() ==> s[k].timestamp > ts,
    ensures
        spec_insert_pos(s, ts) == k,
    decreases s.len(),
{
    if s.len() == 0 {
    } else if k == 0 {
    } else {
        assert(s[0].timestamp <= ts);
        let rest = s.drop_first();
        assert forall|i: int| 0 <= i < k - 1 implies rest[i].timestamp <= ts by {
            assert(rest[i] == s[i + 1]);
        }
        if k - 1 < rest.len() {
            assert(rest[k - 1] == s[k]);
        }
        lemma_insert_pos_of(rest, ts, k - 1);
    }
}

/// Recording keeps the log sorted and grows it by exactly one.
pub proof fn lemma_insert_sorted_keeps_order(s: Seq<JobStatusUpdate>, u: JobStatusUpdate)
    requires
        spec_sorted_by_time(s),
    ensures
        spec_sorted_by_time(spec_insert_sorted(s, u)),
        spec_insert_sorted(s, u).len() == s.len() + 1,
{
    lemma_insert_pos_bounds(s, u.timestamp);
    let p = spec_insert_pos(s, u.timestamp);
    let t = spec_insert_sorted(s, u);
    assert(t =~= s.take(p) + seq![u] + s.skip(p));
    assert forall|i: int, j: int| 0 <= i < j < t.len() implies t[i].timestamp <= t[j].timestamp by {
        assert(forall|m: int| 0 <= m < p ==> t[m] == s[m]);
        assert(t[p] == u);
        assert(forall|m: int| p < m < t.len() ==> t[m] == s[m - 1]);
        if j < p {
            // both in the unmoved prefix
        } else if i > p {
            // both in the shifted suffix
        } else if i < p && j == p {
            assert(s[i].timestamp <= u.timestamp);
        } else if i == p && j > p {
            // s[j - 1] is at or past position p in s
            assert(s[p].timestamp > u.timestamp);
            assert(s[p].timestamp <= s[j - 1].timestamp);
        } else if i < p && j > p {
            assert(s[i].timestamp <= s[j - 1].timestamp);
        }
    }
}

/// A sorted history's last update carries its greatest timestamp, so the
/// current status really is the one reported latest.
pub proof fn lemma_current_is_latest(h: Seq<JobStatusUpdate>)
    requires
        spec_sorted_by_time(h),
        h.len() > 0,
    ensures
        forall|i: int| 0 <= i < h.len() ==> h[i].timestamp <= h.last().timestamp,
{
}

/// A job with no prior updates has no current status.  Recording `u1` and
/// then a strictly later `u2` leaves exactly the history `[u1, u2]`, and the
/// later update's status wins as the current one.
pub proof fn lemma_latest_wins(u1: JobStatusUpdate, u2: JobStatusUpdate)
    requires
        u1.timestamp < u2.timestamp,
    ensures
        spec_current_status(Seq::<JobStatusUpdate>::empty()) is None,
        spec_insert_sorted(spec_insert_sorted(Seq::<JobStatusUpdate>::empty(), u1), u2) == seq![
            u1,
            u2,
        ],
        spec_current_status(
            spec_insert_sorted(spec_insert_sorted(Seq::<JobStatusUpdate>::empty(), u1), u2),
        ) == Some(u2.status),
{
    let h1 = spec_insert_sorted(Seq::<JobStatusUpdate>::empty(), u1);
    assert(spec_insert_pos(Seq::<JobStatusUpdate>::empty(), u1.timestamp) == 0);
    assert(h1 =~= seq![u1]);
    assert(spec_insert_pos(h1, u2.timestamp) == 1) by {
        assert(h1[0] == u1);
        lemma_insert_pos_of(h1, u2.timestamp, 1);
    }
    let h2 = spec_insert_sorted(h1, u2);
    assert(h2 =~= seq![u1, u2]);
    assert(h2.last() == u2);
}

/// One tracked job: its record and its append-only status log.
#[derive(Debug, PartialEq, Eq)]
pub struct JobEntry {
    pub job: Job,
    pub updates: Vec<JobStatusUpdate>,
}

/// An entry is well formed when its log is sorted and every update in it
/// names the entry's own job.
pub open spec fn spec_entry_wf(e: JobEntry) -> bool {
    &&& spec_sorted_by_time(e.updates@)
    &&& forall|i: int| 0 <= i < e.updates@.len() ==> e.updates@[i].job_id == e.job.id
}

/// Whether some entry tracks the job `id`.
pub open spec fn spec_has_job(entries: Seq<JobEntry>, id: i64) -> bool {
    exists|k: int| 0 <= k < entries.len() && entries[k].job.id == id
}

/// Index of the entry tracking `id` (meaningful only when one exists; well
/// formedness makes it unique).
pub open spec fn spec_job_index(entries: Seq<JobEntry>, id: i64) -> int {
    choose|k: int| 0 <= k < entries.len() && entries[k].job.id == id
}

/// The status history recorded for `id`, empty when the job is unknown.
pub open spec fn spec_history(entries: Seq<JobEntry>, id: i64) -> Seq<JobStatusUpdate> {
    if spec_has_job(entries, id) {
        entries[spec_job_index(entries, id)].updates@
    } else {
        Seq::empty()
    }
}

/// Owns the per-job status logs.  Jobs are registered once, never deleted,
/// and their updates accumulate append-only.
#[derive(Debug, PartialEq, Eq)]
pub struct JobTracker {
    pub entries: Vec<JobEntry>,
}

impl JobTracker {
    /// Every entry is well formed and no two entries track the same job.
    pub open spec fn wf(self) -> bool {
        &&& forall|k: int| 0 <= k < self.entries@.len() ==> spec_entry_wf(#[trigger] self.entries@[k])
        &&& forall|k1: int, k2: int|
            0 <= k1 < k2 < self.entries@.len() ==> self.entries@[k1].job.id
                != self.entries@[k2].job.id
    }

    /// An empty tracker: well formed, tracking nothing.
    pub fn new() -> (t: JobTracker)
        ensures
            t.wf(),
            t.entries@.len() == 0,
            forall|id: i64| !spec_has_job(t.entries@, id),
    {
        JobTracker { entries: Vec::new() }
    }

    /// Finds the entry tracking `id`, if any.
    fn find(&self, id: i64) -> (r: Option<usize>)
        requires
            self.wf(),
        ensures
            match r {
                Some(k) => k < self.entries@.len() && self.entries@[k as int].job.id == id
                    && spec_has_job(self.entries@, id) && spec_job_index(self.entries@, id)
                    == k as int,
                None => !spec_has_job(self.entries@, id),
            },
    {
        let n = self.entries.len();
        let mut k: usize = 0;
        while k < n
            invariant
                0 <= k <= n,
                n == self.entries@.len(),
                self.wf(),
                forall|j: int| 0 <= j < k ==> self.entries@[j].job.id != id,
            decreases n - k,
        {
            if self.entries[k].job.id == id {
                proof {
                    let w = spec_job_index(self.entries@, id);
                    assert(0 <= w < self.entries@.len() && self.entries@[w].job.id == id);
                    if w != k as int {
                        // two distinct entries would track the same job
                        assert(false);
                    }
                }
                return Some(k);
            }
            k = k + 1;
        }
        None
    }

    /// Whether the tracker knows the job `id` — the `jobExists` face of the
    /// storage interface.
    pub fn job_exists(&self, id: i64) -> (b: bool)
        requires
            self.wf(),
        ensures
            b == spec_has_job(self.entries@, id),
    {
        self.find(id).is_some()
    }

    /// Registers a freshly created job with an empty history.  Refuses a
    /// second job under the same id and then changes nothing.
    pub fn add_job(&mut self, job: Job) -> (r: Result<(), TrackerError>)
        requires
            old(self).wf(),
        ensures
            final(self).wf(),
            spec_has_job(old(self).entries@, job.id) ==> r == Err::<(), TrackerError>(
                TrackerError::DuplicateJob,
            ) && *final(self) == *old(self),
            !spec_has_job(old(self).entries@, job.id) ==> r == Ok::<(), TrackerError>(())
                && final(self).entries@.len() == old(self).entries@.len() + 1 && (forall|k: int|
                0 <= k < old(self).entries@.len() ==> final(self).entries@[k] == old(
                    self,
                ).entries@[k]) && final(self).entries@.last().job == job && spec_has_job(
                final(self).entries@,
                job.id,
            ) && spec_history(final(self).entries@, job.id) == Seq::<JobStatusUpdate>::empty()
                && forall|id2: i64|
                id2 != job.id ==> spec_has_job(final(self).entries@, id2) == spec_has_job(
                    old(self).entries@,
                    id2,
                ) && spec_history(final(self).entries@, id2) == spec_history(
                    old(self).entries@,
                    id2,
                ),
    {
        let ghost old_entries = self.entries@;
        if self.find(job.id).is_some() {
            return Err(TrackerError::DuplicateJob);
        }
        let ghost jid = job.id;
        self.entries.push(JobEntry { job, updates: Vec::new() });
        proof {
            let es = self.entries@;
            let n = old_entries.len() as int;
            assert(es.len() == n + 1);
            assert(es[n].job.id == jid);
            assert(forall|j: int| 0 <= j < n ==> es[j] == old_entries[j]);
            // still well formed: the new entry has an empty, trivially sorted log
            assert(spec_entry_wf(es[n]));
            // the new job is present with an empty history
            assert(spec_has_job(es, jid));
            let w = spec_job_index(es, jid);
            assert(0 <= w < es.len() && es[w].job.id == jid);
            assert(w == n) by {
                if w < n {
                    assert(old_entries[w].job.id == jid);
                    assert(spec_has_job(old_entries, jid));
                }
            }
            // other ids are untouched
            assert forall|id2: i64| id2 != jid implies spec_has_job(es, id2) == spec_has_job(
                old_entries,
                id2,
            ) && spec_history(es, id2) == spec_history(old_entries, id2) by {
                if spec_has_job(old_entries, id2) {
                    let w2 = spec_job_index(old_entries, id2);
                    assert(es[w2].job.id == id2);
                    assert(spec_has_job(es, id2));
                }
                if spec_has_job(es, id2) {
                    let w2 = spec_job_index(es, id2);
                    assert(0 <= w2 < es.len() && es[w2].job.id == id2);
                    assert(w2 < n);
                    assert(old_entries[w2].job.id == id2);
                    assert(spec_has_job(old_entries, id2));
                    let w3 = spec_job_index(old_entries, id2);
                    assert(old_entries[w3].job.id == id2);
                    assert(es[w3].job.id == id2);
                    assert(w3 == w2) by {
                        if w3 != w2 {
                            assert(es[w3].job.id == es[w2].job.id);
                            assert(false);
                        }
                    }
                    assert(spec_history(es, id2) == spec_history(old_entries, id2));
                }
            }
        }
        Ok(())
    }

    /// Appends one status update to an existing job's log — `recordStatus`.
    /// The update lands at its timestamp position; recording for an unknown
    /// job answers `UnknownJob` and creates nothing.
    pub fn record_status(&mut self, job_id: i64, timestamp: i64, status: JobStatus) -> (r: Result<
        (),
        TrackerError,
    >)
        requires
            old(self).wf(),
        ensures
            final(self).wf(),
            !spec_has_job(old(self).entries@, job_id) ==> r == Err::<(), TrackerError>(
                TrackerError::UnknownJob,
            ) && *final(self) == *old(self),
            spec_has_job(old(self).entries@, job_id) ==> r == Ok::<(), TrackerError>(())
                && spec_history(final(self).entries@, job_id) == spec_insert_sorted(
                spec_history(old(self).entries@, job_id),
                JobStatusUpdate { job_id, timestamp, status },
            ) && forall|id2: i64|
                id2 != job_id ==> spec_has_job(final(self).entries@, id2) == spec_has_job(
                    old(self).entries@,
                    id2,
                ) && spec_history(final(self).entries@, id2) == spec_history(
                    old(self).entries@,
                    id2,
                ),
            forall|id2: i64|
                spec_has_job(final(self).entries@, id2) == spec_has_job(old(self).entries@, id2),
            final(self).entries@.len() == old(self).entries@.len(),
            forall|k: int|
                0 <= k < old(self).entries@.len() ==> final(self).entries@[k].job == old(
                    self,
                ).entries@[k].job,
    {
        let ghost old_entries = self.entries@;
        let found = self.find(job_id);
        match found {
            Option::None => Err(TrackerError::UnknownJob),
            Option::Some(k) => {
                let u = JobStatusUpdate { job_id, timestamp, status };
                let ghost old_log = old_entries[k as int].updates@;
                proof {
                    lemma_insert_pos_bounds(old_log, timestamp);
                }
                let entry = &mut self.entries[k];
                let n = entry.updates.len();
                let mut p: usize = 0;
                while p < n && entry.updates[p].timestamp <= timestamp
                    invariant
                        0 <= p <= n,
                        n == entry.updates@.len(),
                        entry.updates@ == old_log,
                        forall|i: int| 0 <= i < p ==> old_log[i].timestamp <= timestamp,
                    decreases n - p,
                {
                    p = p + 1;
                }
                proof {
                    lemma_insert_pos_of(old_log, timestamp, p as int);
                }
                entry.updates.insert(p, u);
                proof {
                    assert(entry.updates@ == spec_insert_sorted(old_log, u));
                    assert(spec_entry_wf(old_entries[k as int]));
                    lemma_insert_sorted_keeps_order(old_log, u);
                    assert(spec_entry_wf(*entry)) by {
                        assert(entry.job == old_entries[k as int].job);
                        assert(forall|i: int|
                            0 <= i < entry.updates@.len() ==> #[trigger] entry.updates@[i]
                                == spec_insert_sorted(old_log, u)[i]);
                        lemma_insert_pos_bounds(old_log, timestamp);
                        let pp = spec_insert_pos(old_log, timestamp);
                        assert(spec_insert_sorted(old_log, u) =~= old_log.take(pp) + seq![u]
                            + old_log.skip(pp));
                        assert forall|i: int|
                            0 <= i < entry.updates@.len() implies entry.updates@[i].job_id
                            == entry.job.id by {
                            if i < pp {
                                assert(entry.updates@[i] == old_log[i]);
                            } else if i == pp {
                                assert(entry.updates@[i] == u);
                            } else {
                                assert(entry.updates@[i] == old_log[i - 1]);
                            }
                        }
                    }
                }
                proof {
                    let es = self.entries@;
                    assert(es =~= old_entries.update(k as int, *entry));
                    assert(forall|j: int|
                        0 <= j < es.len() ==> #[trigger] es[j].job.id == old_entries[j].job.id);
                    assert(self.wf()) by {
                        assert(forall|j: int|
                            0 <= j < es.len() && j != k as int ==> es[j] == old_entries[j]);
                    }
                    // the target job's history is the updated log
                    assert(spec_has_job(es, job_id)) by {
                        assert(es[k as int].job.id == job_id);
                    }
                    let w = spec_job_index(es, job_id);
                    assert(0 <= w < es.len() && es[w].job.id == job_id);
                    assert(w == k as int) by {
                        if w != k as int {
                            assert(es[w].job.id == es[k as int].job.id);
                            assert(false);
                        }
                    }
                    assert(spec_history(es, job_id) == spec_insert_sorted(old_log, u));
                    assert(spec_history(old_entries, job_id) == old_log) by {
                        let w0 = spec_job_index(old_entries, job_id);
                        assert(old_entries[w0].job.id == job_id);
                        assert(w0 == k as int) by {
                            if w0 != k as int {
                                assert(old_entries[w0].job.id == old_entries[k as int].job.id);
                                assert(false);
                            }
                        }
                    }
                    // every other id keeps its presence and history
                    assert forall|id2: i64| id2 != job_id implies spec_has_job(es, id2)
                        == spec_has_job(old_entries, id2) && spec_history(es, id2) == spec_history(
                        old_entries,
                        id2,
                    ) by {
                        if spec_has_job(old_entries, id2) {
                            let w2 = spec_job_index(old_entries, id2);
                            assert(es[w2].job.id == id2);
                            assert(spec_has_job(es, id2));
                        }
                        if spec_has_job(es, id2) {
                            let w2 = spec_job_index(es, id2);
                            assert(0 <= w2 < es.len() && es[w2].job.id == id2);
                            assert(old_entries[w2].job.id == id2);
                            assert(spec_has_job(old_entries, id2));
                            let w3 = spec_job_index(old_entries, id2);
                            assert(w3 == w2) by {
                                if w3 != w2 {
                                    assert(old_entries[w3].job.id == old_entries[w2].job.id);
                                    assert(false);
                                }
                            }
                            assert(w2 != k as int);
                            assert(es[w2] == old_entries[w2]);
                        }
                    }
                    assert forall|id2: i64| spec_has_job(es, id2) == spec_has_job(
                        old_entries,
                        id2,
                    ) by {
                        if spec_has_job(old_entries, id2) {
                            let w2 = spec_job_index(old_entries, id2);
                            assert(es[w2].job.id == id2);
                        }
                        if spec_has_job(es, id2) {
                            let w2 = spec_job_index(es, id2);
                            assert(old_entries[w2].job.id == id2);
                        }
                    }
                }
                Ok(())
            },
        }
    }

    /// The recorded history of `id`, ascending by timestamp — the
    /// `getJobStatusHistory` face of the storage interface.  Empty when the
    /// job is unknown or nothing has been reported.
    pub fn history(&self, id: i64) -> (h: Vec<JobStatusUpdate>)
        requires
            self.wf(),
        ensures
            h@ == spec_history(self.entries@, id),
            spec_sorted_by_time(h@),
    {
        proof {
            if spec_has_job(self.entries@, id) {
                let w = spec_job_index(self.entries@, id);
                assert(spec_entry_wf(self.entries@[w]));
            }
        }
        match self.find(id) {
            Option::None => Vec::new(),
            Option::Some(k) => {
                let entry = &self.entries[k];
                let n = entry.updates.len();
                let mut h: Vec<JobStatusUpdate> = Vec::new();
                let mut i: usize = 0;
                while i < n
                    invariant
                        0 <= i <= n,
                        n == entry.updates@.len(),
                        h@ == entry.updates@.take(i as int),
                    decreases n - i,
                {
                    h.push(entry.updates[i]);
                    proof {
                        assert(h@ =~= entry.updates@.take(i + 1));
                    }
                    i = i + 1;
                }
                proof {
                    assert(h@ =~= entry.updates@);
                }
                h
            },
        }
    }

    /// The status of the latest update recorded for `id`, or nothing when
    /// the job is unknown or has no updates yet.
    pub fn current_status(&self, id: i64) -> (r: Option<JobStatus>)
        requires
            self.wf(),
        ensures
            r == spec_current_status(spec_history(self.entries@, id)),
    {
        match self.find(id) {
            Option::None => None,
            Option::Some(k) => {
                let entry = &self.entries[k];
                let n = entry.updates.len();
                if n == 0 {
                    None
                } else {
                    Some(entry.updates[n - 1].status)
                }
            },
        }
    }
}

/// Append-only storage for decoded telemetry records.
#[derive(Debug, PartialEq, Eq)]
pub struct TelemetryStore {
    pub records: Vec<TelemetryRecord>,
}

impl TelemetryStore {
    /// An empty store.
    pub fn new() -> (s: TelemetryStore)
        ensures
            s.records@.len() == 0,
    {
        TelemetryStore { records: Vec::new() }
    }

    /// Appends one record — the `insertTelemetry` face of the storage
    /// interface.  Existing records are never mutated or deleted.
    pub fn insert_telemetry(&mut self, r: TelemetryRecord)
        ensures
            final(self).records@ == old(self).records@.push(r),
    {
        self.records.push(r);
    }

    /// How many records have been stored.
    pub fn len(&self) -> (n: usize)
        ensures
            n == self.records@.len(),
    {
        self.records.len()
    }

    /// The stored records observed inside `[start, end]`, in storage order
    /// — the compute of the historic query; the edge resolves the window
    /// bounds first.
    pub fn history_between(&self, start: i64, end: i64) -> (out: Vec<TelemetryRecord>)
        ensures
            out@ == spec_window_filter(self.records@, start, end),
    {
        let n = self.records.len();
        let mut out: Vec<TelemetryRecord> = Vec::new();
        let mut i: usize = 0;
        while i < n
            invariant
                0 <= i <= n,
                n == self.records@.len(),
                out@ == spec_window_filter(self.records@.take(i as int), start, end),
            decreases n - i,
        {
            let r = self.records[i];
            proof {
                let pre = self.records@.take(i + 1);
                assert(pre.drop_last() =~= self.records@.take(i as int));
                assert(pre.last() == self.records@[i as int]);
            }
            if start <= r.observed_at && r.observed_at <= end {
                out.push(r);
            }
            i = i + 1;
        }
        proof {
            assert(self.records@.take(n as int) =~= self.records@);
        }
        out
    }

    /// The last `limit` stored records (all of them when fewer exist), in
    /// storage order — the compute of the latest-telemetry query.
    pub fn latest(&self, limit: usize) -> (out: Vec<TelemetryRecord>)
        ensures
            out@ == self.records@.skip(
                if self.records@.len() <= limit {
                    0
                } else {
                    self.records@.len() - limit
                },
            ),
    {
        let n = self.records.len();
        let k: usize = if n <= limit {
            0
        } else {
            n - limit
        };
        let mut out: Vec<TelemetryRecord> = Vec::new();
        let mut i: usize = k;
        while i < n
            invariant
                k <= i <= n,
                n == self.records@.len(),
                out@ == self.records@.subrange(k as int, i as int),
            decreases n - i,
        {
            out.push(self.records[i]);
            proof {
                assert(out@ =~= self.records@.subrange(k as int, i + 1));
            }
            i = i + 1;
        }
        proof {
            assert(out@ =~= self.records@.skip(k as int));
        }
        out
    }
}

/// The records of `s` observed inside `[start, end]`, kept in order.
pub open spec fn spec_window_filter(s: Seq<TelemetryRecord>, start: i64, end: i64) -> Seq<
    TelemetryRecord,
>
    decreases s.len(),
{
    if s.len() == 0 {
        Seq::empty()
    } else {
        let head = spec_window_filter(s.drop_last(), start, end);
        if start <= s.last().observed_at <= end {
            head.push(s.last())
        } else {
            head
        }
    }
}

} // verus!
