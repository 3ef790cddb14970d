//! Request shapes of the operator-facing API, and what each one resolves
//! to.  The HTTP edge deserializes into copies of these and hands the plain
//! values in.

use vstd::prelude::*;
use crate::entities::Job;

verus! {

/// Query for stored telemetry within a time window, Unix epoch seconds;
/// either bound may be left open.
#[derive(Clone, Copy, Debug, PartialEq, Eq)]
pub struct HistoricTelemetryRequest {
    pub start_time: Option<i64>,
    pub end_time: Option<i64>,
}

impl HistoricTelemetryRequest {
    /// The closed window the request stands for: a missing start is the
    /// epoch, a missing end is `now`, which the caller reads from its
    /// clock and passes in.
    pub fn resolve_window(&self, now: i64) -> (w: (i64, i64))
        ensures
            w.0 == match self.start_time {
                Some(t) => t,
                None => 0i64,
            },
            w.1 == match self.end_time {
                Some(t) => t,
                None => now,
            },
    {
        let start = match self.start_time {
            Option::Some(t) => t,
            Option::None => 0,
        };
        let end = match self.end_time {
            Option::Some(t) => t,
            Option::None => now,
        };
        (start, end)
    }
}

/// Query for the most recently stored telemetry records.
#[derive(Clone, Copy, Debug, PartialEq, Eq)]
pub struct LatestTelemetryRequest {
    pub amount: Option<i32>,
}

/// Request to schedule a job: which satellite, through which ground
/// station, and the ordered command list to run.
#[derive(Debug, PartialEq, Eq)]
pub struct JobCreateRequest {
    pub sat_id: i64,
    pub gs_id: i64,
    pub commands: Vec<String>,
}

impl JobCreateRequest {
    /// The job an accepted request creates.
    pub fn to_job(&self) -> (j: Job)
        ensures
            j.id == 0,
            j.gs_id == self.gs_id,
            j.sat_id == self.sat_id,
            j.start_time == 0,
            j.end_time == 0,
            j.commands@.len() == self.commands@.len(),
            forall|i: int| 0 <= i < self.commands@.len() ==> j.commands@[i]@ == self.commands@[i]@,
    {
        Job::new(&self.gs_id, &self.sat_id, &self.commands)
    }
}

/// Request to replace a satellite's TLE.
#[derive(Debug, PartialEq, Eq)]
pub struct TleUpdateRequest {
    pub tle: String,
}

} // verus!
