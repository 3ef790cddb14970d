//! Delivery of inbound messages to the component their route names.
//!
//! A dispatch touches at most one job's history or appends at most one
//! telemetry record; per-message failures are isolated, so a bad message
//! never affects the processing of the next one.  Ground-station events are
//! handed back outward as plain values for the unverified edge to deliver,
//! exactly once per received message.

use vstd::prelude::*;
use vstd::slice::slice_to_vec;
use crate::codec::{
    decode_status_report, decode_telemetry, spec_decode_status_report, spec_decode_telemetry,
};
use crate::entities::{JobStatusUpdate, TelemetryRecord};
use crate::router::Route;
use crate::tracker::{
    spec_has_job, spec_history, spec_insert_sorted, JobTracker, TelemetryStore, TrackerError,
};

verus! {

/// What a successful dispatch did with the message.
#[derive(Debug, PartialEq, Eq)]
pub enum DispatchOutcome {
    /// A ground-station event: the pair below is to be delivered to the
    /// external ground-station-event handler, once.
    ForwardGs { gs_id: i64, payload: Vec<u8> },
    /// A job-status report was appended to the job's history.
    StatusRecorded,
    /// A telemetry record was decoded and stored.
    TelemetryStored,
    /// The topic was unrecognized; the message was dropped, never fatally.
    Ignored,
}

/// Why a dispatch failed.  A failure never terminates the ingestion loop.
#[derive(Clone, Copy, Debug, PartialEq, Eq, Structural)]
pub enum DispatchError {
    /// The payload was malformed or out of range for its route; the message
    /// is dropped and never retried.
    BadPayload,
    /// The status report named a job the tracker does not know.
    UnknownJob,
}

/// The two storage collaborators a dispatch may write to.
#[derive(Debug, PartialEq, Eq)]
pub struct Dispatcher {
    pub tracker: JobTracker,
    pub telemetry: TelemetryStore,
}

/// Everything one dispatch does, as a relation between the state before,
/// the state after, and the answer.
///
/// * `GroundStation` — the `(gs_id, payload)` pair comes back for outward
///   delivery, once; no state changes.
/// * `JobStatus` — the decoded status report is appended to exactly that
///   job's history at its timestamp position; a decode failure is
///   `BadPayload`, an unknown job is `UnknownJob`, and either way nothing
///   changes.
/// * `SatelliteTelemetry` — the decoded record is appended to telemetry
///   storage, provided it names the satellite the topic names; otherwise
///   `BadPayload` and nothing changes.
/// * `Unrecognized` — dropped: no state change and no error.
pub open spec fn spec_dispatch_post(
    pre: Dispatcher,
    route: Route,
    payload: Seq<u8>,
    post: Dispatcher,
    r: Result<DispatchOutcome, DispatchError>,
) -> bool {
    match route {
        Route::Unrecognized => post == pre && (r matches Ok(o) && o is Ignored),
        Route::GroundStation { gs_id } => post == pre && (r matches Ok(o) && (
        o matches DispatchOutcome::ForwardGs { gs_id: g, payload: p } && g == gs_id && p@
            == payload)),
        Route::JobStatus { job_id } => match spec_decode_status_report(payload) {
            Result::Err(_) => post == pre && r == Err::<DispatchOutcome, DispatchError>(
                DispatchError::BadPayload,
            ),
            Result::Ok(rep) => {
                if spec_has_job(pre.tracker.entries@, job_id) {
                    &&& r matches Ok(o) && o is StatusRecorded
                    &&& spec_history(post.tracker.entries@, job_id) == spec_insert_sorted(
                        spec_history(pre.tracker.entries@, job_id),
                        JobStatusUpdate { job_id, timestamp: rep.timestamp, status: rep.status },
                    )
                    &&& forall|id2: i64|
                        id2 != job_id ==> spec_history(post.tracker.entries@, id2) == spec_history(
                            pre.tracker.entries@,
                            id2,
                        )
                    &&& forall|id2: i64|
                        spec_has_job(post.tracker.entries@, id2) == spec_has_job(
                            pre.tracker.entries@,
                            id2,
                        )
                    &&& post.tracker.entries@.len() == pre.tracker.entries@.len()
                    &&& forall|k: int|
                        0 <= k < pre.tracker.entries@.len() ==> post.tracker.entries@[k].job
                            == pre.tracker.entries@[k].job
                    &&& post.telemetry == pre.telemetry
                } else {
                    post == pre && r == Err::<DispatchOutcome, DispatchError>(
                        DispatchError::UnknownJob,
                    )
                }
            },
        },
        Route::SatelliteTelemetry { sat_id } => match spec_decode_telemetry(payload) {
            Result::Err(_) => post == pre && r == Err::<DispatchOutcome, DispatchError>(
                DispatchError::BadPayload,
            ),
            Result::Ok(rec) => {
                if rec.source_satellite_id == sat_id {
                    &&& r matches Ok(o) && o is TelemetryStored
                    &&& post.telemetry.records@ == pre.telemetry.records@.push(rec)
                    &&& post.tracker == pre.tracker
                } else {
                    post == pre && r == Err::<DispatchOutcome, DispatchError>(
                        DispatchError::BadPayload,
                    )
                }
            },
        },
    }
}

impl Dispatcher {
    pub open spec fn wf(self) -> bool {
        self.tracker.wf()
    }

    /// A dispatcher over empty storage.
    pub fn new() -> (d: Dispatcher)
        ensures
            d.wf(),
            d.tracker.entries@.len() == 0,
            d.telemetry.records@.len() == 0,
    {
        Dispatcher { tracker: JobTracker::new(), telemetry: TelemetryStore::new() }
    }

    /// Feeds one message body to the component its route names; the whole
    /// effect is [`spec_dispatch_post`].
    pub fn dispatch(&mut self, route: Route, payload: &[u8]) -> (r: Result<
        DispatchOutcome,
        DispatchError,
    >)
        requires
            old(self).wf(),
        ensures
            final(self).wf(),
            spec_dispatch_post(*old(self), route, payload@, *final(self), r),
    {
        match route {
            Route::Unrecognized => Ok(DispatchOutcome::Ignored),
            Route::GroundStation { gs_id } => {
                let copy = slice_to_vec(payload);
                Ok(DispatchOutcome::ForwardGs { gs_id, payload: copy })
            },
            Route::JobStatus { job_id } => {
                match decode_status_report(payload) {
                    Result::Err(_) => Err(DispatchError::BadPayload),
                    Result::Ok(rep) => {
                        match self.tracker.record_status(job_id, rep.timestamp, rep.status) {
                            Result::Ok(()) => Ok(DispatchOutcome::StatusRecorded),
                            Result::Err(TrackerError::UnknownJob) => Err(DispatchError::UnknownJob),
                            Result::Err(TrackerError::DuplicateJob) => {
                                // record_status never answers this
                                proof {
                                    assert(false);
                                }
                                Err(DispatchError::UnknownJob)
                            },
                        }
                    },
                }
            },
            Route::SatelliteTelemetry { sat_id } => {
                match decode_telemetry(payload) {
                    Result::Err(_) => Err(DispatchError::BadPayload),
                    Result::Ok(rec) => {
                        if rec.source_satellite_id == sat_id {
                            self.telemetry.insert_telemetry(rec);
                            Ok(DispatchOutcome::TelemetryStored)
                        } else {
                            Err(DispatchError::BadPayload)
                        }
                    },
                }
            },
        }
    }
}

} // verus!
