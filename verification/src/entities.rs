//! Domain types shared by the routing, codec and tracking components.
//!
//! Timestamps are Unix epoch seconds held in an `i64`; valid timestamps are
//! non-negative.  Physical measurements travel on the wire as IEEE-754
//! single-precision values; inside this crate each one is held as its 32-bit
//! pattern, so that encoding and decoding are exact and the unverified edge
//! converts to a native floating-point value only when it displays or
//! publishes one.

use vstd::prelude::*;

verus! {

/// Lifecycle states a ground station may report for a dispatched job.
///
/// Reports may arrive out of order or be repeated; the tracker records them
/// all and never enforces a forward-only order.
#[derive(Clone, Copy, Debug, PartialEq, Eq, Structural)]
pub enum JobStatus {
    Sent,
    Received,
    Started,
    Completed,
    Error,
}

impl JobStatus {
    /// Code of this status in the status-report wire format.
    pub open spec fn spec_code(self) -> u8 {
        match self {
            JobStatus::Sent => 0,
            JobStatus::Received => 1,
            JobStatus::Started => 2,
            JobStatus::Completed => 3,
            JobStatus::Error => 4,
        }
    }

    pub fn code(self) -> (c: u8)
        ensures
            c == self.spec_code(),
    {
        match self {
            JobStatus::Sent => 0,
            JobStatus::Received => 1,
            JobStatus::Started => 2,
            JobStatus::Completed => 3,
            JobStatus::Error => 4,
        }
    }

    /// The status a wire code stands for; codes above 4 stand for nothing.
    pub open spec fn spec_from_code(c: u8) -> Option<JobStatus> {
        if c == 0 {
            Some(JobStatus::Sent)
        } else if c == 1 {
            Some(JobStatus::Received)
        } else if c == 2 {
            Some(JobStatus::Started)
        } else if c == 3 {
            Some(JobStatus::Completed)
        } else if c == 4 {
            Some(JobStatus::Error)
        } else {
            None
        }
    }

    pub fn from_code(c: u8) -> (r: Option<JobStatus>)
        ensures
            r == Self::spec_from_code(c),
    {
        if c == 0 {
            Some(JobStatus::Sent)
        } else if c == 1 {
            Some(JobStatus::Received)
        } else if c == 2 {
            Some(JobStatus::Started)
        } else if c == 3 {
            Some(JobStatus::Completed)
        } else if c == 4 {
            Some(JobStatus::Error)
        } else {
            None
        }
    }

    /// Every status round-trips through its wire code.
    pub proof fn lemma_code_round_trip(self)
        ensures
            Self::spec_from_code(self.spec_code()) == Some(self),
    {
    }
}

/// An operator-scheduled set of commands for a ground station to run against
/// a satellite within a time window.  Created once and never deleted; its
/// status is tracked separately as an append-only update log.
#[derive(Debug, PartialEq, Eq)]
pub struct Job {
    pub id: i64,
    pub gs_id: i64,
    pub sat_id: i64,
    pub start_time: i32,
    pub end_time: i32,
    pub commands: Vec<String>,
}

impl Job {
    /// A freshly scheduled job: storage assigns the real id later, and the
    /// time window is filled in by the scheduler, so all three start at zero.
    pub fn new(gs_id: &i64, sat_id: &i64, commands: &Vec<String>) -> (job: Job)
        ensures
            job.id == 0,
            job.gs_id == *gs_id,
            job.sat_id == *sat_id,
            job.start_time == 0,
            job.end_time == 0,
            job.commands@.len() == commands@.len(),
            forall|i: int| 0 <= i < commands@.len() ==> job.commands@[i]@ == commands@[i]@,
    {
        let cloned_commands = commands.clone();
        proof {
            assert forall|i: int|
                0 <= i < commands@.len() implies cloned_commands@[i]@ == commands@[i]@ by {
                assert(cloned::<String>(commands@[i], cloned_commands@[i]));
            }
        }
        Job {
            id: 0,
            gs_id: *gs_id,
            sat_id: *sat_id,
            start_time: 0,
            end_time: 0,
            commands: cloned_commands,
        }
    }
}

/// One entry of a job's append-only status log.
#[derive(Clone, Copy, Debug, PartialEq, Eq, Structural)]
pub struct JobStatusUpdate {
    pub job_id: i64,
    /// Unix epoch seconds at which the station observed the transition.
    pub timestamp: i64,
    pub status: JobStatus,
}

/// True when a 32-bit IEEE-754 single-precision pattern is a finite number,
/// that is, its exponent field is not all ones (which would mean an infinity
/// or a NaN).
pub open spec fn is_finite_bits(b: u32) -> bool {
    (b >> 23) & 0xff != 0xff
}

/// Exec twin of [`is_finite_bits`].
pub fn check_finite_bits(b: u32) -> (r: bool)
    ensures
        r == is_finite_bits(b),
{
    (b >> 23) & 0xff != 0xff
}

/// A decoded telemetry sample.  Produced only by the codec; identity is the
/// pair of source satellite and observation time, storage assigns a surrogate
/// sequence id of its own.
#[derive(Clone, Copy, Debug, PartialEq, Eq, Structural)]
pub struct TelemetryRecord {
    pub source_satellite_id: i64,
    pub source_ground_station_id: i64,
    /// Unix epoch seconds of the observation.
    pub observed_at: i64,
    /// Temperature as an IEEE-754 single-precision bit pattern.
    pub temperature_bits: u32,
    /// Voltage as an IEEE-754 single-precision bit pattern.
    pub voltage_bits: u32,
    /// Current as an IEEE-754 single-precision bit pattern.
    pub current_bits: u32,
    /// State of charge, 0 to 100 percent.
    pub battery_level: u8,
}

impl TelemetryRecord {
    /// The physically valid envelope: ids and timestamp are non-negative,
    /// each measurement is a finite number, and the battery level is a
    /// percentage.
    pub open spec fn valid(self) -> bool {
        &&& self.source_satellite_id >= 0
        &&& self.source_ground_station_id >= 0
        &&& self.observed_at >= 0
        &&& is_finite_bits(self.temperature_bits)
        &&& is_finite_bits(self.voltage_bits)
        &&& is_finite_bits(self.current_bits)
        &&& self.battery_level <= 100
    }

    /// Exec twin of [`Self::valid`].
    pub fn check_valid(&self) -> (r: bool)
        ensures
            r == self.valid(),
    {
        self.source_satellite_id >= 0 && self.source_ground_station_id >= 0
            && self.observed_at >= 0 && check_finite_bits(self.temperature_bits)
            && check_finite_bits(self.voltage_bits) && check_finite_bits(self.current_bits)
            && self.battery_level <= 100
    }
}

} // verus!
