//! Binary codec for the payloads carried inside broker messages.
//!
//! Two fixed layouts, both little-endian:
//!
//! * **Telemetry sample** (37 bytes): source satellite id (8 bytes),
//!   source ground-station id (8), observation time in Unix epoch seconds
//!   (8), temperature (4, IEEE-754 single-precision bits), voltage (4),
//!   current (4), battery percentage (1).
//! * **Status report** (9 bytes): status code (1), report time in Unix
//!   epoch seconds (8).
//!
//! Decoding answers [`CodecError::Malformed`] when the length or a field
//! encoding does not match the layout, and [`CodecError::OutOfRange`] when a
//! decoded field falls outside its physically valid envelope.  Both decoders
//! are total: every byte string maps to a record or to one of those two
//! errors.  Encoding a valid record and decoding it back yields the record
//! unchanged.

use vstd::prelude::*;
use vstd::bytes::{
    spec_u32_from_le_bytes, spec_u32_to_le_bytes, spec_u64_from_le_bytes, spec_u64_to_le_bytes,
    u32_from_le_bytes, u32_to_le_bytes, u64_from_le_bytes, u64_to_le_bytes,
    lemma_auto_spec_u32_to_from_le_bytes, lemma_auto_spec_u64_to_from_le_bytes,
};
use vstd::slice::{slice_index_get, slice_subrange};
use crate::entities::{is_finite_bits, check_finite_bits, JobStatus, TelemetryRecord};

verus! {

/// Why a payload failed to decode.
#[derive(Clone, Copy, Debug, PartialEq, Eq, Structural)]
pub enum CodecError {
    /// The length or a field encoding does not match the fixed layout.
    Malformed,
    /// A decoded field falls outside its physically valid range.
    OutOfRange,
}

/// Byte length of an encoded telemetry sample.
pub const TELEMETRY_PAYLOAD_LEN: usize = 37;

/// Byte length of an encoded status report.
pub const STATUS_REPORT_LEN: usize = 9;

/// The bytes that stand for a telemetry record on the wire.
pub open spec fn spec_encode_telemetry(r: TelemetryRecord) -> Seq<u8> {
    spec_u64_to_le_bytes(r.source_satellite_id as u64)
        + spec_u64_to_le_bytes(r.source_ground_station_id as u64)
        + spec_u64_to_le_bytes(r.observed_at as u64)
        + spec_u32_to_le_bytes(r.temperature_bits)
        + spec_u32_to_le_bytes(r.voltage_bits)
        + spec_u32_to_le_bytes(r.current_bits)
        + seq![r.battery_level]
}

/// The record a payload stands for, or the exact error it earns: a wrong
/// length is `Malformed`; a negative-looking id or time, a non-finite
/// measurement, or a battery level over 100 is `OutOfRange`.
pub open spec fn spec_decode_telemetry(p: Seq<u8>) -> Result<TelemetryRecord, CodecError> {
    if p.len() != TELEMETRY_PAYLOAD_LEN {
        Err(CodecError::Malformed)
    } else {
        let sid = spec_u64_from_le_bytes(p.subrange(0, 8));
        let gid = spec_u64_from_le_bytes(p.subrange(8, 16));
        let ts = spec_u64_from_le_bytes(p.subrange(16, 24));
        let temperature = spec_u32_from_le_bytes(p.subrange(24, 28));
        let voltage = spec_u32_from_le_bytes(p.subrange(28, 32));
        let current = spec_u32_from_le_bytes(p.subrange(32, 36));
        let battery = p[36];
        if sid <= i64::MAX && gid <= i64::MAX && ts <= i64::MAX && is_finite_bits(temperature)
            && is_finite_bits(voltage) && is_finite_bits(current) && battery <= 100 {
            Ok(TelemetryRecord {
                source_satellite_id: sid as i64,
                source_ground_station_id: gid as i64,
                observed_at: ts as i64,
                temperature_bits: temperature,
                voltage_bits: voltage,
                current_bits: current,
                battery_level: battery,
            })
        } else {
            Err(CodecError::OutOfRange)
        }
    }
}

/// Encodes a valid record into its 37-byte payload.  Never fails: every
/// record inside the validity envelope has exactly one encoding.
pub fn encode_telemetry(r: &TelemetryRecord) -> (out: Vec<u8>)
    requires
        r.valid(),
    ensures
        out@ == spec_encode_telemetry(*r),
        out@.len() == TELEMETRY_PAYLOAD_LEN,
{
    let mut out = u64_to_le_bytes(r.source_satellite_id as u64);
    let mut part = u64_to_le_bytes(r.source_ground_station_id as u64);
    out.append(&mut part);
    let mut part = u64_to_le_bytes(r.observed_at as u64);
    out.append(&mut part);
    let mut part = u32_to_le_bytes(r.temperature_bits);
    out.append(&mut part);
    let mut part = u32_to_le_bytes(r.voltage_bits);
    out.append(&mut part);
    let mut part = u32_to_le_bytes(r.current_bits);
    out.append(&mut part);
    out.push(r.battery_level);
    proof {
        assert(out@ =~= spec_encode_telemetry(*r));
    }
    out
}

/// Decodes a telemetry payload; total over all byte strings.
pub fn decode_telemetry(payload: &[u8]) -> (r: Result<TelemetryRecord, CodecError>)
    ensures
        r == spec_decode_telemetry(payload@),
{
    if payload.len() != TELEMETRY_PAYLOAD_LEN {
        return Err(CodecError::Malformed);
    }
    let sid = u64_from_le_bytes(slice_subrange(payload, 0, 8));
    let gid = u64_from_le_bytes(slice_subrange(payload, 8, 16));
    let ts = u64_from_le_bytes(slice_subrange(payload, 16, 24));
    let temperature = u32_from_le_bytes(slice_subrange(payload, 24, 28));
    let voltage = u32_from_le_bytes(slice_subrange(payload, 28, 32));
    let current = u32_from_le_bytes(slice_subrange(payload, 32, 36));
    let battery = *slice_index_get(payload, 36);
    if sid <= i64::MAX as u64 && gid <= i64::MAX as u64 && ts <= i64::MAX as u64
        && check_finite_bits(temperature) && check_finite_bits(voltage)
        && check_finite_bits(current) && battery <= 100 {
        Ok(TelemetryRecord {
            source_satellite_id: sid as i64,
            source_ground_station_id: gid as i64,
            observed_at: ts as i64,
            temperature_bits: temperature,
            voltage_bits: voltage,
            current_bits: current,
            battery_level: battery,
        })
    } else {
        Err(CodecError::OutOfRange)
    }
}

/// Round trip: decoding the encoding of any valid record yields the record.
pub proof fn lemma_telemetry_round_trip(r: TelemetryRecord)
    requires
        r.valid(),
    ensures
        spec_decode_telemetry(spec_encode_telemetry(r)) == Ok::<TelemetryRecord, CodecError>(r),
{
    lemma_auto_spec_u64_to_from_le_bytes();
    lemma_auto_spec_u32_to_from_le_bytes();
    let enc = spec_encode_telemetry(r);
    assert(enc.len() == TELEMETRY_PAYLOAD_LEN);
    assert(enc.subrange(0, 8) =~= spec_u64_to_le_bytes(r.source_satellite_id as u64));
    assert(enc.subrange(8, 16) =~= spec_u64_to_le_bytes(r.source_ground_station_id as u64));
    assert(enc.subrange(16, 24) =~= spec_u64_to_le_bytes(r.observed_at as u64));
    assert(enc.subrange(24, 28) =~= spec_u32_to_le_bytes(r.temperature_bits));
    assert(enc.subrange(28, 32) =~= spec_u32_to_le_bytes(r.voltage_bits));
    assert(enc.subrange(32, 36) =~= spec_u32_to_le_bytes(r.current_bits));
    assert(enc[36] == r.battery_level);
}

/// Totality of telemetry decoding: a wrong length is always `Malformed`,
/// and whatever comes back `Ok` lies inside the validity envelope.
pub proof fn lemma_decode_telemetry_total(p: Seq<u8>)
    ensures
        p.len() != TELEMETRY_PAYLOAD_LEN ==> spec_decode_telemetry(p) == Err::<
            TelemetryRecord,
            CodecError,
        >(CodecError::Malformed),
        spec_decode_telemetry(p) matches Ok(r) ==> p.len() == TELEMETRY_PAYLOAD_LEN && r.valid(),
        spec_decode_telemetry(p) is Ok || spec_decode_telemetry(p) == Err::<
            TelemetryRecord,
            CodecError,
        >(CodecError::Malformed) || spec_decode_telemetry(p) == Err::<TelemetryRecord, CodecError>(
            CodecError::OutOfRange,
        ),
{
}

/// A ground station's report of one job-status transition.
#[derive(Clone, Copy, Debug, PartialEq, Eq, Structural)]
pub struct StatusReport {
    pub status: JobStatus,
    /// Unix epoch seconds at which the station observed the transition.
    pub timestamp: i64,
}

impl StatusReport {
    /// The valid envelope: the report time is non-negative.
    pub open spec fn valid(self) -> bool {
        self.timestamp >= 0
    }
}

/// The bytes that stand for a status report on the wire.
pub open spec fn spec_encode_status_report(s: StatusReport) -> Seq<u8> {
    seq![s.status.spec_code()] + spec_u64_to_le_bytes(s.timestamp as u64)
}

/// The report a payload stands for, or the exact error it earns: a wrong
/// length or an unknown status code is `Malformed`; a negative-looking
/// timestamp is `OutOfRange`.
pub open spec fn spec_decode_status_report(p: Seq<u8>) -> Result<StatusReport, CodecError> {
    if p.len() != STATUS_REPORT_LEN {
        Err(CodecError::Malformed)
    } else {
        match JobStatus::spec_from_code(p[0]) {
            Option::None => Err(CodecError::Malformed),
            Option::Some(status) => {
                let ts = spec_u64_from_le_bytes(p.subrange(1, 9));
                if ts <= i64::MAX {
                    Ok(StatusReport { status, timestamp: ts as i64 })
                } else {
                    Err(CodecError::OutOfRange)
                }
            },
        }
    }
}

/// Encodes a valid status report into its 9-byte payload.
pub fn encode_status_report(s: &StatusReport) -> (out: Vec<u8>)
    requires
        s.valid(),
    ensures
        out@ == spec_encode_status_report(*s),
        out@.len() == STATUS_REPORT_LEN,
{
    let mut out: Vec<u8> = Vec::new();
    out.push(s.status.code());
    let mut part = u64_to_le_bytes(s.timestamp as u64);
    out.append(&mut part);
    proof {
        assert(out@ =~= spec_encode_status_report(*s));
    }
    out
}

/// Decodes a status-report payload; total over all byte strings.
pub fn decode_status_report(payload: &[u8]) -> (r: Result<StatusReport, CodecError>)
    ensures
        r == spec_decode_status_report(payload@),
{
    if payload.len() != STATUS_REPORT_LEN {
        return Err(CodecError::Malformed);
    }
    let code = *slice_index_get(payload, 0);
    match JobStatus::from_code(code) {
        Option::None => Err(CodecError::Malformed),
        Option::Some(status) => {
            let ts = u64_from_le_bytes(slice_subrange(payload, 1, 9));
            if ts <= i64::MAX as u64 {
                Ok(StatusReport { status, timestamp: ts as i64 })
            } else {
                Err(CodecError::OutOfRange)
            }
        },
    }
}

/// Totality of status-report decoding: a wrong length or unknown status
/// code is always `Malformed`, and whatever comes back `Ok` lies inside the
/// validity envelope.
pub proof fn lemma_decode_status_report_total(p: Seq<u8>)
    ensures
        p.len() != STATUS_REPORT_LEN ==> spec_decode_status_report(p) == Err::<
            StatusReport,
            CodecError,
        >(CodecError::Malformed),
        spec_decode_status_report(p) matches Ok(s) ==> p.len() == STATUS_REPORT_LEN && s.valid(),
        spec_decode_status_report(p) is Ok || spec_decode_status_report(p) == Err::<
            StatusReport,
            CodecError,
        >(CodecError::Malformed) || spec_decode_status_report(p) == Err::<StatusReport, CodecError>(
            CodecError::OutOfRange,
        ),
{
}

/// Round trip: decoding the encoding of any valid report yields the report.
pub proof fn lemma_status_report_round_trip(s: StatusReport)
    requires
        s.valid(),
    ensures
        spec_decode_status_report(spec_encode_status_report(s)) == Ok::<StatusReport, CodecError>(
            s,
        ),
{
    lemma_auto_spec_u64_to_from_le_bytes();
    let enc = spec_encode_status_report(s);
    assert(enc.len() == STATUS_REPORT_LEN);
    assert(enc[0] == s.status.spec_code());
    s.status.lemma_code_round_trip();
    assert(enc.subrange(1, 9) =~= spec_u64_to_le_bytes(s.timestamp as u64));
}

} // verus!
