use rustar_api::codec::{encode_status_report, encode_telemetry, StatusReport};
use rustar_api::dispatch::{DispatchError, DispatchOutcome, Dispatcher};
use rustar_api::entities::{Job, JobStatus, JobStatusUpdate, TelemetryRecord};
use rustar_api::router::route;

fn job(id: i64) -> Job {
    Job { id, gs_id: 1, sat_id: 42, start_time: 0, end_time: 0, commands: vec![] }
}

fn telemetry_from(sat: i64) -> TelemetryRecord {
    TelemetryRecord {
        source_satellite_id: sat,
        source_ground_station_id: 1,
        observed_at: 1_640_995_200,
        temperature_bits: (20.5f32).to_bits(),
        voltage_bits: (12.1f32).to_bits(),
        current_bits: (1.3f32).to_bits(),
        battery_level: 80,
    }
}

#[test]
fn telemetry_message_stores_one_record() {
    let mut d = Dispatcher::new();
    let payload = encode_telemetry(&telemetry_from(42));
    let r = d.dispatch(route("satellite/42/telemetry"), &payload);
    assert_eq!(r, Ok(DispatchOutcome::TelemetryStored));
    assert_eq!(d.telemetry.len(), 1);
    assert_eq!(d.telemetry.records[0].source_satellite_id, 42);
}

#[test]
fn telemetry_for_wrong_satellite_is_bad_payload() {
    let mut d = Dispatcher::new();
    let payload = encode_telemetry(&telemetry_from(43));
    let r = d.dispatch(route("satellite/42/telemetry"), &payload);
    assert_eq!(r, Err(DispatchError::BadPayload));
    assert_eq!(d.telemetry.len(), 0);
}

#[test]
fn malformed_telemetry_is_dropped() {
    let mut d = Dispatcher::new();
    let r = d.dispatch(route("satellite/42/telemetry"), &[1, 2, 3]);
    assert_eq!(r, Err(DispatchError::BadPayload));
    assert_eq!(d.telemetry.len(), 0);
}

#[test]
fn job_status_message_appends_one_update() {
    let mut d = Dispatcher::new();
    d.tracker.add_job(job(7)).unwrap();
    let t = 1_700_000_000;
    let payload = encode_status_report(&StatusReport { status: JobStatus::Started, timestamp: t });
    let r = d.dispatch(route("job/7"), &payload);
    assert_eq!(r, Ok(DispatchOutcome::StatusRecorded));
    assert_eq!(
        d.tracker.history(7),
        vec![JobStatusUpdate { job_id: 7, timestamp: t, status: JobStatus::Started }]
    );
}

#[test]
fn job_status_for_unknown_job_is_refused() {
    let mut d = Dispatcher::new();
    let payload =
        encode_status_report(&StatusReport { status: JobStatus::Sent, timestamp: 1 });
    let r = d.dispatch(route("job/7"), &payload);
    assert_eq!(r, Err(DispatchError::UnknownJob));
    assert!(!d.tracker.job_exists(7));
}

#[test]
fn bad_status_payload_is_dropped() {
    let mut d = Dispatcher::new();
    d.tracker.add_job(job(7)).unwrap();
    let r = d.dispatch(route("job/7"), &[9, 9]);
    assert_eq!(r, Err(DispatchError::BadPayload));
    assert_eq!(d.tracker.history(7), vec![]);
}

#[test]
fn unrecognized_topic_is_a_quiet_no_op() {
    let mut d = Dispatcher::new();
    let r = d.dispatch(route("unknown/x"), &[1, 2, 3]);
    assert_eq!(r, Ok(DispatchOutcome::Ignored));
    assert_eq!(d.telemetry.len(), 0);
}

#[test]
fn ground_station_event_is_forwarded_once() {
    let mut d = Dispatcher::new();
    let r = d.dispatch(route("gs/5"), &[10, 20, 30]);
    assert_eq!(
        r,
        Ok(DispatchOutcome::ForwardGs { gs_id: 5, payload: vec![10, 20, 30] })
    );
}
