use rustar_api::codec::{encode_status_report, encode_telemetry, StatusReport};
use rustar_api::dispatch::{DispatchOutcome, Dispatcher};
use rustar_api::entities::{Job, JobStatus, JobStatusUpdate, TelemetryRecord};
use rustar_api::session::{
    ingestion_topics, make_client_id, ConnectRetry, QoS, RetryDecision, SessionLoop, SessionStep,
};

fn telemetry(sat: i64) -> TelemetryRecord {
    TelemetryRecord {
        source_satellite_id: sat,
        source_ground_station_id: 1,
        observed_at: 100,
        temperature_bits: 0,
        voltage_bits: 0,
        current_bits: 0,
        battery_level: 50,
    }
}

#[test]
fn active_loop_dispatches() {
    let mut s = SessionLoop::new(Dispatcher::new());
    let payload = encode_telemetry(&telemetry(3));
    let step = s.process_message("satellite/3/telemetry", &payload);
    assert_eq!(step, SessionStep::Dispatched(Ok(DispatchOutcome::TelemetryStored)));
    assert_eq!(s.dispatcher.telemetry.len(), 1);
}

#[test]
fn no_dispatch_starts_after_shutdown() {
    let mut s = SessionLoop::new(Dispatcher::new());
    let payload = encode_telemetry(&telemetry(3));
    let step = s.process_message("satellite/3/telemetry", &payload);
    assert_eq!(step, SessionStep::Dispatched(Ok(DispatchOutcome::TelemetryStored)));

    s.signal_shutdown();
    let step = s.process_message("satellite/3/telemetry", &payload);
    assert_eq!(step, SessionStep::Skipped);
    assert_eq!(s.dispatcher.telemetry.len(), 1);

    // the signal is one-way: still nothing is dispatched later
    let step = s.process_message("gs/1", &payload);
    assert_eq!(step, SessionStep::Skipped);
    assert_eq!(s.dispatcher.telemetry.len(), 1);
}

#[test]
fn one_bad_message_does_not_stop_the_loop() {
    let mut s = SessionLoop::new(Dispatcher::new());
    let step = s.process_message("satellite/3/telemetry", &[1, 2]);
    assert!(matches!(step, SessionStep::Dispatched(Err(_))));
    let payload = encode_telemetry(&telemetry(3));
    let step = s.process_message("satellite/3/telemetry", &payload);
    assert_eq!(step, SessionStep::Dispatched(Ok(DispatchOutcome::TelemetryStored)));
}

#[test]
fn status_report_flows_through_the_loop() {
    let mut dispatcher = Dispatcher::new();
    dispatcher
        .tracker
        .add_job(Job { id: 7, gs_id: 1, sat_id: 2, start_time: 0, end_time: 0, commands: vec![] })
        .unwrap();
    let mut s = SessionLoop::new(dispatcher);
    let payload =
        encode_status_report(&StatusReport { status: JobStatus::Started, timestamp: 99 });
    let step = s.process_message("job/7", &payload);
    assert_eq!(step, SessionStep::Dispatched(Ok(DispatchOutcome::StatusRecorded)));
    assert_eq!(
        s.dispatcher.tracker.history(7),
        vec![JobStatusUpdate { job_id: 7, timestamp: 99, status: JobStatus::Started }]
    );
}

#[test]
fn connect_retry_is_bounded() {
    let mut p = ConnectRetry::new(3, 1000);
    assert_eq!(p.on_failure(), RetryDecision::RetryAfter { delay_ms: 1000 });
    assert_eq!(p.on_failure(), RetryDecision::RetryAfter { delay_ms: 1000 });
    assert_eq!(p.on_failure(), RetryDecision::RetryAfter { delay_ms: 1000 });
    assert_eq!(p.on_failure(), RetryDecision::GiveUp);
    assert_eq!(p.on_failure(), RetryDecision::GiveUp);
    assert_eq!(p.attempts, 3);
}

#[test]
fn connect_retry_zero_attempts_gives_up_at_once() {
    let mut p = ConnectRetry::new(0, 500);
    assert_eq!(p.on_failure(), RetryDecision::GiveUp);
}

#[test]
fn ingestion_topics_cover_the_grammar() {
    let topics = ingestion_topics();
    assert_eq!(topics, vec!["gs/+", "job/+", "satellite/+/telemetry"]);
}

#[test]
fn qos_levels() {
    assert_eq!(QoS::AtMostOnce.level(), 0);
    assert_eq!(QoS::AtLeastOnce.level(), 1);
    assert_eq!(QoS::ExactlyOnce.level(), 2);
}

#[test]
fn client_ids_are_prefixed_and_distinct() {
    let a = make_client_id();
    let b = make_client_id();
    assert_eq!(a.len(), 47);
    assert!(a.starts_with("rustar-api-"));
    assert!(b.starts_with("rustar-api-"));
    // the random suffix makes two instances distinct
    assert_ne!(a, b);
}
