use rustar_api::entities::{Job, JobStatus, JobStatusUpdate, TelemetryRecord};
use rustar_api::tracker::{JobTracker, TelemetryStore, TrackerError};

fn job(id: i64) -> Job {
    Job {
        id,
        gs_id: 1,
        sat_id: 2,
        start_time: 0,
        end_time: 0,
        commands: vec!["ping".to_string()],
    }
}

#[test]
fn fresh_job_has_no_status() {
    let mut t = JobTracker::new();
    t.add_job(job(1)).unwrap();
    assert_eq!(t.current_status(1), None);
    assert_eq!(t.history(1), vec![]);
}

#[test]
fn latest_timestamp_wins() {
    let mut t = JobTracker::new();
    t.add_job(job(1)).unwrap();
    t.record_status(1, 100, JobStatus::Sent).unwrap();
    t.record_status(1, 200, JobStatus::Completed).unwrap();
    assert_eq!(
        t.history(1),
        vec![
            JobStatusUpdate { job_id: 1, timestamp: 100, status: JobStatus::Sent },
            JobStatusUpdate { job_id: 1, timestamp: 200, status: JobStatus::Completed },
        ]
    );
    assert_eq!(t.current_status(1), Some(JobStatus::Completed));
}

#[test]
fn out_of_order_reports_are_kept_sorted() {
    let mut t = JobTracker::new();
    t.add_job(job(1)).unwrap();
    t.record_status(1, 200, JobStatus::Completed).unwrap();
    t.record_status(1, 100, JobStatus::Sent).unwrap();
    assert_eq!(
        t.history(1),
        vec![
            JobStatusUpdate { job_id: 1, timestamp: 100, status: JobStatus::Sent },
            JobStatusUpdate { job_id: 1, timestamp: 200, status: JobStatus::Completed },
        ]
    );
    // current status goes by greatest timestamp, not arrival order
    assert_eq!(t.current_status(1), Some(JobStatus::Completed));
}

#[test]
fn equal_timestamps_latest_recorded_wins() {
    let mut t = JobTracker::new();
    t.add_job(job(1)).unwrap();
    t.record_status(1, 100, JobStatus::Sent).unwrap();
    t.record_status(1, 100, JobStatus::Error).unwrap();
    assert_eq!(t.current_status(1), Some(JobStatus::Error));
    assert_eq!(
        t.history(1),
        vec![
            JobStatusUpdate { job_id: 1, timestamp: 100, status: JobStatus::Sent },
            JobStatusUpdate { job_id: 1, timestamp: 100, status: JobStatus::Error },
        ]
    );
}

#[test]
fn shuffled_reports_end_up_ascending() {
    let mut t = JobTracker::new();
    t.add_job(job(1)).unwrap();
    for (ts, status) in [
        (300, JobStatus::Completed),
        (100, JobStatus::Sent),
        (200, JobStatus::Started),
        (150, JobStatus::Received),
    ] {
        t.record_status(1, ts, status).unwrap();
    }
    let h = t.history(1);
    let stamps: Vec<i64> = h.iter().map(|u| u.timestamp).collect();
    assert_eq!(stamps, vec![100, 150, 200, 300]);
    assert_eq!(t.current_status(1), Some(JobStatus::Completed));
}

#[test]
fn repeated_statuses_are_all_kept() {
    let mut t = JobTracker::new();
    t.add_job(job(1)).unwrap();
    t.record_status(1, 1, JobStatus::Started).unwrap();
    t.record_status(1, 2, JobStatus::Started).unwrap();
    assert_eq!(t.history(1).len(), 2);
}

#[test]
fn unknown_job_is_refused_and_not_created() {
    let mut t = JobTracker::new();
    assert_eq!(t.record_status(9, 100, JobStatus::Sent), Err(TrackerError::UnknownJob));
    assert!(!t.job_exists(9));
    assert_eq!(t.history(9), vec![]);

    t.add_job(job(1)).unwrap();
    assert_eq!(t.record_status(9, 100, JobStatus::Sent), Err(TrackerError::UnknownJob));
    assert!(!t.job_exists(9));
    assert_eq!(t.history(1), vec![]);
}

#[test]
fn duplicate_job_is_refused() {
    let mut t = JobTracker::new();
    t.add_job(job(1)).unwrap();
    assert_eq!(t.add_job(job(1)), Err(TrackerError::DuplicateJob));
}

#[test]
fn updates_of_one_job_leave_others_alone() {
    let mut t = JobTracker::new();
    t.add_job(job(1)).unwrap();
    t.add_job(job(2)).unwrap();
    t.record_status(2, 50, JobStatus::Received).unwrap();
    assert_eq!(t.history(1), vec![]);
    assert_eq!(t.current_status(1), None);
    assert_eq!(t.current_status(2), Some(JobStatus::Received));
}

fn record(sat: i64, at: i64) -> TelemetryRecord {
    TelemetryRecord {
        source_satellite_id: sat,
        source_ground_station_id: 1,
        observed_at: at,
        temperature_bits: 0,
        voltage_bits: 0,
        current_bits: 0,
        battery_level: 50,
    }
}

#[test]
fn telemetry_store_appends() {
    let mut s = TelemetryStore::new();
    assert_eq!(s.len(), 0);
    s.insert_telemetry(record(1, 10));
    s.insert_telemetry(record(2, 20));
    assert_eq!(s.len(), 2);
    assert_eq!(s.records[0], record(1, 10));
    assert_eq!(s.records[1], record(2, 20));
}

#[test]
fn telemetry_window_query() {
    let mut s = TelemetryStore::new();
    s.insert_telemetry(record(1, 10));
    s.insert_telemetry(record(2, 20));
    s.insert_telemetry(record(3, 30));
    assert_eq!(s.history_between(15, 25), vec![record(2, 20)]);
    assert_eq!(s.history_between(10, 30).len(), 3);
    assert_eq!(s.history_between(31, 40), vec![]);
    assert_eq!(s.history_between(25, 15), vec![]);
}

#[test]
fn telemetry_latest_query() {
    let mut s = TelemetryStore::new();
    s.insert_telemetry(record(1, 10));
    s.insert_telemetry(record(2, 20));
    s.insert_telemetry(record(3, 30));
    assert_eq!(s.latest(2), vec![record(2, 20), record(3, 30)]);
    assert_eq!(s.latest(5).len(), 3);
    assert_eq!(s.latest(0), vec![]);
}
