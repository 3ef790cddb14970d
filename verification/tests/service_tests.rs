use rustar_api::requests::{HistoricTelemetryRequest, JobCreateRequest, TleUpdateRequest};
use rustar_api::service::{
    check_new_ground_station, check_new_satellite, classify_db_message, decide_tle_update,
    eq_ignore_ascii_case_str, ground_station_delete_outcome, is_blank, name_taken,
    satellite_delete_outcome, trim_str, GroundStation, RepositoryError, Satellite, ServiceError,
    TleUpdateDecision,
};

fn gs(name: &str) -> GroundStation {
    GroundStation {
        id: 0,
        name: name.to_string(),
        latitude_microdeg: -34_603_700,
        longitude_microdeg: -58_381_600,
        altitude_m: 25,
    }
}

fn sat(name: &str) -> Satellite {
    Satellite {
        id: 0,
        name: name.to_string(),
        tle: "1 33591U 09005A   24304.41234567".to_string(),
        downlink_frequency_hz: 137_100_000,
        uplink_frequency_hz: 145_800_000,
    }
}

#[test]
fn classify_conflict_messages() {
    let e = classify_db_message("duplicate key value violates unique constraint".to_string());
    assert!(matches!(e, RepositoryError::Conflict(_)));
    let e = classify_db_message("ERROR: unique constraint failed".to_string());
    assert!(matches!(e, RepositoryError::Conflict(_)));
    let e = classify_db_message("connection reset by peer".to_string());
    assert_eq!(
        e,
        RepositoryError::Database("connection reset by peer".to_string())
    );
}

#[test]
fn error_messages_have_their_prefixes() {
    assert_eq!(
        RepositoryError::Database("boom".to_string()).message(),
        "Database error: boom"
    );
    assert_eq!(RepositoryError::NotFound("x".to_string()).message(), "Not found: x");
    assert_eq!(RepositoryError::Conflict("y".to_string()).message(), "Conflict: y");
    assert_eq!(
        ServiceError::BadRequest("bad".to_string()).message(),
        "Bad request: bad"
    );
    assert_eq!(ServiceError::Conflict("c".to_string()).message(), "Conflict: c");
    assert_eq!(ServiceError::NotFound("n".to_string()).message(), "Not found: n");
    assert_eq!(
        ServiceError::Internal("i".to_string()).message(),
        "Internal error: i"
    );
}

#[test]
fn repository_errors_map_to_service_errors() {
    assert_eq!(
        ServiceError::from(RepositoryError::NotFound("a".to_string())),
        ServiceError::NotFound("a".to_string())
    );
    assert_eq!(
        ServiceError::from(RepositoryError::Conflict("b".to_string())),
        ServiceError::Conflict("b".to_string())
    );
    assert_eq!(
        ServiceError::from(RepositoryError::Database("c".to_string())),
        ServiceError::Internal("c".to_string())
    );
}

#[test]
fn blank_and_trim() {
    assert!(is_blank(""));
    assert!(is_blank("  \t\r\n"));
    assert!(!is_blank(" x "));
    assert_eq!(trim_str("  hello \t"), "hello");
    assert_eq!(trim_str("hello"), "hello");
    assert_eq!(trim_str("   "), "");
}

#[test]
fn case_insensitive_name_matching() {
    assert!(eq_ignore_ascii_case_str("NOAA 19", "noaa 19"));
    assert!(!eq_ignore_ascii_case_str("NOAA 19", "noaa 18"));
    let names = vec!["Alpha".to_string(), "Beta".to_string()];
    assert!(name_taken(&names, "ALPHA"));
    assert!(name_taken(&names, "beta"));
    assert!(!name_taken(&names, "Gamma"));
}

#[test]
fn ground_station_validation_rules_in_order() {
    let names = vec!["Existing".to_string()];

    let r = check_new_ground_station(&gs("   "), &names);
    assert_eq!(
        r,
        Err(ServiceError::BadRequest("Name cannot be empty".to_string()))
    );

    let mut g = gs("New Station");
    g.latitude_microdeg = 90_000_001;
    assert_eq!(
        check_new_ground_station(&g, &names),
        Err(ServiceError::BadRequest(
            "Latitude must be between -90 and 90".to_string()
        ))
    );

    let mut g = gs("New Station");
    g.longitude_microdeg = -180_000_001;
    assert_eq!(
        check_new_ground_station(&g, &names),
        Err(ServiceError::BadRequest(
            "Longitude must be between -180 and 180".to_string()
        ))
    );

    let mut g = gs("New Station");
    g.altitude_m = 10_001;
    assert_eq!(
        check_new_ground_station(&g, &names),
        Err(ServiceError::BadRequest(
            "Altitude must be between -500 and 10000 meters".to_string()
        ))
    );

    let g = gs("  existing ");
    assert_eq!(
        check_new_ground_station(&g, &names),
        Err(ServiceError::Conflict(
            "Ground station with name 'existing' already exists".to_string()
        ))
    );

    assert_eq!(check_new_ground_station(&gs("New Station"), &names), Ok(()));
}

#[test]
fn satellite_validation_rules_in_order() {
    let names = vec!["NOAA 19".to_string()];

    assert_eq!(
        check_new_satellite(&sat("noaa 19"), &names),
        Err(ServiceError::Conflict(
            "Satellite with name 'noaa 19' already exists".to_string()
        ))
    );

    let mut s = sat("NOAA 20");
    s.tle = " \n".to_string();
    assert_eq!(
        check_new_satellite(&s, &names),
        Err(ServiceError::BadRequest("TLE cannot be empty".to_string()))
    );

    let mut s = sat("NOAA 20");
    s.downlink_frequency_hz = 0;
    assert_eq!(
        check_new_satellite(&s, &names),
        Err(ServiceError::BadRequest(
            "Frequencies must be positive numbers".to_string()
        ))
    );

    assert_eq!(check_new_satellite(&sat("NOAA 20"), &names), Ok(()));
}

#[test]
fn tle_update_decisions() {
    let s = sat("NOAA 19");

    assert_eq!(
        decide_tle_update(5, Some(&s), "  "),
        TleUpdateDecision::Reject(ServiceError::BadRequest("TLE cannot be empty".to_string()))
    );

    assert_eq!(
        decide_tle_update(5, None, "fresh tle"),
        TleUpdateDecision::Reject(ServiceError::NotFound(
            "Satellite with ID 5 not found".to_string()
        ))
    );

    let same = s.tle.clone();
    assert_eq!(decide_tle_update(5, Some(&s), &same), TleUpdateDecision::KeepCurrent);
    assert_eq!(decide_tle_update(5, Some(&s), "fresh tle"), TleUpdateDecision::Apply);
}

#[test]
fn delete_outcomes() {
    assert_eq!(ground_station_delete_outcome(4, true), Ok(true));
    assert_eq!(
        ground_station_delete_outcome(4, false),
        Err(ServiceError::NotFound("Ground station 4 not found".to_string()))
    );
    assert_eq!(satellite_delete_outcome(6, true), Ok(true));
    assert_eq!(
        satellite_delete_outcome(6, false),
        Err(ServiceError::NotFound("Satellite with ID 6 not found".to_string()))
    );
}

#[test]
fn job_create_request_builds_the_job() {
    let req = JobCreateRequest {
        sat_id: 9,
        gs_id: 3,
        commands: vec!["a".to_string(), "b".to_string()],
    };
    let job = req.to_job();
    assert_eq!(job.id, 0);
    assert_eq!(job.gs_id, 3);
    assert_eq!(job.sat_id, 9);
    assert_eq!(job.start_time, 0);
    assert_eq!(job.end_time, 0);
    assert_eq!(job.commands, vec!["a".to_string(), "b".to_string()]);
}

#[test]
fn historic_window_defaults() {
    let req = HistoricTelemetryRequest { start_time: None, end_time: None };
    assert_eq!(req.resolve_window(1_000), (0, 1_000));
    let req = HistoricTelemetryRequest { start_time: Some(5), end_time: Some(7) };
    assert_eq!(req.resolve_window(1_000), (5, 7));
}

#[test]
fn tle_update_request_carries_the_tle() {
    let req = TleUpdateRequest { tle: "line1\nline2".to_string() };
    assert_eq!(req.tle, "line1\nline2");
}
