use rustar_api::codec::{
    decode_status_report, decode_telemetry, encode_status_report, encode_telemetry, CodecError,
    StatusReport, STATUS_REPORT_LEN, TELEMETRY_PAYLOAD_LEN,
};
use rustar_api::entities::{JobStatus, TelemetryRecord};

fn sample_record() -> TelemetryRecord {
    TelemetryRecord {
        source_satellite_id: 42,
        source_ground_station_id: 7,
        observed_at: 1_640_995_200,
        temperature_bits: (20.5f32).to_bits(),
        voltage_bits: (12.1f32).to_bits(),
        current_bits: (1.3f32).to_bits(),
        battery_level: 87,
    }
}

#[test]
fn telemetry_round_trip() {
    let r = sample_record();
    let payload = encode_telemetry(&r);
    assert_eq!(payload.len(), TELEMETRY_PAYLOAD_LEN);
    assert_eq!(decode_telemetry(&payload), Ok(r));
}

#[test]
fn telemetry_round_trip_extremes() {
    let r = TelemetryRecord {
        source_satellite_id: i64::MAX,
        source_ground_station_id: 0,
        observed_at: 0,
        temperature_bits: (-55.0f32).to_bits(),
        voltage_bits: (0.0f32).to_bits(),
        current_bits: (-0.0f32).to_bits(),
        battery_level: 100,
    };
    let payload = encode_telemetry(&r);
    assert_eq!(decode_telemetry(&payload), Ok(r));
}

#[test]
fn telemetry_exact_layout() {
    let r = TelemetryRecord {
        source_satellite_id: 1,
        source_ground_station_id: 2,
        observed_at: 3,
        temperature_bits: 0x41A40000, // 20.5
        voltage_bits: 0x4141999A,     // 12.1
        current_bits: 0x3FA66666,     // 1.3
        battery_level: 87,
    };
    let payload = encode_telemetry(&r);
    let mut expected = vec![1, 0, 0, 0, 0, 0, 0, 0];
    expected.extend_from_slice(&[2, 0, 0, 0, 0, 0, 0, 0]);
    expected.extend_from_slice(&[3, 0, 0, 0, 0, 0, 0, 0]);
    expected.extend_from_slice(&[0x00, 0x00, 0xA4, 0x41]);
    expected.extend_from_slice(&[0x9A, 0x99, 0x41, 0x41]);
    expected.extend_from_slice(&[0x66, 0x66, 0xA6, 0x3F]);
    expected.push(87);
    assert_eq!(payload, expected);
}

#[test]
fn telemetry_wrong_length_is_malformed() {
    assert_eq!(decode_telemetry(&[]), Err(CodecError::Malformed));
    assert_eq!(decode_telemetry(&[0u8; 36]), Err(CodecError::Malformed));
    assert_eq!(decode_telemetry(&[0u8; 38]), Err(CodecError::Malformed));
}

#[test]
fn telemetry_battery_over_100_is_out_of_range() {
    let mut payload = encode_telemetry(&sample_record());
    payload[36] = 101;
    assert_eq!(decode_telemetry(&payload), Err(CodecError::OutOfRange));
}

#[test]
fn telemetry_nan_is_out_of_range() {
    // a non-finite field can only appear by patching the encoded bytes
    let mut payload = encode_telemetry(&sample_record());
    let nan = f32::NAN.to_bits().to_le_bytes();
    payload[24..28].copy_from_slice(&nan);
    assert_eq!(decode_telemetry(&payload), Err(CodecError::OutOfRange));
}

#[test]
fn telemetry_infinity_is_out_of_range() {
    let mut payload = encode_telemetry(&sample_record());
    let inf = f32::INFINITY.to_bits().to_le_bytes();
    payload[28..32].copy_from_slice(&inf);
    assert_eq!(decode_telemetry(&payload), Err(CodecError::OutOfRange));
}

#[test]
fn telemetry_negative_id_is_out_of_range() {
    let mut payload = encode_telemetry(&sample_record());
    // the satellite id's top byte with the sign bit set reads above i64::MAX
    payload[7] = 0x80;
    assert_eq!(decode_telemetry(&payload), Err(CodecError::OutOfRange));
}

#[test]
fn status_report_round_trip() {
    for status in [
        JobStatus::Sent,
        JobStatus::Received,
        JobStatus::Started,
        JobStatus::Completed,
        JobStatus::Error,
    ] {
        let s = StatusReport { status, timestamp: 1_700_000_000 };
        let payload = encode_status_report(&s);
        assert_eq!(payload.len(), STATUS_REPORT_LEN);
        assert_eq!(decode_status_report(&payload), Ok(s));
    }
}

#[test]
fn status_report_exact_layout() {
    let s = StatusReport { status: JobStatus::Started, timestamp: 5 };
    assert_eq!(encode_status_report(&s), vec![2, 5, 0, 0, 0, 0, 0, 0, 0]);
}

#[test]
fn status_report_wrong_length_is_malformed() {
    assert_eq!(decode_status_report(&[]), Err(CodecError::Malformed));
    assert_eq!(decode_status_report(&[0u8; 8]), Err(CodecError::Malformed));
    assert_eq!(decode_status_report(&[0u8; 10]), Err(CodecError::Malformed));
}

#[test]
fn status_report_unknown_code_is_malformed() {
    let payload = vec![5, 0, 0, 0, 0, 0, 0, 0, 0];
    assert_eq!(decode_status_report(&payload), Err(CodecError::Malformed));
}

#[test]
fn status_report_negative_timestamp_is_out_of_range() {
    let mut payload = vec![0u8; 9];
    payload[8] = 0x80; // timestamp reads above i64::MAX
    assert_eq!(decode_status_report(&payload), Err(CodecError::OutOfRange));
}
