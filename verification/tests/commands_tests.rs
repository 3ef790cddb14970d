use rustar_api::commands::{
    command_topic, commands_to_bytes, decode_commands, encode_commands, i64_to_string,
    job_publish_request, u64_to_string,
};
use rustar_api::entities::Job;

#[test]
fn command_frame_round_trip() {
    let cmds: Vec<Vec<u8>> = vec![b"point 42".to_vec(), b"uplink".to_vec(), vec![]];
    let frame = encode_commands(&cmds).unwrap();
    assert_eq!(decode_commands(&frame), Some(cmds));
}

#[test]
fn empty_command_list_round_trip() {
    let cmds: Vec<Vec<u8>> = vec![];
    let frame = encode_commands(&cmds).unwrap();
    assert_eq!(frame, vec![0, 0, 0, 0]);
    assert_eq!(decode_commands(&frame), Some(cmds));
}

#[test]
fn command_frame_exact_layout() {
    let cmds: Vec<Vec<u8>> = vec![vec![0xAA, 0xBB]];
    let frame = encode_commands(&cmds).unwrap();
    assert_eq!(frame, vec![1, 0, 0, 0, 2, 0, 0, 0, 0xAA, 0xBB]);
}

#[test]
fn short_or_trailing_frames_are_refused() {
    assert_eq!(decode_commands(&[]), None);
    assert_eq!(decode_commands(&[1, 0, 0]), None);
    // count says one command but nothing follows
    assert_eq!(decode_commands(&[1, 0, 0, 0]), None);
    // command length runs past the end
    assert_eq!(decode_commands(&[1, 0, 0, 0, 5, 0, 0, 0, 1]), None);
    // trailing garbage after the last command
    assert_eq!(decode_commands(&[1, 0, 0, 0, 1, 0, 0, 0, 9, 7]), None);
    // count smaller than the data supplied
    assert_eq!(decode_commands(&[0, 0, 0, 0, 1]), None);
}

#[test]
fn decimal_rendering_exact_values() {
    assert_eq!(u64_to_string(0), "0");
    assert_eq!(u64_to_string(7), "7");
    assert_eq!(u64_to_string(42), "42");
    assert_eq!(u64_to_string(1000), "1000");
    assert_eq!(u64_to_string(u64::MAX), "18446744073709551615");
    assert_eq!(i64_to_string(0), "0");
    assert_eq!(i64_to_string(-1), "-1");
    assert_eq!(i64_to_string(i64::MAX), "9223372036854775807");
    assert_eq!(i64_to_string(i64::MIN), "-9223372036854775808");
}

#[test]
fn command_topic_names_the_pairing() {
    assert_eq!(command_topic(3, 9), "gs/3/commands/9");
    assert_eq!(command_topic(10, 42), "gs/10/commands/42");
}

#[test]
fn job_publish_request_frames_the_commands() {
    let job = Job {
        id: 1,
        gs_id: 3,
        sat_id: 9,
        start_time: 0,
        end_time: 0,
        commands: vec!["point 42".to_string(), "uplink".to_string()],
    };
    let (topic, payload) = job_publish_request(&job).unwrap();
    assert_eq!(topic, "gs/3/commands/9");
    let decoded = decode_commands(&payload).unwrap();
    assert_eq!(decoded, vec![b"point 42".to_vec(), b"uplink".to_vec()]);
}

#[test]
fn commands_to_bytes_is_utf8() {
    let out = commands_to_bytes(&vec!["abc".to_string(), "°".to_string()]);
    assert_eq!(out, vec![b"abc".to_vec(), "°".as_bytes().to_vec()]);
}
