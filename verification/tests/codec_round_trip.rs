use action_dispatch::codec::{decode_message, encode_message};
use action_dispatch::messages::{
    DispatchJob, JobComplete, JobOutCome, Message, MessageError, RegisterAgent,
};

fn round_trip(msg: Message) -> Message {
    let bytes = encode_message(&msg).expect("encoding must succeed");
    decode_message(&bytes).expect("decoding an encoder output must succeed")
}

#[test]
fn ping_round_trip_and_exact_bytes() {
    let bytes = encode_message(&Message::Ping).unwrap();
    assert_eq!(bytes, vec![0u8]);
    assert_eq!(round_trip(Message::Ping), Message::Ping);
}

#[test]
fn register_agent_round_trip() {
    let msg = Message::RegisterAgent(RegisterAgent {
        name: "alpha".to_string(),
        hostname: "127.0.0.1".to_string(),
        port: 9001,
    });
    assert_eq!(round_trip(msg.clone()), msg);
}

#[test]
fn register_agent_exact_bytes() {
    let msg = Message::RegisterAgent(RegisterAgent {
        name: "ab".to_string(),
        hostname: "h".to_string(),
        port: 258,
    });
    let bytes = encode_message(&msg).unwrap();
    let expected = vec![
        1u8, // tag
        0, 0, 0, 2, b'a', b'b', // name
        0, 0, 0, 1, b'h', // hostname
        1, 2, // port 258 big-endian
    ];
    assert_eq!(bytes, expected);
}

#[test]
fn dispatch_job_round_trip_with_all_fields() {
    let msg = Message::DispatchJob(DispatchJob {
        job_name: "j1".to_string(),
        command: "/bin/true".to_string(),
        args: "-a -b".to_string(),
        agent_name: Some("alpha".to_string()),
        valid_return_codes: Some(vec![0, 2, -1]),
    });
    assert_eq!(round_trip(msg.clone()), msg);
}

#[test]
fn dispatch_job_round_trip_with_absent_fields() {
    let msg = Message::DispatchJob(DispatchJob {
        job_name: "".to_string(),
        command: "".to_string(),
        args: "".to_string(),
        agent_name: None,
        valid_return_codes: None,
    });
    assert_eq!(round_trip(msg.clone()), msg);
}

#[test]
fn job_complete_round_trip() {
    let msg = Message::JobComplete(JobComplete {
        started_at: -123456789,
        completed_at: 987654321,
        job_name: "nightly".to_string(),
        command: "/bin/false".to_string(),
        agent_name: "beta".to_string(),
        return_code: -1,
        outcome: JobOutCome::Failure,
        output: "no such file".to_string(),
    });
    assert_eq!(round_trip(msg.clone()), msg);
}

#[test]
fn non_ascii_strings_survive_the_round_trip() {
    let msg = Message::RegisterAgent(RegisterAgent {
        name: "ágent-ß".to_string(),
        hostname: "höst.example".to_string(),
        port: 65535,
    });
    assert_eq!(round_trip(msg.clone()), msg);
}

#[test]
fn decode_rejects_empty_input() {
    assert_eq!(
        decode_message(&Vec::new()),
        Err(MessageError::SerializationError)
    );
}

#[test]
fn decode_rejects_unknown_tag() {
    assert_eq!(
        decode_message(&vec![9u8]),
        Err(MessageError::SerializationError)
    );
}

#[test]
fn decode_rejects_truncated_frame_body() {
    let msg = Message::RegisterAgent(RegisterAgent {
        name: "alpha".to_string(),
        hostname: "h".to_string(),
        port: 1,
    });
    let mut bytes = encode_message(&msg).unwrap();
    bytes.pop();
    assert_eq!(decode_message(&bytes), Err(MessageError::SerializationError));
}

#[test]
fn decode_rejects_trailing_bytes() {
    let mut bytes = encode_message(&Message::Ping).unwrap();
    bytes.push(0);
    assert_eq!(decode_message(&bytes), Err(MessageError::SerializationError));
}

#[test]
fn decode_rejects_invalid_utf8_in_string_field() {
    // tag RegisterAgent, name of length 1 holding a lone continuation byte
    let bytes = vec![1u8, 0, 0, 0, 1, 0x80, 0, 0, 0, 0, 0, 0];
    assert_eq!(decode_message(&bytes), Err(MessageError::SerializationError));
}

#[test]
fn outcome_codes_match_the_store_encoding() {
    assert_eq!(i32::from(JobOutCome::Failure), 0);
    assert_eq!(i32::from(JobOutCome::Success), 1);
    assert_eq!(i32::from(JobOutCome::Unknown), 2);
    assert_eq!(JobOutCome::from(0), JobOutCome::Failure);
    assert_eq!(JobOutCome::from(1), JobOutCome::Success);
    assert_eq!(JobOutCome::from(7), JobOutCome::Unknown);
}
