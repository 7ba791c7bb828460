use orchestrator_client::message::{merge, Fields, Message};
use orchestrator_client::schema::{
    GetProofTaskRequest, GetProofTaskResponse, NodeTelemetry, NodeType, SubmitProofRequest,
};

fn telemetry() -> NodeTelemetry {
    NodeTelemetry {
        flops_per_sec: Some(1),
        memory_used: Some(2),
        memory_capacity: Some(3),
        location: Some("US".to_string()),
    }
}

fn submission() -> SubmitProofRequest {
    SubmitProofRequest {
        node_id: "n".to_string(),
        node_type: 1,
        proof_hash: "h".to_string(),
        node_telemetry: Some(telemetry()),
        proof: vec![1, 2, 3],
    }
}

#[test]
fn node_type_numbers() {
    assert_eq!(NodeType::WebProver.number(), 0);
    assert_eq!(NodeType::CliProver.number(), 1);
    assert_eq!(NodeType::from_number(0), Some(NodeType::WebProver));
    assert_eq!(NodeType::from_number(1), Some(NodeType::CliProver));
    assert_eq!(NodeType::from_number(2), None);
    assert_eq!(NodeType::from_number(-1), None);
}

#[test]
fn task_request_bytes() {
    let request = GetProofTaskRequest { node_id: "node-1".to_string(), node_type: 1 };
    assert_eq!(
        request.encode_to_vec(),
        vec![0x0A, 0x06, b'n', b'o', b'd', b'e', b'-', b'1', 0x10, 0x01]
    );
}

#[test]
fn default_values_are_not_written() {
    let request = GetProofTaskRequest { node_id: String::new(), node_type: 0 };
    assert_eq!(request.encode_to_vec(), Vec::<u8>::new());
    let task = GetProofTaskResponse { program_id: String::new(), public_inputs: vec![] };
    assert_eq!(task.encode_to_vec(), Vec::<u8>::new());
}

#[test]
fn encode_raw_appends() {
    let request = GetProofTaskRequest { node_id: "a".to_string(), node_type: 0 };
    let mut buf = vec![0xEE];
    request.encode_raw(&mut buf);
    assert_eq!(buf, vec![0xEE, 0x0A, 0x01, b'a']);
}

#[test]
fn task_request_agrees_with_prost_string_message() {
    let request = GetProofTaskRequest { node_id: "abc".to_string(), node_type: 0 };
    let by_prost = prost::Message::encode_to_vec(&"abc".to_string());
    assert_eq!(request.encode_to_vec(), by_prost);
}

#[test]
fn telemetry_agrees_with_prost_int32_message() {
    let only_flops = NodeTelemetry {
        flops_per_sec: Some(-7),
        memory_used: None,
        memory_capacity: None,
        location: None,
    };
    let by_prost = prost::Message::encode_to_vec(&-7i32);
    assert_eq!(only_flops.encode_to_vec(), by_prost);
}

#[test]
fn task_response_agrees_with_prost_on_decoding() {
    let bytes = prost::Message::encode_to_vec(&"fib".to_string());
    let task = GetProofTaskResponse::decode(&bytes).unwrap();
    assert_eq!(task, GetProofTaskResponse { program_id: "fib".to_string(), public_inputs: vec![] });
}

#[test]
fn telemetry_bytes() {
    assert_eq!(
        telemetry().encode_to_vec(),
        vec![0x08, 0x01, 0x10, 0x02, 0x18, 0x03, 0x22, 0x02, b'U', b'S']
    );
}

#[test]
fn present_zero_is_written() {
    let zeros = NodeTelemetry {
        flops_per_sec: Some(0),
        memory_used: None,
        memory_capacity: Some(0),
        location: Some(String::new()),
    };
    let bytes = zeros.encode_to_vec();
    assert_eq!(bytes, vec![0x08, 0x00, 0x18, 0x00, 0x22, 0x00]);
    assert_eq!(NodeTelemetry::decode(&bytes).unwrap(), zeros);
}

#[test]
fn negative_number_takes_ten_bytes() {
    let negative = NodeTelemetry {
        flops_per_sec: Some(-1),
        memory_used: None,
        memory_capacity: None,
        location: None,
    };
    let bytes = negative.encode_to_vec();
    assert_eq!(
        bytes,
        vec![0x08, 0xFF, 0xFF, 0xFF, 0xFF, 0xFF, 0xFF, 0xFF, 0xFF, 0xFF, 0x01]
    );
    assert_eq!(NodeTelemetry::decode(&bytes).unwrap(), negative);
}

#[test]
fn extreme_numbers_round_trip() {
    for number in [i32::MIN, -2, -1, 0, 1, 127, 128, 300, 16384, i32::MAX] {
        let value = NodeTelemetry {
            flops_per_sec: Some(number),
            memory_used: Some(number),
            memory_capacity: None,
            location: None,
        };
        assert_eq!(NodeTelemetry::decode(&value.encode_to_vec()).unwrap(), value);
    }
}

#[test]
fn varint_of_300() {
    let value = NodeTelemetry {
        flops_per_sec: Some(300),
        memory_used: None,
        memory_capacity: None,
        location: None,
    };
    assert_eq!(value.encode_to_vec(), vec![0x08, 0xAC, 0x02]);
}

#[test]
fn submission_bytes() {
    let mut expected = vec![0x0A, 0x01, b'n', 0x10, 0x01, 0x1A, 0x01, b'h', 0x22, 0x0A];
    expected.extend_from_slice(&telemetry().encode_to_vec());
    expected.extend_from_slice(&[0x2A, 0x03, 1, 2, 3]);
    assert_eq!(submission().encode_to_vec(), expected);
}

#[test]
fn task_response_bytes() {
    let task = GetProofTaskResponse { program_id: "fib".to_string(), public_inputs: vec![9] };
    assert_eq!(task.encode_to_vec(), vec![0x0A, 0x03, b'f', b'i', b'b', 0x12, 0x01, 0x09]);
}

#[test]
fn task_request_round_trip() {
    let request = GetProofTaskRequest { node_id: "node-1".to_string(), node_type: 1 };
    assert_eq!(GetProofTaskRequest::decode(&request.encode_to_vec()).unwrap(), request);
}

#[test]
fn task_response_round_trip() {
    let task = GetProofTaskResponse {
        program_id: "fast-fib".to_string(),
        public_inputs: vec![0, 255, 128, 7],
    };
    assert_eq!(GetProofTaskResponse::decode(&task.encode_to_vec()).unwrap(), task);
}

#[test]
fn telemetry_round_trip() {
    assert_eq!(NodeTelemetry::decode(&telemetry().encode_to_vec()).unwrap(), telemetry());
}

#[test]
fn submission_round_trip() {
    assert_eq!(SubmitProofRequest::decode(&submission().encode_to_vec()).unwrap(), submission());
}

#[test]
fn submission_without_telemetry_round_trip() {
    let mut value = submission();
    value.node_telemetry = None;
    value.node_id = String::new();
    assert_eq!(SubmitProofRequest::decode(&value.encode_to_vec()).unwrap(), value);
}

#[test]
fn blank_telemetry_is_present_after_round_trip() {
    let mut value = submission();
    value.node_telemetry = Some(NodeTelemetry::decode(&[]).unwrap());
    let bytes = value.encode_to_vec();
    assert_eq!(SubmitProofRequest::decode(&bytes).unwrap(), value);
}

#[test]
fn text_beyond_ascii_round_trip() {
    let node_id = "n\u{00F8}de-\u{1F980}".to_string();
    let request = GetProofTaskRequest { node_id, node_type: 1 };
    let bytes = request.encode_to_vec();
    assert_eq!(bytes[1] as usize, "n\u{00F8}de-\u{1F980}".len());
    assert_eq!(GetProofTaskRequest::decode(&bytes).unwrap(), request);
}

#[test]
fn long_payload_has_a_two_byte_length() {
    let task = GetProofTaskResponse { program_id: String::new(), public_inputs: vec![7; 200] };
    let bytes = task.encode_to_vec();
    assert_eq!(&bytes[..3], &[0x12, 0xC8, 0x01]);
    assert_eq!(bytes.len(), 203);
    assert_eq!(GetProofTaskResponse::decode(&bytes).unwrap(), task);
}

#[test]
fn empty_buffer_is_the_blank_message() {
    assert_eq!(
        GetProofTaskResponse::decode(&[]).unwrap(),
        GetProofTaskResponse { program_id: String::new(), public_inputs: vec![] }
    );
}

#[test]
fn later_field_wins() {
    let bytes = [0x0A, 0x01, b'a', 0x0A, 0x01, b'b'];
    assert_eq!(GetProofTaskResponse::decode(&bytes).unwrap().program_id, "b");
}

#[test]
fn repeated_telemetry_is_merged() {
    let bytes = [0x22, 0x02, 0x08, 0x05, 0x22, 0x02, 0x10, 0x06];
    let value = SubmitProofRequest::decode(&bytes).unwrap();
    let merged = value.node_telemetry.unwrap();
    assert_eq!(merged.flops_per_sec, Some(5));
    assert_eq!(merged.memory_used, Some(6));
}

#[test]
fn unknown_fields_are_skipped() {
    let bytes = [
        0x0A, 0x01, b'p', // program_id
        0x1A, 0x02, b'i', b'd', // field 3, length-delimited
        0x20, 0x96, 0x01, // field 4, varint
        0x2D, 1, 2, 3, 4, // field 5, four bytes
        0x31, 1, 2, 3, 4, 5, 6, 7, 8, // field 6, eight bytes
        0x12, 0x01, 0x09, // public_inputs
    ];
    assert_eq!(
        GetProofTaskResponse::decode(&bytes).unwrap(),
        GetProofTaskResponse { program_id: "p".to_string(), public_inputs: vec![9] }
    );
}

#[test]
fn truncated_payload_is_rejected() {
    let task = GetProofTaskResponse { program_id: "fib".to_string(), public_inputs: vec![9, 9] };
    let mut bytes = task.encode_to_vec();
    bytes.pop();
    assert!(GetProofTaskResponse::decode(&bytes).is_err());
}

#[test]
fn every_cut_inside_the_last_field_is_rejected() {
    let task = GetProofTaskResponse { program_id: String::new(), public_inputs: vec![1, 2, 3, 4] };
    let bytes = task.encode_to_vec();
    for end in 1..bytes.len() {
        assert!(GetProofTaskResponse::decode(&bytes[..end]).is_err(), "cut at {}", end);
    }
}

#[test]
fn wrong_wire_type_is_rejected() {
    // program_id announced as a varint
    assert!(GetProofTaskResponse::decode(&[0x08, 0x01]).is_err());
    // node_type announced as length-delimited
    assert!(GetProofTaskRequest::decode(&[0x12, 0x01, 0x01]).is_err());
}

#[test]
fn tag_zero_is_rejected() {
    assert!(GetProofTaskResponse::decode(&[0x02, 0x00]).is_err());
}

#[test]
fn wire_types_six_and_seven_are_rejected() {
    assert!(GetProofTaskResponse::decode(&[0x0E, 0x00]).is_err());
    assert!(GetProofTaskResponse::decode(&[0x0F, 0x00]).is_err());
}

#[test]
fn text_that_is_not_utf8_is_rejected() {
    assert!(GetProofTaskResponse::decode(&[0x0A, 0x02, 0xC3, 0x28]).is_err());
    // the same bytes are fine as a payload
    assert!(GetProofTaskResponse::decode(&[0x12, 0x02, 0xC3, 0x28]).is_ok());
}

#[test]
fn overlong_varint_is_rejected() {
    let mut bytes = vec![0x20];
    bytes.extend_from_slice(&[0xFF; 9]);
    bytes.push(0x02);
    assert!(GetProofTaskResponse::decode(&bytes).is_err());
    let mut bytes = vec![0x20];
    bytes.extend_from_slice(&[0xFF; 9]);
    bytes.push(0x01);
    assert!(GetProofTaskResponse::decode(&bytes).is_ok());
    let mut bytes = vec![0x20];
    bytes.extend_from_slice(&[0x80; 10]);
    bytes.push(0x00);
    assert!(GetProofTaskResponse::decode(&bytes).is_err());
}

#[test]
fn number_keeps_the_low_32_bits() {
    // node_type = 2^32 + 5
    let bytes = [0x10, 0x85, 0x80, 0x80, 0x80, 0x10];
    assert_eq!(GetProofTaskRequest::decode(&bytes).unwrap().node_type, 5);
}

#[test]
fn malformed_telemetry_fails_the_submission() {
    assert!(SubmitProofRequest::decode(&[0x22, 0x01, 0x08]).is_err());
    assert!(SubmitProofRequest::decode(&[0x22, 0x05, 0x08]).is_err());
}

#[test]
fn unit_message_is_empty() {
    assert_eq!(().encode_to_vec(), Vec::<u8>::new());
    assert_eq!(<() as Message>::decode(&[]), Ok(()));
}

#[test]
fn unit_message_skips_well_formed_fields() {
    assert_eq!(<() as Message>::decode(&[0x08, 0x01, 0x12, 0x01, 0xFF]), Ok(()));
    assert!(<() as Message>::decode(&[0x08]).is_err());
    assert!(<() as Message>::decode(&[0x12, 0x02, 0x00]).is_err());
    assert!(<() as Message>::decode(&[0x0D, 1, 2, 3]).is_err());
    assert!(<() as Message>::decode(&[0x09, 1, 2, 3, 4, 5, 6, 7]).is_err());
}

#[test]
fn groups_are_skipped_as_a_whole() {
    // field 1 opens a group that holds a varint field and is closed again
    assert_eq!(<() as Message>::decode(&[0x0B, 0x10, 0x01, 0x0C]), Ok(()));
    // closed with another tag
    assert!(<() as Message>::decode(&[0x0B, 0x10, 0x01, 0x14]).is_err());
    // never closed
    assert!(<() as Message>::decode(&[0x0B, 0x10, 0x01]).is_err());
    // closed without being opened
    assert!(<() as Message>::decode(&[0x0C]).is_err());
    // a task skips the group too
    let task = GetProofTaskResponse::decode(&[0x1B, 0x1C, 0x0A, 0x01, b'p']).unwrap();
    assert_eq!(task.program_id, "p");
}

#[test]
fn new_messages_are_blank() {
    assert_eq!(
        GetProofTaskRequest::new(),
        GetProofTaskRequest { node_id: String::new(), node_type: 0 }
    );
    assert_eq!(
        NodeTelemetry::new(),
        NodeTelemetry {
            flops_per_sec: None,
            memory_used: None,
            memory_capacity: None,
            location: None
        }
    );
    assert_eq!(SubmitProofRequest::new().node_telemetry, None);
    assert_eq!(GetProofTaskResponse::new().encode_to_vec(), Vec::<u8>::new());
}

#[test]
fn merge_keeps_what_the_buffer_does_not_set() {
    let start = GetProofTaskRequest { node_id: "kept".to_string(), node_type: 7 };
    let merged = merge(start, &[0x10, 0x01]).unwrap();
    assert_eq!(merged, GetProofTaskRequest { node_id: "kept".to_string(), node_type: 1 });
}

#[test]
fn merge_field_reads_one_field_and_leaves_the_rest() {
    let start = GetProofTaskRequest::new();
    let (message, rest) = start.merge_field(1, 2, &[0x02, b'h', b'i', 0x10, 0x01]).unwrap();
    assert_eq!(message.node_id, "hi");
    assert_eq!(rest, &[0x10, 0x01]);
    let (message, rest) = message.merge_field(9, 0, &[0x05, 0xAA]).unwrap();
    assert_eq!(message.node_id, "hi");
    assert_eq!(rest, &[0xAA]);
    assert!(message.merge_field(1, 7, &[0x00]).is_err());
}
