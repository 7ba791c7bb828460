use orchestrator_client::client::{Measurement, OrchestratorClient};
use orchestrator_client::error::ClientError;
use orchestrator_client::message::Message;
use orchestrator_client::schema::{
    GetProofTaskRequest, GetProofTaskResponse, NodeTelemetry, SubmitProofRequest,
};
use orchestrator_client::transport::{
    is_success, read_response, same_text, HttpCall, Method, Reply,
};
use std::cell::Cell;

fn client() -> OrchestratorClient {
    OrchestratorClient::new("https://orchestrator.example".to_string())
}

fn measurement() -> Measurement {
    Measurement { flops_per_sec: 1200, memory_used: 4096, memory_capacity: 65536 }
}

fn task() -> GetProofTaskResponse {
    GetProofTaskResponse { program_id: "fast-fib".to_string(), public_inputs: vec![9, 0, 0, 0] }
}

fn completed(status: u16, body: &[u8]) -> Reply {
    Reply::Completed { status, body: body.to_vec() }
}

#[test]
fn new_keeps_the_base_address() {
    assert_eq!(client().base_url(), "https://orchestrator.example");
    assert_eq!(OrchestratorClient::new(String::new()).base_url(), "");
}

#[test]
fn fetch_builds_a_post_to_tasks() {
    let call = client().get_proof_task("node-1").unwrap();
    assert_eq!(
        call,
        HttpCall {
            method: Method::Post,
            url: "https://orchestrator.example/tasks".to_string(),
            content_type: "application/octet-stream",
            body: vec![0x0A, 0x06, b'n', b'o', b'd', b'e', b'-', b'1', 0x10, 0x01],
        }
    );
}

#[test]
fn fetch_body_is_the_request() {
    let call = client().get_proof_task("node-1").unwrap();
    assert_eq!(
        GetProofTaskRequest::decode(&call.body).unwrap(),
        GetProofTaskRequest { node_id: "node-1".to_string(), node_type: 1 }
    );
}

#[test]
fn empty_identifier_builds_no_call() {
    assert_eq!(client().get_proof_task(""), Err(ClientError::InvalidNodeId));
}

#[test]
fn blank_identifier_is_not_empty() {
    assert!(client().get_proof_task(" ").is_ok());
}

#[test]
fn submit_builds_a_post_to_tasks_submit() {
    let call = client().submit_proof("node-1", "abc123", vec![1, 2, 3], measurement).unwrap();
    assert_eq!(call.method, Method::Post);
    assert_eq!(call.url, "https://orchestrator.example/tasks/submit");
    assert_eq!(call.content_type, "application/octet-stream");
    assert_eq!(
        SubmitProofRequest::decode(&call.body).unwrap(),
        SubmitProofRequest {
            node_id: "node-1".to_string(),
            node_type: 1,
            proof_hash: "abc123".to_string(),
            node_telemetry: Some(NodeTelemetry {
                flops_per_sec: Some(1200),
                memory_used: Some(4096),
                memory_capacity: Some(65536),
                location: Some("US".to_string()),
            }),
            proof: vec![1, 2, 3],
        }
    );
}

#[test]
fn submit_sends_zero_readings() {
    let zero = || Measurement { flops_per_sec: 0, memory_used: 0, memory_capacity: 0 };
    let call = client().submit_proof("n", "h", vec![1], zero).unwrap();
    let request = SubmitProofRequest::decode(&call.body).unwrap();
    let telemetry = request.node_telemetry.unwrap();
    assert_eq!(telemetry.flops_per_sec, Some(0));
    assert_eq!(telemetry.memory_used, Some(0));
    assert_eq!(telemetry.memory_capacity, Some(0));
}

#[test]
fn empty_proof_builds_no_call_and_measures_nothing() {
    let measured = Cell::new(0);
    let result = client().submit_proof("node-1", "abc123", vec![], || {
        measured.set(measured.get() + 1);
        measurement()
    });
    assert_eq!(result, Err(ClientError::EmptyProof));
    assert_eq!(measured.get(), 0);
}

#[test]
fn proof_is_measured_once() {
    let measured = Cell::new(0);
    let result = client().submit_proof("node-1", "abc123", vec![7], || {
        measured.set(measured.get() + 1);
        measurement()
    });
    assert!(result.is_ok());
    assert_eq!(measured.get(), 1);
}

#[test]
fn submit_accepts_an_empty_identifier() {
    assert!(client().submit_proof("", "", vec![1], measurement).is_ok());
}

#[test]
fn make_request_joins_base_and_path() {
    let request = GetProofTaskRequest { node_id: "x".to_string(), node_type: 0 };
    let call = client().make_request("/anything", "GET", &request).unwrap();
    assert_eq!(call.method, Method::Get);
    assert_eq!(call.url, "https://orchestrator.example/anything");
    assert_eq!(call.body, request.encode_to_vec());
}

#[test]
fn make_request_refuses_other_methods() {
    let request = GetProofTaskRequest { node_id: "x".to_string(), node_type: 0 };
    for token in ["PUT", "DELETE", "post", "get", "", "POST ", "POSTS"] {
        assert_eq!(
            client().make_request("/tasks", token, &request),
            Err(ClientError::UnsupportedMethod),
            "token {:?}",
            token
        );
    }
}

#[test]
fn method_tokens() {
    assert_eq!(Method::from_token("POST"), Ok(Method::Post));
    assert_eq!(Method::from_token("GET"), Ok(Method::Get));
    assert_eq!(Method::from_token("HEAD"), Err(ClientError::UnsupportedMethod));
    assert_eq!(Method::Post.token(), "POST");
    assert_eq!(Method::Get.token(), "GET");
}

#[test]
fn same_text_compares_exactly() {
    assert!(same_text("", ""));
    assert!(same_text("POST", "POST"));
    assert!(!same_text("POST", "POSt"));
    assert!(!same_text("POST", "POS"));
    assert!(!same_text("a", "\u{00E4}"));
    assert!(same_text("\u{1F980}", "\u{1F980}"));
}

#[test]
fn success_is_2xx() {
    assert!(!is_success(0));
    assert!(!is_success(199));
    assert!(is_success(200));
    assert!(is_success(204));
    assert!(is_success(299));
    assert!(!is_success(300));
    assert!(!is_success(503));
    assert!(!is_success(u16::MAX));
}

#[test]
fn fetch_scenario_returns_the_task() {
    let call = client().get_proof_task("node-1");
    assert!(call.is_ok());
    let reply = completed(200, &task().encode_to_vec());
    assert_eq!(OrchestratorClient::read_proof_task(&reply), Ok(task()));
}

#[test]
fn fetch_scenario_overloaded() {
    let reply = completed(503, b"overloaded");
    let error = OrchestratorClient::read_proof_task(&reply).unwrap_err();
    assert_eq!(error, ClientError::Status { code: 503, body: "overloaded".to_string() });
    assert!(error.message().contains("503"));
    assert!(error.message().contains("overloaded"));
}

#[test]
fn fetch_scenario_empty_body() {
    let reply = completed(200, b"");
    let error = OrchestratorClient::read_proof_task(&reply).unwrap_err();
    assert_eq!(error, ClientError::EmptyResponse);
    assert_eq!(error.message(), "Empty response from orchestrator");
}

#[test]
fn submit_empty_body_is_success() {
    assert_eq!(OrchestratorClient::read_submission(&completed(200, b"")), Ok(()));
    assert_eq!(OrchestratorClient::read_submission(&completed(204, b"")), Ok(()));
}

#[test]
fn submit_discards_a_well_formed_body() {
    let reply = completed(200, &task().encode_to_vec());
    assert_eq!(OrchestratorClient::read_submission(&reply), Ok(()));
}

#[test]
fn submit_rejects_a_malformed_body() {
    let error = OrchestratorClient::read_submission(&completed(200, &[0x0A, 0x05, 1])).unwrap_err();
    assert!(matches!(error, ClientError::Decode { .. }));
}

#[test]
fn unreachable_service_fails_both_operations() {
    assert_eq!(
        OrchestratorClient::read_proof_task(&Reply::Unreachable),
        Err(ClientError::ConnectionFailed)
    );
    assert_eq!(
        OrchestratorClient::read_submission(&Reply::Unreachable),
        Err(ClientError::ConnectionFailed)
    );
}

#[test]
fn every_other_status_is_reported_with_its_body() {
    for status in [0u16, 100, 199, 300, 301, 400, 404, 418, 500, 503, 999, u16::MAX] {
        let expected = ClientError::Status { code: status, body: "no".to_string() };
        assert_eq!(
            OrchestratorClient::read_proof_task(&completed(status, b"no")),
            Err(expected.clone())
        );
        assert_eq!(OrchestratorClient::read_submission(&completed(status, b"no")), Err(expected));
    }
}

#[test]
fn failure_status_wins_over_the_body() {
    // a body that would decode, and an empty one
    let error = OrchestratorClient::read_proof_task(&completed(500, &task().encode_to_vec()));
    assert!(matches!(error, Err(ClientError::Status { code: 500, .. })));
    assert_eq!(
        OrchestratorClient::read_proof_task(&completed(404, b"")),
        Err(ClientError::Status { code: 404, body: String::new() })
    );
}

#[test]
fn body_that_is_not_utf8_is_reported_with_replacements() {
    let error = OrchestratorClient::read_submission(&completed(500, &[b'a', 0xFF, b'b']));
    assert_eq!(error, Err(ClientError::Status { code: 500, body: "a\u{FFFD}b".to_string() }));
}

#[test]
fn truncated_task_fails_to_decode() {
    let mut body = task().encode_to_vec();
    body.pop();
    let error = OrchestratorClient::read_proof_task(&completed(200, &body)).unwrap_err();
    match &error {
        ClientError::Decode { diagnostic } => assert!(diagnostic.contains("buffer underflow")),
        other => panic!("unexpected {:?}", other),
    }
    assert!(error.message().starts_with("Protobuf decode error: "));
}

#[test]
fn every_success_status_decodes() {
    for status in [200u16, 201, 202, 250, 299] {
        let reply = completed(status, &task().encode_to_vec());
        assert_eq!(OrchestratorClient::read_proof_task(&reply), Ok(task()));
    }
}

#[test]
fn read_response_tells_absent_from_present() {
    let absent: Result<Option<GetProofTaskResponse>, ClientError> =
        read_response(&completed(200, b""));
    assert_eq!(absent, Ok(None));
    let present: Result<Option<GetProofTaskResponse>, ClientError> =
        read_response(&completed(200, &task().encode_to_vec()));
    assert_eq!(present, Ok(Some(task())));
    let unit: Result<Option<()>, ClientError> = read_response(&completed(200, &[0x08, 0x01]));
    assert_eq!(unit, Ok(Some(())));
}
