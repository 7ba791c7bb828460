//! The client: the two operations on the orchestrator, each as the call to
//! send and the reading of the reply.

use crate::error::{ClientError, Failure};
use crate::message::{lemma_cut_field, lemma_merge_string, merge_all, Fields, Message};
use crate::schema::{
    GetProofTaskRequest, GetProofTaskRequestView, GetProofTaskResponse, GetProofTaskResponseView,
    NodeTelemetry, NodeTelemetryView, NodeType, SubmitProofRequest, SubmitProofRequestView,
};
use crate::transport::{
    call_to, call_view, lossy_text, read_response, response, spec_is_success, HttpCall,
    HttpCallView, Method, Reply, ReplyView, CONTENT_TYPE,
};
use crate::wire::{bytes_field, text_field};
use vstd::prelude::*;
use vstd::string::*;
use vstd::utf8::{decode_utf8, encode_utf8, encode_utf8_decode_utf8, valid_utf8};

verus! {

/// A client of one orchestrator, known by the base address of the service.
#[derive(Debug, Clone, PartialEq, Eq)]
pub struct OrchestratorClient {
    base_url: String,
}

impl View for OrchestratorClient {
    type V = Seq<char>;

    /// The base address of the service.
    closed spec fn view(&self) -> Seq<char> {
        self.base_url@
    }
}

/// The path under which tasks are fetched.
pub const TASKS_PATH: &'static str = "/tasks";

/// The path under which proofs are submitted.
pub const SUBMIT_PATH: &'static str = "/tasks/submit";

/// The location that is reported for every node.
pub const LOCATION: &'static str = "US";

/// What a node has measured of itself.
#[derive(Debug, Clone, Copy, PartialEq, Eq)]
pub struct Measurement {
    /// An estimate of the node's throughput, in operations per second.
    pub flops_per_sec: i32,
    /// The memory that the process uses, in bytes.
    pub memory_used: i32,
    /// The memory of the machine, in bytes.
    pub memory_capacity: i32,
}

/// The request that asks for a task on behalf of the node `node_id`.
pub open spec fn task_request(node_id: Seq<char>) -> GetProofTaskRequestView {
    GetProofTaskRequestView { node_id, node_type: NodeType::CliProver.spec_number() }
}

/// The call that fetches a task for the node `node_id` from the service at
/// `base`; the failure where the identifier is empty.
pub open spec fn fetch_call(base: Seq<char>, node_id: Seq<char>) -> Result<HttpCallView, Failure> {
    if node_id.len() == 0 {
        Err(Failure::InvalidNodeId)
    } else {
        call_to(
            base,
            TASKS_PATH@,
            Method::Post.spec_token(),
            GetProofTaskRequest::encoded(task_request(node_id)),
        )
    }
}

/// The telemetry that is sent for a measurement: every reading present, and
/// the fixed location.
pub open spec fn telemetry_of(measurement: Measurement) -> NodeTelemetryView {
    NodeTelemetryView {
        flops_per_sec: Some(measurement.flops_per_sec),
        memory_used: Some(measurement.memory_used),
        memory_capacity: Some(measurement.memory_capacity),
        location: Some(LOCATION@),
    }
}

/// The request that submits `proof` with its hash and a measurement.
pub open spec fn submission(
    node_id: Seq<char>,
    proof_hash: Seq<char>,
    proof: Seq<u8>,
    measurement: Measurement,
) -> SubmitProofRequestView {
    SubmitProofRequestView {
        node_id,
        node_type: NodeType::CliProver.spec_number(),
        proof_hash,
        node_telemetry: Some(telemetry_of(measurement)),
        proof,
    }
}

/// The call that submits a proof to the service at `base`.
pub open spec fn submit_call(
    base: Seq<char>,
    node_id: Seq<char>,
    proof_hash: Seq<char>,
    proof: Seq<u8>,
    measurement: Measurement,
) -> Result<HttpCallView, Failure> {
    call_to(
        base,
        SUBMIT_PATH@,
        Method::Post.spec_token(),
        SubmitProofRequest::encoded(submission(node_id, proof_hash, proof, measurement)),
    )
}

/// What a reply to a fetch means: the task, or the failure. A reply without
/// a body is a failure, since a task was asked for.
pub open spec fn task_outcome(reply: ReplyView) -> Result<GetProofTaskResponseView, Failure> {
    match response::<GetProofTaskResponse>(reply) {
        Ok(Some(task)) => Ok(task),
        Ok(None) => Err(Failure::EmptyResponse),
        Err(failure) => Err(failure),
    }
}

/// What a reply to a submission means: success, or the failure. A body, if
/// there is one, must be a well-formed message and is discarded.
pub open spec fn submit_outcome(reply: ReplyView) -> Result<(), Failure> {
    match response::<()>(reply) {
        Ok(_) => Ok(()),
        Err(failure) => Err(failure),
    }
}

/// The value of the result of reading the reply to a fetch.
pub open spec fn task_view(result: Result<GetProofTaskResponse, ClientError>) -> Result<
    GetProofTaskResponseView,
    Failure,
> {
    match result {
        Ok(task) => Ok(task@),
        Err(error) => Err(error@),
    }
}

/// The value of the result of reading the reply to a submission.
pub open spec fn submit_view(result: Result<(), ClientError>) -> Result<(), Failure> {
    match result {
        Ok(_) => Ok(()),
        Err(error) => Err(error@),
    }
}

impl OrchestratorClient {
    /// A client of the service at `base_url`.
    pub fn new(base_url: String) -> (client: Self)
        ensures
            client@ == base_url@,
    {
        OrchestratorClient { base_url }
    }

    /// The base address of the service.
    pub fn base_url(&self) -> (base: &str)
        ensures
            base@ == self@,
    {
        self.base_url.as_str()
    }

    /// Builds the call that sends `request` with the method that `method`
    /// names to `path` under the base address.
    ///
    /// A token that names no supported method is a failure, and no call is
    /// built.
    pub fn make_request<T: Message>(
        &self,
        path: &str,
        method: &str,
        request: &T,
    ) -> (result: Result<HttpCall, ClientError>)
        ensures
            call_view(result) == call_to(self@, path@, method@, T::encoded(request@)),
    {
        let body = request.encode_to_vec();
        let url = self.base_url.clone().concat(path);
        let method = Method::from_token(method)?;
        Ok(HttpCall { method, url, content_type: CONTENT_TYPE, body })
    }

    /// Builds the call that fetches a proof task for the node `node_id`.
    ///
    /// An empty identifier is a failure, and no call is built.
    pub fn get_proof_task(&self, node_id: &str) -> (result: Result<HttpCall, ClientError>)
        ensures
            call_view(result) == fetch_call(self@, node_id@),
            result is Ok <==> node_id@.len() > 0,
            node_id@.len() == 0 ==> call_view(result) == Err::<HttpCallView, Failure>(
                Failure::InvalidNodeId,
            ),
    {
        if node_id.is_empty() {
            return Err(ClientError::InvalidNodeId);
        }
        let request = GetProofTaskRequest {
            node_id: node_id.to_owned(),
            node_type: NodeType::CliProver.number(),
        };
        self.make_request(TASKS_PATH, Method::Post.token(), &request)
    }

    /// Reads the reply to the call that [`Self::get_proof_task`] built.
    pub fn read_proof_task(reply: &Reply) -> (result: Result<GetProofTaskResponse, ClientError>)
        ensures
            task_view(result) == task_outcome(reply@),
            match reply@ {
                ReplyView::Completed { status, body } => !spec_is_success(status)
                    && valid_utf8(body) ==> task_view(result) == Err::<
                    GetProofTaskResponseView,
                    Failure,
                >(Failure::Status { code: status, body: decode_utf8(body) }),
                ReplyView::Unreachable => true,
            },
    {
        match read_response::<GetProofTaskResponse>(reply) {
            Ok(Some(task)) => Ok(task),
            Ok(None) => Err(ClientError::EmptyResponse),
            Err(error) => Err(error),
        }
    }

    /// Builds the call that submits `proof` for the node `node_id`.
    ///
    /// An empty proof is a failure: no call is built, and `measure` is not
    /// called. Otherwise `measure` is called once, and what it returns is
    /// sent along with the proof.
    pub fn submit_proof<F: FnOnce() -> Measurement>(
        &self,
        node_id: &str,
        proof_hash: &str,
        proof: Vec<u8>,
        measure: F,
    ) -> (result: Result<HttpCall, ClientError>)
        requires
            proof@.len() > 0 ==> call_requires(measure, ()),
        ensures
            result is Ok <==> proof@.len() > 0,
            proof@.len() == 0 ==> call_view(result) == Err::<HttpCallView, Failure>(
                Failure::EmptyProof,
            ),
            proof@.len() > 0 ==> exists|measurement: Measurement| #[trigger]
                call_ensures(measure, (), measurement) && call_view(result) == submit_call(
                    self@,
                    node_id@,
                    proof_hash@,
                    proof@,
                    measurement,
                ),
    {
        if proof.len() == 0 {
            return Err(ClientError::EmptyProof);
        }
        let measurement = measure();
        let request = SubmitProofRequest {
            node_id: node_id.to_owned(),
            node_type: NodeType::CliProver.number(),
            proof_hash: proof_hash.to_owned(),
            node_telemetry: Some(
                NodeTelemetry {
                    flops_per_sec: Some(measurement.flops_per_sec),
                    memory_used: Some(measurement.memory_used),
                    memory_capacity: Some(measurement.memory_capacity),
                    location: Some(LOCATION.to_owned()),
                },
            ),
            proof,
        };
        self.make_request(SUBMIT_PATH, Method::Post.token(), &request)
    }

    /// Reads the reply to the call that [`Self::submit_proof`] built.
    pub fn read_submission(reply: &Reply) -> (result: Result<(), ClientError>)
        ensures
            submit_view(result) == submit_outcome(reply@),
            match reply@ {
                ReplyView::Completed { status, body } => !spec_is_success(status)
                    && valid_utf8(body) ==> submit_view(result) == Err::<(), Failure>(
                    Failure::Status { code: status, body: decode_utf8(body) },
                ),
                ReplyView::Unreachable => true,
            },
    {
        match read_response::<()>(reply) {
            Ok(_) => Ok(()),
            Err(error) => Err(error),
        }
    }
}

/// The call that fetches a task carries the request for the node, which the
/// service reads back as it was written.
pub proof fn lemma_fetch_carries_request(base: Seq<char>, node_id: Seq<char>)
    requires
        node_id.len() > 0,
        encode_utf8(node_id).len() <= u64::MAX,
    ensures
        fetch_call(base, node_id) matches Ok(call) && call.method == Method::Post && call.url
            == base + TASKS_PATH@ && GetProofTaskRequest::parsed(call.body) == Some(
            task_request(node_id),
        ),
{
    GetProofTaskRequest::lemma_round_trip(task_request(node_id));
}

/// The call that submits a proof carries the proof, its hash and the
/// measurement, which the service reads back as they were written.
pub proof fn lemma_submit_carries_request(
    base: Seq<char>,
    node_id: Seq<char>,
    proof_hash: Seq<char>,
    proof: Seq<u8>,
    measurement: Measurement,
)
    requires
        SubmitProofRequest::bounded(submission(node_id, proof_hash, proof, measurement)),
    ensures
        submit_call(base, node_id, proof_hash, proof, measurement) matches Ok(call) && call.method
            == Method::Post && call.url == base + SUBMIT_PATH@ && SubmitProofRequest::parsed(
            call.body,
        ) == Some(submission(node_id, proof_hash, proof, measurement)),
{
    SubmitProofRequest::lemma_round_trip(submission(node_id, proof_hash, proof, measurement));
}

/// A reply with a status other than success fails with exactly that status
/// and the text of the body, whichever operation it answers.
pub proof fn lemma_status_is_reported(status: u16, body: Seq<u8>)
    requires
        !spec_is_success(status),
    ensures
        task_outcome(ReplyView::Completed { status, body }) == Err::<
            GetProofTaskResponseView,
            Failure,
        >(Failure::Status { code: status, body: lossy_text(body) }),
        submit_outcome(ReplyView::Completed { status, body }) == Err::<(), Failure>(
            Failure::Status { code: status, body: lossy_text(body) },
        ),
{
}

/// A successful reply without a body fails a fetch, which needs a task, and
/// completes a submission.
pub proof fn lemma_empty_body(status: u16)
    requires
        spec_is_success(status),
    ensures
        task_outcome(ReplyView::Completed { status, body: Seq::empty() }) == Err::<
            GetProofTaskResponseView,
            Failure,
        >(Failure::EmptyResponse),
        submit_outcome(ReplyView::Completed { status, body: Seq::empty() }) == Ok::<
            (),
            Failure,
        >(()),
{
}

/// A successful reply whose body is a task as bytes gives that task back.
pub proof fn lemma_task_is_returned(status: u16, task: GetProofTaskResponseView)
    requires
        spec_is_success(status),
        GetProofTaskResponse::bounded(task),
        GetProofTaskResponse::encoded(task).len() > 0,
    ensures
        task_outcome(ReplyView::Completed { status, body: GetProofTaskResponse::encoded(task) })
            == Ok::<GetProofTaskResponseView, Failure>(task),
{
    GetProofTaskResponse::lemma_round_trip(task);
}

/// A successful reply whose body is a task as bytes with the last byte cut
/// off fails to decode.
pub proof fn lemma_truncated_task(status: u16, task: GetProofTaskResponseView)
    requires
        spec_is_success(status),
        GetProofTaskResponse::bounded(task),
        GetProofTaskResponse::encoded(task).len() > 0,
    ensures
        task_outcome(
            ReplyView::Completed { status, body: GetProofTaskResponse::encoded(task).drop_last() },
        ) == Err::<GetProofTaskResponseView, Failure>(Failure::Decode),
{
    let body = GetProofTaskResponse::encoded(task).drop_last();
    let blank = <GetProofTaskResponse as Fields>::blank();
    let with_id = GetProofTaskResponseView { program_id: task.program_id, ..blank };
    let utf8 = encode_utf8(task.program_id);
    assert(task.program_id.len() > 0 ==> utf8.len() > 0) by {
        encode_utf8_decode_utf8(task.program_id);
        if utf8.len() == 0 {
            assert(decode_utf8(utf8) =~= Seq::<char>::empty());
        }
    }
    if task.public_inputs.len() > 0 {
        let cut = bytes_field(2, task.public_inputs).drop_last();
        lemma_cut_field::<GetProofTaskResponse>(with_id, 2, task.public_inputs);
        if task.program_id.len() > 0 {
            lemma_merge_string::<GetProofTaskResponse>(blank, 1, task.program_id, cut, with_id);
        } else {
            assert(with_id.program_id =~= blank.program_id);
        }
        assert(body =~= text_field(1, task.program_id) + cut);
    } else {
        lemma_cut_field::<GetProofTaskResponse>(blank, 1, utf8);
        assert(body =~= bytes_field(1, utf8).drop_last());
    }
}

} // verus!
