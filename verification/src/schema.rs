//! The messages that the client exchanges with the orchestrator.

use crate::encoding::{
    decode_unit, lemma_skipped_progress, put_bytes, put_int32, put_string, skip_value, skipped,
    take_bytes, take_int32, take_string, well_formed,
};
use crate::message::{
    lemma_merge_bytes, lemma_merge_int32, lemma_merge_string, merge, merge_all, parse, Fields,
    Message,
};
use crate::wire::{
    blob_field, bytes_value, int32_value, lemma_value_progress, number_field,
    optional_bytes_field, optional_int32_field, optional_string_field, string_value, text_field,
};
use prost::DecodeError;
use vstd::prelude::*;
use vstd::utf8::encode_utf8;

verus! {

/// The kind of node that issues a request.
#[derive(Debug, Clone, Copy, PartialEq, Eq)]
pub enum NodeType {
    /// A prover that runs in a browser.
    WebProver,
    /// A prover that runs from the command line.
    CliProver,
}

impl NodeType {
    /// The number that stands for the kind on the wire.
    pub open spec fn spec_number(self) -> i32 {
        match self {
            NodeType::WebProver => 0,
            NodeType::CliProver => 1,
        }
    }

    /// The number that stands for the kind on the wire.
    #[verifier::when_used_as_spec(spec_number)]
    pub fn number(self) -> (number: i32)
        ensures
            number == self.spec_number(),
    {
        match self {
            NodeType::WebProver => 0,
            NodeType::CliProver => 1,
        }
    }

    /// The kind that a number on the wire stands for, if it stands for one.
    pub fn from_number(number: i32) -> (kind: Option<NodeType>)
        ensures
            match kind {
                Some(kind) => kind.spec_number() == number,
                None => number != 0 && number != 1,
            },
    {
        if number == 0 {
            Some(NodeType::WebProver)
        } else if number == 1 {
            Some(NodeType::CliProver)
        } else {
            None
        }
    }
}

/// A request for a proof task.
#[derive(Debug, Clone, PartialEq, Eq)]
pub struct GetProofTaskRequest {
    /// The identifier of the node that asks.
    pub node_id: String,
    /// The kind of the node, by its number.
    pub node_type: i32,
}

/// The value of a [`GetProofTaskRequest`].
pub struct GetProofTaskRequestView {
    pub node_id: Seq<char>,
    pub node_type: i32,
}

impl View for GetProofTaskRequest {
    type V = GetProofTaskRequestView;

    open spec fn view(&self) -> GetProofTaskRequestView {
        GetProofTaskRequestView { node_id: self.node_id@, node_type: self.node_type }
    }
}

impl Message for GetProofTaskRequest {
    open spec fn encoded(value: GetProofTaskRequestView) -> Seq<u8> {
        text_field(1, value.node_id) + number_field(2, value.node_type)
    }

    open spec fn parsed(buf: Seq<u8>) -> Option<GetProofTaskRequestView> {
        parse::<Self>(buf)
    }

    open spec fn bounded(value: GetProofTaskRequestView) -> bool {
        encode_utf8(value.node_id).len() <= u64::MAX
    }

    proof fn lemma_round_trip(value: GetProofTaskRequestView) {
        let blank = <Self as Fields>::blank();
        let with_id = GetProofTaskRequestView { node_id: value.node_id, ..blank };
        let empty = Seq::<u8>::empty();
        let after_id = number_field(2, value.node_type) + empty;
        if value.node_id.len() > 0 {
            lemma_merge_string::<Self>(blank, 1, value.node_id, after_id, with_id);
        } else {
            assert(with_id.node_id =~= blank.node_id);
        }
        if value.node_type != 0 {
            lemma_merge_int32::<Self>(with_id, 2, value.node_type, empty, value);
        }
        assert(Self::encoded(value) =~= text_field(1, value.node_id) + after_id);
    }

    fn encode_raw(&self, buf: &mut Vec<u8>) {
        if !self.node_id.as_str().is_empty() {
            put_string(1, &self.node_id, buf);
        }
        if self.node_type != 0 {
            put_int32(2, self.node_type, buf);
        }
        assert(buf@ =~= old(buf)@ + Self::encoded(self@));
    }

    fn decode(buf: &[u8]) -> (result: Result<Self, DecodeError>) {
        merge(Self::new(), buf)
    }
}

impl Fields for GetProofTaskRequest {
    open spec fn blank() -> GetProofTaskRequestView {
        GetProofTaskRequestView { node_id: Seq::empty(), node_type: 0 }
    }

    open spec fn merged(value: GetProofTaskRequestView, tag: u32, wire: u8, buf: Seq<u8>) -> Option<
        (GetProofTaskRequestView, Seq<u8>),
    > {
        if tag == 1 {
            match string_value(wire, buf) {
                Some((text, rest)) => Some(
                    (GetProofTaskRequestView { node_id: text, ..value }, rest),
                ),
                None => None,
            }
        } else if tag == 2 {
            match int32_value(wire, buf) {
                Some((number, rest)) => Some(
                    (GetProofTaskRequestView { node_type: number, ..value }, rest),
                ),
                None => None,
            }
        } else {
            match skipped(wire, tag, buf) {
                Some(rest) => Some((value, rest)),
                None => None,
            }
        }
    }

    fn new() -> (message: Self) {
        GetProofTaskRequest { node_id: String::new(), node_type: 0 }
    }

    fn merge_field<'a>(self, tag: u32, wire: u8, buf: &'a [u8]) -> (out: Result<
        (Self, &'a [u8]),
        DecodeError,
    >) {
        proof {
            lemma_value_progress(wire, buf@);
            lemma_skipped_progress(wire, tag, buf@);
        }
        let mut message = self;
        if tag == 1 {
            let (text, rest) = take_string(wire, buf);
            message.node_id = text?;
            Ok((message, rest))
        } else if tag == 2 {
            let (number, rest) = take_int32(wire, buf);
            message.node_type = number?;
            Ok((message, rest))
        } else {
            let (passed, rest) = skip_value(wire, tag, buf);
            passed?;
            Ok((message, rest))
        }
    }
}

/// A proof task, as the orchestrator hands it out.
#[derive(Debug, Clone, PartialEq, Eq)]
pub struct GetProofTaskResponse {
    /// The identifier of the program to prove.
    pub program_id: String,
    /// The public inputs of the program.
    pub public_inputs: Vec<u8>,
}

/// The value of a [`GetProofTaskResponse`].
pub struct GetProofTaskResponseView {
    pub program_id: Seq<char>,
    pub public_inputs: Seq<u8>,
}

impl View for GetProofTaskResponse {
    type V = GetProofTaskResponseView;

    open spec fn view(&self) -> GetProofTaskResponseView {
        GetProofTaskResponseView {
            program_id: self.program_id@,
            public_inputs: self.public_inputs@,
        }
    }
}

impl Message for GetProofTaskResponse {
    open spec fn encoded(value: GetProofTaskResponseView) -> Seq<u8> {
        text_field(1, value.program_id) + blob_field(2, value.public_inputs)
    }

    open spec fn parsed(buf: Seq<u8>) -> Option<GetProofTaskResponseView> {
        parse::<Self>(buf)
    }

    open spec fn bounded(value: GetProofTaskResponseView) -> bool {
        encode_utf8(value.program_id).len() <= u64::MAX && value.public_inputs.len() <= u64::MAX
    }

    proof fn lemma_round_trip(value: GetProofTaskResponseView) {
        let blank = <Self as Fields>::blank();
        let with_id = GetProofTaskResponseView { program_id: value.program_id, ..blank };
        let empty = Seq::<u8>::empty();
        let after_id = blob_field(2, value.public_inputs) + empty;
        if value.program_id.len() > 0 {
            lemma_merge_string::<Self>(blank, 1, value.program_id, after_id, with_id);
        } else {
            assert(with_id.program_id =~= blank.program_id);
        }
        if value.public_inputs.len() > 0 {
            lemma_merge_bytes::<Self>(with_id, 2, value.public_inputs, empty, value);
        } else {
            assert(with_id.public_inputs =~= value.public_inputs);
        }
        assert(Self::encoded(value) =~= text_field(1, value.program_id) + after_id);
    }

    fn encode_raw(&self, buf: &mut Vec<u8>) {
        if !self.program_id.as_str().is_empty() {
            put_string(1, &self.program_id, buf);
        }
        if self.public_inputs.len() > 0 {
            put_bytes(2, &self.public_inputs, buf);
        }
        assert(buf@ =~= old(buf)@ + Self::encoded(self@));
    }

    fn decode(buf: &[u8]) -> (result: Result<Self, DecodeError>) {
        merge(Self::new(), buf)
    }
}

impl Fields for GetProofTaskResponse {
    open spec fn blank() -> GetProofTaskResponseView {
        GetProofTaskResponseView { program_id: Seq::empty(), public_inputs: Seq::empty() }
    }

    open spec fn merged(
        value: GetProofTaskResponseView,
        tag: u32,
        wire: u8,
        buf: Seq<u8>,
    ) -> Option<(GetProofTaskResponseView, Seq<u8>)> {
        if tag == 1 {
            match string_value(wire, buf) {
                Some((text, rest)) => Some(
                    (GetProofTaskResponseView { program_id: text, ..value }, rest),
                ),
                None => None,
            }
        } else if tag == 2 {
            match bytes_value(wire, buf) {
                Some((payload, rest)) => Some(
                    (GetProofTaskResponseView { public_inputs: payload, ..value }, rest),
                ),
                None => None,
            }
        } else {
            match skipped(wire, tag, buf) {
                Some(rest) => Some((value, rest)),
                None => None,
            }
        }
    }

    fn new() -> (message: Self) {
        GetProofTaskResponse { program_id: String::new(), public_inputs: Vec::new() }
    }

    fn merge_field<'a>(self, tag: u32, wire: u8, buf: &'a [u8]) -> (out: Result<
        (Self, &'a [u8]),
        DecodeError,
    >) {
        proof {
            lemma_value_progress(wire, buf@);
            lemma_skipped_progress(wire, tag, buf@);
        }
        let mut message = self;
        if tag == 1 {
            let (text, rest) = take_string(wire, buf);
            message.program_id = text?;
            Ok((message, rest))
        } else if tag == 2 {
            let (payload, rest) = take_bytes(wire, buf);
            message.public_inputs = payload?;
            Ok((message, rest))
        } else {
            let (passed, rest) = skip_value(wire, tag, buf);
            passed?;
            Ok((message, rest))
        }
    }
}

/// What a node reports of itself when it submits a proof.
#[derive(Debug, Clone, PartialEq, Eq)]
pub struct NodeTelemetry {
    /// An estimate of the node's throughput, in operations per second.
    pub flops_per_sec: Option<i32>,
    /// The memory that the process uses, in bytes.
    pub memory_used: Option<i32>,
    /// The memory of the machine, in bytes.
    pub memory_capacity: Option<i32>,
    /// Where the node is, coarsely.
    pub location: Option<String>,
}

/// The value of a [`NodeTelemetry`].
pub struct NodeTelemetryView {
    pub flops_per_sec: Option<i32>,
    pub memory_used: Option<i32>,
    pub memory_capacity: Option<i32>,
    pub location: Option<Seq<char>>,
}

impl View for NodeTelemetry {
    type V = NodeTelemetryView;

    open spec fn view(&self) -> NodeTelemetryView {
        NodeTelemetryView {
            flops_per_sec: self.flops_per_sec,
            memory_used: self.memory_used,
            memory_capacity: self.memory_capacity,
            location: match self.location {
                Some(text) => Some(text@),
                None => None,
            },
        }
    }
}

impl Message for NodeTelemetry {
    open spec fn encoded(value: NodeTelemetryView) -> Seq<u8> {
        optional_int32_field(1, value.flops_per_sec) + optional_int32_field(2, value.memory_used)
            + optional_int32_field(3, value.memory_capacity) + optional_string_field(
            4,
            value.location,
        )
    }

    open spec fn parsed(buf: Seq<u8>) -> Option<NodeTelemetryView> {
        parse::<Self>(buf)
    }

    open spec fn bounded(value: NodeTelemetryView) -> bool {
        value.location matches Some(text) ==> encode_utf8(text).len() <= u64::MAX
    }

    proof fn lemma_round_trip(value: NodeTelemetryView) {
        let blank = <Self as Fields>::blank();
        let first = NodeTelemetryView { flops_per_sec: value.flops_per_sec, ..blank };
        let second = NodeTelemetryView { memory_used: value.memory_used, ..first };
        let third = NodeTelemetryView { memory_capacity: value.memory_capacity, ..second };
        let empty = Seq::<u8>::empty();
        let after_third = optional_string_field(4, value.location) + empty;
        let after_second = optional_int32_field(3, value.memory_capacity) + after_third;
        let after_first = optional_int32_field(2, value.memory_used) + after_second;
        if let Some(number) = value.flops_per_sec {
            lemma_merge_int32::<Self>(blank, 1, number, after_first, first);
        }
        if let Some(number) = value.memory_used {
            lemma_merge_int32::<Self>(first, 2, number, after_second, second);
        }
        if let Some(number) = value.memory_capacity {
            lemma_merge_int32::<Self>(second, 3, number, after_third, third);
        }
        if let Some(text) = value.location {
            lemma_merge_string::<Self>(third, 4, text, empty, value);
        }
        assert(Self::encoded(value) =~= optional_int32_field(1, value.flops_per_sec)
            + after_first);
    }

    fn encode_raw(&self, buf: &mut Vec<u8>) {
        if let Some(number) = self.flops_per_sec {
            put_int32(1, number, buf);
        }
        if let Some(number) = self.memory_used {
            put_int32(2, number, buf);
        }
        if let Some(number) = self.memory_capacity {
            put_int32(3, number, buf);
        }
        if let Some(text) = &self.location {
            put_string(4, text, buf);
        }
        assert(buf@ =~= old(buf)@ + Self::encoded(self@));
    }

    fn decode(buf: &[u8]) -> (result: Result<Self, DecodeError>) {
        merge(Self::new(), buf)
    }
}

impl Fields for NodeTelemetry {
    open spec fn blank() -> NodeTelemetryView {
        NodeTelemetryView {
            flops_per_sec: None,
            memory_used: None,
            memory_capacity: None,
            location: None,
        }
    }

    open spec fn merged(value: NodeTelemetryView, tag: u32, wire: u8, buf: Seq<u8>) -> Option<
        (NodeTelemetryView, Seq<u8>),
    > {
        if 1 <= tag <= 3 {
            match int32_value(wire, buf) {
                Some((number, rest)) => Some(
                    (
                        if tag == 1 {
                            NodeTelemetryView { flops_per_sec: Some(number), ..value }
                        } else if tag == 2 {
                            NodeTelemetryView { memory_used: Some(number), ..value }
                        } else {
                            NodeTelemetryView { memory_capacity: Some(number), ..value }
                        },
                        rest,
                    ),
                ),
                None => None,
            }
        } else if tag == 4 {
            match string_value(wire, buf) {
                Some((text, rest)) => Some(
                    (NodeTelemetryView { location: Some(text), ..value }, rest),
                ),
                None => None,
            }
        } else {
            match skipped(wire, tag, buf) {
                Some(rest) => Some((value, rest)),
                None => None,
            }
        }
    }

    fn new() -> (message: Self) {
        NodeTelemetry {
            flops_per_sec: None,
            memory_used: None,
            memory_capacity: None,
            location: None,
        }
    }

    fn merge_field<'a>(self, tag: u32, wire: u8, buf: &'a [u8]) -> (out: Result<
        (Self, &'a [u8]),
        DecodeError,
    >) {
        proof {
            lemma_value_progress(wire, buf@);
            lemma_skipped_progress(wire, tag, buf@);
        }
        let mut message = self;
        if 1 <= tag && tag <= 3 {
            let (number, rest) = take_int32(wire, buf);
            let number = number?;
            if tag == 1 {
                message.flops_per_sec = Some(number);
            } else if tag == 2 {
                message.memory_used = Some(number);
            } else {
                message.memory_capacity = Some(number);
            }
            Ok((message, rest))
        } else if tag == 4 {
            let (text, rest) = take_string(wire, buf);
            message.location = Some(text?);
            Ok((message, rest))
        } else {
            let (passed, rest) = skip_value(wire, tag, buf);
            passed?;
            Ok((message, rest))
        }
    }
}

/// A proof, submitted with what the node reports of itself.
#[derive(Debug, Clone, PartialEq, Eq)]
pub struct SubmitProofRequest {
    /// The identifier of the node that submits.
    pub node_id: String,
    /// The kind of the node, by its number.
    pub node_type: i32,
    /// The hash of the proof.
    pub proof_hash: String,
    /// What the node reports of itself.
    pub node_telemetry: Option<NodeTelemetry>,
    /// The proof.
    pub proof: Vec<u8>,
}

/// The value of a [`SubmitProofRequest`].
pub struct SubmitProofRequestView {
    pub node_id: Seq<char>,
    pub node_type: i32,
    pub proof_hash: Seq<char>,
    pub node_telemetry: Option<NodeTelemetryView>,
    pub proof: Seq<u8>,
}

impl View for SubmitProofRequest {
    type V = SubmitProofRequestView;

    open spec fn view(&self) -> SubmitProofRequestView {
        SubmitProofRequestView {
            node_id: self.node_id@,
            node_type: self.node_type,
            proof_hash: self.proof_hash@,
            node_telemetry: match self.node_telemetry {
                Some(telemetry) => Some(telemetry@),
                None => None,
            },
            proof: self.proof@,
        }
    }
}

/// The telemetry of a submission as the payload of its field.
pub open spec fn telemetry_payload(telemetry: Option<NodeTelemetryView>) -> Option<Seq<u8>> {
    match telemetry {
        Some(telemetry) => Some(NodeTelemetry::encoded(telemetry)),
        None => None,
    }
}

impl Message for SubmitProofRequest {
    open spec fn encoded(value: SubmitProofRequestView) -> Seq<u8> {
        text_field(1, value.node_id) + number_field(2, value.node_type) + text_field(
            3,
            value.proof_hash,
        ) + optional_bytes_field(4, telemetry_payload(value.node_telemetry)) + blob_field(
            5,
            value.proof,
        )
    }

    open spec fn parsed(buf: Seq<u8>) -> Option<SubmitProofRequestView> {
        parse::<Self>(buf)
    }

    open spec fn bounded(value: SubmitProofRequestView) -> bool {
        &&& encode_utf8(value.node_id).len() <= u64::MAX
        &&& encode_utf8(value.proof_hash).len() <= u64::MAX
        &&& value.proof.len() <= u64::MAX
        &&& value.node_telemetry matches Some(telemetry) ==> NodeTelemetry::bounded(telemetry)
            && NodeTelemetry::encoded(telemetry).len() <= u64::MAX
    }

    proof fn lemma_round_trip(value: SubmitProofRequestView) {
        let blank = <Self as Fields>::blank();
        let first = SubmitProofRequestView { node_id: value.node_id, ..blank };
        let second = SubmitProofRequestView { node_type: value.node_type, ..first };
        let third = SubmitProofRequestView { proof_hash: value.proof_hash, ..second };
        let fourth = SubmitProofRequestView { node_telemetry: value.node_telemetry, ..third };
        let part_1 = text_field(1, value.node_id);
        let part_2 = number_field(2, value.node_type);
        let part_3 = text_field(3, value.proof_hash);
        let part_4 = optional_bytes_field(4, telemetry_payload(value.node_telemetry));
        let part_5 = blob_field(5, value.proof);
        let empty = Seq::<u8>::empty();
        let after_4 = part_5 + empty;
        let after_3 = part_4 + after_4;
        let after_2 = part_3 + after_3;
        let after_1 = part_2 + after_2;
        assert(merge_all::<Self>(blank, part_1 + after_1) == merge_all::<Self>(first, after_1)) by {
            if value.node_id.len() > 0 {
                lemma_merge_string::<Self>(blank, 1, value.node_id, after_1, first);
            } else {
                assert(first.node_id =~= blank.node_id);
                assert(part_1 + after_1 =~= after_1);
            }
        }
        assert(merge_all::<Self>(first, after_1) == merge_all::<Self>(second, after_2)) by {
            if value.node_type != 0 {
                lemma_merge_int32::<Self>(first, 2, value.node_type, after_2, second);
            } else {
                assert(part_2 + after_2 =~= after_2);
            }
        }
        assert(merge_all::<Self>(second, after_2) == merge_all::<Self>(third, after_3)) by {
            if value.proof_hash.len() > 0 {
                lemma_merge_string::<Self>(second, 3, value.proof_hash, after_3, third);
            } else {
                assert(third.proof_hash =~= second.proof_hash);
                assert(part_3 + after_3 =~= after_3);
            }
        }
        assert(merge_all::<Self>(third, after_3) == merge_all::<Self>(fourth, after_4)) by {
            if let Some(telemetry) = value.node_telemetry {
                NodeTelemetry::lemma_round_trip(telemetry);
                lemma_merge_bytes::<Self>(
                    third,
                    4,
                    NodeTelemetry::encoded(telemetry),
                    after_4,
                    fourth,
                );
            } else {
                assert(part_4 + after_4 =~= after_4);
            }
        }
        assert(merge_all::<Self>(fourth, after_4) == Some(value)) by {
            if value.proof.len() > 0 {
                lemma_merge_bytes::<Self>(fourth, 5, value.proof, empty, value);
            } else {
                assert(fourth.proof =~= value.proof);
                assert(after_4 =~= empty);
            }
        }
        lemma_joined(empty, part_1, part_2, part_3, part_4, part_5);
    }

    fn encode_raw(&self, buf: &mut Vec<u8>) {
        let ghost start = buf@;
        if !self.node_id.as_str().is_empty() {
            put_string(1, &self.node_id, buf);
        }
        assert(buf@ =~= start + text_field(1, self@.node_id));
        let ghost after_1 = buf@;
        if self.node_type != 0 {
            put_int32(2, self.node_type, buf);
        }
        assert(buf@ =~= after_1 + number_field(2, self@.node_type));
        let ghost after_2 = buf@;
        if !self.proof_hash.as_str().is_empty() {
            put_string(3, &self.proof_hash, buf);
        }
        assert(buf@ =~= after_2 + text_field(3, self@.proof_hash));
        let ghost after_3 = buf@;
        if let Some(telemetry) = &self.node_telemetry {
            let payload = telemetry.encode_to_vec();
            put_bytes(4, &payload, buf);
        }
        assert(buf@ =~= after_3 + optional_bytes_field(
            4,
            telemetry_payload(self@.node_telemetry),
        ));
        let ghost after_4 = buf@;
        if self.proof.len() > 0 {
            put_bytes(5, &self.proof, buf);
        }
        assert(buf@ =~= after_4 + blob_field(5, self@.proof));
        proof {
            lemma_joined(
                start,
                text_field(1, self@.node_id),
                number_field(2, self@.node_type),
                text_field(3, self@.proof_hash),
                optional_bytes_field(4, telemetry_payload(self@.node_telemetry)),
                blob_field(5, self@.proof),
            );
        }
    }

    fn decode(buf: &[u8]) -> (result: Result<Self, DecodeError>) {
        merge(Self::new(), buf)
    }
}

impl Fields for SubmitProofRequest {
    open spec fn blank() -> SubmitProofRequestView {
        SubmitProofRequestView {
            node_id: Seq::empty(),
            node_type: 0,
            proof_hash: Seq::empty(),
            node_telemetry: None,
            proof: Seq::empty(),
        }
    }

    open spec fn merged(value: SubmitProofRequestView, tag: u32, wire: u8, buf: Seq<u8>) -> Option<
        (SubmitProofRequestView, Seq<u8>),
    > {
        if tag == 1 {
            match string_value(wire, buf) {
                Some((text, rest)) => Some(
                    (SubmitProofRequestView { node_id: text, ..value }, rest),
                ),
                None => None,
            }
        } else if tag == 2 {
            match int32_value(wire, buf) {
                Some((number, rest)) => Some(
                    (SubmitProofRequestView { node_type: number, ..value }, rest),
                ),
                None => None,
            }
        } else if tag == 3 {
            match string_value(wire, buf) {
                Some((text, rest)) => Some(
                    (SubmitProofRequestView { proof_hash: text, ..value }, rest),
                ),
                None => None,
            }
        } else if tag == 4 {
            match bytes_value(wire, buf) {
                Some((payload, rest)) => match merge_all::<NodeTelemetry>(
                    match value.node_telemetry {
                        Some(telemetry) => telemetry,
                        None => NodeTelemetry::blank(),
                    },
                    payload,
                ) {
                    Some(telemetry) => Some(
                        (SubmitProofRequestView { node_telemetry: Some(telemetry), ..value }, rest),
                    ),
                    None => None,
                },
                None => None,
            }
        } else if tag == 5 {
            match bytes_value(wire, buf) {
                Some((payload, rest)) => Some(
                    (SubmitProofRequestView { proof: payload, ..value }, rest),
                ),
                None => None,
            }
        } else {
            match skipped(wire, tag, buf) {
                Some(rest) => Some((value, rest)),
                None => None,
            }
        }
    }

    fn new() -> (message: Self) {
        SubmitProofRequest {
            node_id: String::new(),
            node_type: 0,
            proof_hash: String::new(),
            node_telemetry: None,
            proof: Vec::new(),
        }
    }

    fn merge_field<'a>(self, tag: u32, wire: u8, buf: &'a [u8]) -> (out: Result<
        (Self, &'a [u8]),
        DecodeError,
    >) {
        proof {
            lemma_value_progress(wire, buf@);
            lemma_skipped_progress(wire, tag, buf@);
        }
        let SubmitProofRequest { node_id, node_type, proof_hash, node_telemetry, proof } = self;
        if tag == 1 {
            let (text, rest) = take_string(wire, buf);
            let node_id = text?;
            Ok((SubmitProofRequest { node_id, node_type, proof_hash, node_telemetry, proof }, rest))
        } else if tag == 2 {
            let (number, rest) = take_int32(wire, buf);
            let node_type = number?;
            Ok((SubmitProofRequest { node_id, node_type, proof_hash, node_telemetry, proof }, rest))
        } else if tag == 3 {
            let (text, rest) = take_string(wire, buf);
            let proof_hash = text?;
            Ok((SubmitProofRequest { node_id, node_type, proof_hash, node_telemetry, proof }, rest))
        } else if tag == 4 {
            let (payload, rest) = take_bytes(wire, buf);
            let payload = payload?;
            let current = match node_telemetry {
                Some(telemetry) => telemetry,
                None => NodeTelemetry::new(),
            };
            let node_telemetry = Some(merge(current, payload.as_slice())?);
            Ok((SubmitProofRequest { node_id, node_type, proof_hash, node_telemetry, proof }, rest))
        } else if tag == 5 {
            let (payload, rest) = take_bytes(wire, buf);
            let proof = payload?;
            Ok((SubmitProofRequest { node_id, node_type, proof_hash, node_telemetry, proof }, rest))
        } else {
            let (passed, rest) = skip_value(wire, tag, buf);
            passed?;
            Ok((SubmitProofRequest { node_id, node_type, proof_hash, node_telemetry, proof }, rest))
        }
    }
}

/// The message without fields: every well-formed buffer holds it.
impl Message for () {
    open spec fn encoded(value: ()) -> Seq<u8> {
        Seq::empty()
    }

    open spec fn parsed(buf: Seq<u8>) -> Option<()> {
        if well_formed(buf) {
            Some(())
        } else {
            None
        }
    }

    open spec fn bounded(value: ()) -> bool {
        true
    }

    proof fn lemma_round_trip(value: ()) {
    }

    fn encode_raw(&self, buf: &mut Vec<u8>) {
        assert(buf@ =~= old(buf)@ + Self::encoded(()));
    }

    fn decode(buf: &[u8]) -> (result: Result<Self, DecodeError>) {
        decode_unit(buf)
    }
}

/// Five parts joined one after the other, from either end.
proof fn lemma_joined(
    start: Seq<u8>,
    first: Seq<u8>,
    second: Seq<u8>,
    third: Seq<u8>,
    fourth: Seq<u8>,
    fifth: Seq<u8>,
)
    ensures
        start + first + second + third + fourth + fifth == start + (first + second + third
            + fourth + fifth),
        first + (second + (third + (fourth + (fifth + Seq::<u8>::empty())))) == first + second
            + third + fourth + fifth,
{
    let all = first + second + third + fourth + fifth;
    assert(start + first + second + third + fourth + fifth =~= start + all);
    assert(first + (second + (third + (fourth + (fifth + Seq::<u8>::empty())))) =~= all);
}

} // verus!
