//! The failures of the client.

use vstd::prelude::*;
use vstd::string::*;

verus! {

/// Why an operation of the client failed.
#[derive(Debug, Clone, PartialEq, Eq)]
pub enum ClientError {
    /// The node identifier was empty.
    InvalidNodeId,
    /// The proof to submit was empty.
    EmptyProof,
    /// The method token names no method that the client supports.
    UnsupportedMethod,
    /// The call could not reach the orchestrator or could not be completed.
    ConnectionFailed,
    /// The orchestrator answered with a status other than success.
    Status {
        /// The status code.
        code: u16,
        /// The body of the response, as text.
        body: String,
    },
    /// The body of the response is not a message of the expected kind.
    Decode {
        /// What the decoder reports of the body, for people to read.
        diagnostic: String,
    },
    /// The response was empty where the operation needs content.
    EmptyResponse,
}

/// A failure as the protocol defines it. The diagnostic of a decode failure
/// is advice for people and no part of it.
pub enum Failure {
    InvalidNodeId,
    EmptyProof,
    UnsupportedMethod,
    ConnectionFailed,
    Status { code: u16, body: Seq<char> },
    Decode,
    EmptyResponse,
}

impl View for ClientError {
    type V = Failure;

    open spec fn view(&self) -> Failure {
        match self {
            ClientError::InvalidNodeId => Failure::InvalidNodeId,
            ClientError::EmptyProof => Failure::EmptyProof,
            ClientError::UnsupportedMethod => Failure::UnsupportedMethod,
            ClientError::ConnectionFailed => Failure::ConnectionFailed,
            ClientError::Status { code, body } => Failure::Status { code: *code, body: body@ },
            ClientError::Decode { .. } => Failure::Decode,
            ClientError::EmptyResponse => Failure::EmptyResponse,
        }
    }
}

/// The character that stands for a digit.
pub open spec fn digit(value: nat) -> char {
    if value == 0 {
        '0'
    } else if value == 1 {
        '1'
    } else if value == 2 {
        '2'
    } else if value == 3 {
        '3'
    } else if value == 4 {
        '4'
    } else if value == 5 {
        '5'
    } else if value == 6 {
        '6'
    } else if value == 7 {
        '7'
    } else if value == 8 {
        '8'
    } else {
        '9'
    }
}

/// A number in decimal, without leading zeros.
pub open spec fn decimal(value: nat) -> Seq<char>
    decreases value,
{
    if value < 10 {
        seq![digit(value)]
    } else {
        decimal(value / 10) + seq![digit(value % 10)]
    }
}

/// The text of a digit.
fn digit_text(value: u16) -> (text: &'static str)
    requires
        value < 10,
    ensures
        text@ == seq![digit(value as nat)],
{
    proof {
        reveal_strlit("0");
        reveal_strlit("1");
        reveal_strlit("2");
        reveal_strlit("3");
        reveal_strlit("4");
        reveal_strlit("5");
        reveal_strlit("6");
        reveal_strlit("7");
        reveal_strlit("8");
        reveal_strlit("9");
    }
    let text = if value == 0 {
        "0"
    } else if value == 1 {
        "1"
    } else if value == 2 {
        "2"
    } else if value == 3 {
        "3"
    } else if value == 4 {
        "4"
    } else if value == 5 {
        "5"
    } else if value == 6 {
        "6"
    } else if value == 7 {
        "7"
    } else if value == 8 {
        "8"
    } else {
        "9"
    };
    assert(text@ =~= seq![digit(value as nat)]);
    text
}

/// A status code in decimal.
pub fn decimal_text(value: u16) -> (text: String)
    ensures
        text@ == decimal(value as nat),
    decreases value,
{
    if value < 10 {
        digit_text(value).to_owned()
    } else {
        let mut text = decimal_text(value / 10);
        text.append(digit_text(value % 10));
        text
    }
}

impl ClientError {
    /// The failure in words.
    pub open spec fn spec_message(&self) -> Seq<char> {
        match self {
            ClientError::InvalidNodeId => "Invalid node ID"@,
            ClientError::EmptyProof => "Empty proof submitted"@,
            ClientError::UnsupportedMethod => "Unsupported HTTP method"@,
            ClientError::ConnectionFailed => "Failed to connect to orchestrator"@,
            ClientError::Status { code, body } => "HTTP "@ + decimal(*code as nat) + ": "@ + body@,
            ClientError::Decode { diagnostic } => "Protobuf decode error: "@ + diagnostic@,
            ClientError::EmptyResponse => "Empty response from orchestrator"@,
        }
    }

    /// The failure in words. A failure to connect is reported in fixed
    /// words, whatever went wrong underneath.
    pub fn message(&self) -> (text: String)
        ensures
            text@ == self.spec_message(),
    {
        match self {
            ClientError::InvalidNodeId => "Invalid node ID".to_owned(),
            ClientError::EmptyProof => "Empty proof submitted".to_owned(),
            ClientError::UnsupportedMethod => "Unsupported HTTP method".to_owned(),
            ClientError::ConnectionFailed => "Failed to connect to orchestrator".to_owned(),
            ClientError::Status { code, body } => {
                let mut text = "HTTP ".to_owned();
                text.append(decimal_text(*code).as_str());
                text.append(": ");
                text.append(body.as_str());
                text
            },
            ClientError::Decode { diagnostic } => {
                let mut text = "Protobuf decode error: ".to_owned();
                text.append(diagnostic.as_str());
                text
            },
            ClientError::EmptyResponse => "Empty response from orchestrator".to_owned(),
        }
    }
}

} // verus!
