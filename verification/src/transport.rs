//! What goes over HTTP: the call that a driver is to send and the reply
//! that it hands back.

use crate::encoding::describe;
use crate::error::{ClientError, Failure};
use crate::message::Message;
use vstd::prelude::*;
use vstd::string::*;
use vstd::utf8::{decode_utf8, encode_utf8, encode_utf8_decode_utf8, valid_utf8};

verus! {

/// An HTTP method that the client uses.
#[derive(Debug, Clone, Copy, PartialEq, Eq)]
pub enum Method {
    Post,
    Get,
}

/// The method that a token names, if it names one.
pub open spec fn method_of(token: Seq<char>) -> Option<Method> {
    if token == "POST"@ {
        Some(Method::Post)
    } else if token == "GET"@ {
        Some(Method::Get)
    } else {
        None
    }
}

impl Method {
    /// The token that names the method.
    pub open spec fn spec_token(self) -> Seq<char> {
        match self {
            Method::Post => "POST"@,
            Method::Get => "GET"@,
        }
    }

    /// The token that names the method.
    pub fn token(self) -> (token: &'static str)
        ensures
            token@ == self.spec_token(),
    {
        match self {
            Method::Post => "POST",
            Method::Get => "GET",
        }
    }

    /// The method that `token` names. The comparison is exact: a token in
    /// another case names no method.
    pub fn from_token(token: &str) -> (result: Result<Method, ClientError>)
        ensures
            match result {
                Ok(method) => method_of(token@) == Some(method),
                Err(error) => method_of(token@) is None && error@ == Failure::UnsupportedMethod,
            },
    {
        if same_text(token, "POST") {
            Ok(Method::Post)
        } else if same_text(token, "GET") {
            Ok(Method::Get)
        } else {
            Err(ClientError::UnsupportedMethod)
        }
    }
}

/// Whether two texts are the same.
pub fn same_text(left: &str, right: &str) -> (same: bool)
    ensures
        same == (left@ == right@),
{
    let left_bytes = left.as_bytes();
    let right_bytes = right.as_bytes();
    proof {
        encode_utf8_decode_utf8(left@);
        encode_utf8_decode_utf8(right@);
    }
    if left_bytes.len() != right_bytes.len() {
        return false;
    }
    let mut index: usize = 0;
    while index < left_bytes.len()
        invariant
            index <= left_bytes.len(),
            left_bytes.len() == right_bytes.len(),
            left_bytes@ == encode_utf8(left@),
            right_bytes@ == encode_utf8(right@),
            decode_utf8(encode_utf8(left@)) == left@,
            decode_utf8(encode_utf8(right@)) == right@,
            forall|at: int| 0 <= at < index ==> left_bytes@[at] == right_bytes@[at],
        decreases left_bytes.len() - index,
    {
        if left_bytes[index] != right_bytes[index] {
            return false;
        }
        index += 1;
    }
    assert(left_bytes@ =~= right_bytes@);
    true
}

/// The content type of every body that the client sends.
pub const CONTENT_TYPE: &'static str = "application/octet-stream";

/// An HTTP call for a driver to send.
#[derive(Debug, Clone, PartialEq, Eq)]
pub struct HttpCall {
    /// The method of the call.
    pub method: Method,
    /// The address to call: the base address of the service and the path.
    pub url: String,
    /// The value of the `Content-Type` header.
    pub content_type: &'static str,
    /// The body: the request as bytes.
    pub body: Vec<u8>,
}

/// The value of an [`HttpCall`].
pub struct HttpCallView {
    pub method: Method,
    pub url: Seq<char>,
    pub content_type: Seq<char>,
    pub body: Seq<u8>,
}

impl View for HttpCall {
    type V = HttpCallView;

    open spec fn view(&self) -> HttpCallView {
        HttpCallView {
            method: self.method,
            url: self.url@,
            content_type: self.content_type@,
            body: self.body@,
        }
    }
}

/// The call that sends `body` with the method that `token` names to `path`
/// under `base`; the failure where the token names no method.
pub open spec fn call_to(
    base: Seq<char>,
    path: Seq<char>,
    token: Seq<char>,
    body: Seq<u8>,
) -> Result<HttpCallView, Failure> {
    match method_of(token) {
        Some(method) => Ok(
            HttpCallView {
                method,
                url: base + path,
                content_type: CONTENT_TYPE@,
                body,
            },
        ),
        None => Err(Failure::UnsupportedMethod),
    }
}

/// The value of the result of building a call.
pub open spec fn call_view(result: Result<HttpCall, ClientError>) -> Result<HttpCallView, Failure> {
    match result {
        Ok(call) => Ok(call@),
        Err(error) => Err(error@),
    }
}

/// What a driver reports of a call that it sent.
#[derive(Debug, Clone, PartialEq, Eq)]
pub enum Reply {
    /// The call could not reach the service or could not be completed.
    Unreachable,
    /// The service answered.
    Completed {
        /// The status code of the response.
        status: u16,
        /// The body of the response.
        body: Vec<u8>,
    },
}

/// The value of a [`Reply`].
pub enum ReplyView {
    Unreachable,
    Completed { status: u16, body: Seq<u8> },
}

impl View for Reply {
    type V = ReplyView;

    open spec fn view(&self) -> ReplyView {
        match self {
            Reply::Unreachable => ReplyView::Unreachable,
            Reply::Completed { status, body } => ReplyView::Completed {
                status: *status,
                body: body@,
            },
        }
    }
}

/// Whether a status code reports success: the codes from 200 to 299 do.
pub open spec fn spec_is_success(status: u16) -> bool {
    200 <= status < 300
}

/// Whether a status code reports success: the codes from 200 to 299 do.
#[verifier::when_used_as_spec(spec_is_success)]
pub fn is_success(status: u16) -> (success: bool)
    ensures
        success == spec_is_success(status),
{
    200 <= status && status < 300
}

/// The text that `String::from_utf8_lossy` makes of `bytes`.
pub uninterp spec fn lossy_text(bytes: Seq<u8>) -> Seq<char>;

/// `String::from_utf8_lossy`: the bytes as text. Bytes that are valid UTF-8
/// give the text that they encode; in other bytes each malformed sequence is
/// replaced.
#[verifier::external_body]
fn text_of(bytes: &[u8]) -> (text: String)
    ensures
        text@ == lossy_text(bytes@),
        valid_utf8(bytes@) ==> text@ == decode_utf8(bytes@),
{
    String::from_utf8_lossy(bytes).into_owned()
}

/// What a reply means where a message of kind `U` is expected: the message,
/// no message where the service left the body empty, or the failure.
pub open spec fn response<U: Message>(reply: ReplyView) -> Result<Option<U::V>, Failure> {
    match reply {
        ReplyView::Unreachable => Err(Failure::ConnectionFailed),
        ReplyView::Completed { status, body } => if !spec_is_success(status) {
            Err(Failure::Status { code: status, body: lossy_text(body) })
        } else if body.len() == 0 {
            Ok(None)
        } else {
            match U::parsed(body) {
                Some(message) => Ok(Some(message)),
                None => Err(Failure::Decode),
            }
        },
    }
}

/// The value of the result of reading a reply.
pub open spec fn response_view<U: Message>(result: Result<Option<U>, ClientError>) -> Result<
    Option<U::V>,
    Failure,
> {
    match result {
        Ok(Some(message)) => Ok(Some(message@)),
        Ok(None) => Ok(None),
        Err(error) => Err(error@),
    }
}

/// Reads a reply where a message of kind `U` is expected.
///
/// A reply with a status other than success fails with that status and the
/// body as text. A successful reply with an empty body holds no message,
/// which is no failure. Any other body must decode as a `U`.
pub fn read_response<U: Message>(reply: &Reply) -> (result: Result<Option<U>, ClientError>)
    ensures
        response_view(result) == response::<U>(reply@),
        match reply@ {
            ReplyView::Completed { status, body } => !spec_is_success(status) && valid_utf8(body)
                ==> response_view(result) == Err::<Option<U::V>, Failure>(
                Failure::Status { code: status, body: decode_utf8(body) },
            ),
            ReplyView::Unreachable => true,
        },
{
    match reply {
        Reply::Unreachable => Err(ClientError::ConnectionFailed),
        Reply::Completed { status, body } => {
            if !is_success(*status) {
                Err(ClientError::Status { code: *status, body: text_of(body.as_slice()) })
            } else if body.len() == 0 {
                Ok(None)
            } else {
                match U::decode(body.as_slice()) {
                    Ok(message) => Ok(Some(message)),
                    Err(error) => Err(ClientError::Decode { diagnostic: describe(&error) }),
                }
            }
        },
    }
}

} // verus!
