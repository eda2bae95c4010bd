//! Responses and their encoding on the wire.

use crate::text::{append, text, CR, LF};
use vstd::prelude::*;
use vstd::utf8::encode_utf8;

verus! {

/// The outcome of a request.
#[derive(Clone, Copy, Debug, PartialEq, Eq, Structural)]
pub enum Status {
    /// The requested file is served.
    Success,
    /// No such file; the not-found page is served.
    NotFound,
    /// The request is not one that the server answers.
    BadRequest,
}

impl Status {
    /// The numeric status code.
    pub open spec fn code_of(self) -> u16 {
        match self {
            Status::Success => 200,
            Status::NotFound => 404,
            Status::BadRequest => 400,
        }
    }

    /// The first line of a response with this status, without its line end.
    pub open spec fn line(self) -> &'static str {
        match self {
            Status::Success => "HTTP/1.1 200 OK",
            Status::NotFound => "HTTP/1.1 404 NOT FOUND",
            Status::BadRequest => "HTTP/1.1 400 BAD REQUEST",
        }
    }

    /// The numeric status code: 200, 404 or 400.
    pub fn code(self) -> (code: u16)
        ensures
            code == self.code_of(),
    {
        match self {
            Status::Success => 200,
            Status::NotFound => 404,
            Status::BadRequest => 400,
        }
    }

    /// The first line of a response with this status, without its line end.
    pub fn status_line(self) -> (line: &'static str)
        ensures
            line@ == self.line()@,
    {
        match self {
            Status::Success => "HTTP/1.1 200 OK",
            Status::NotFound => "HTTP/1.1 404 NOT FOUND",
            Status::BadRequest => "HTTP/1.1 400 BAD REQUEST",
        }
    }
}

/// A response: built afresh for each request and sent once.
#[derive(Clone, Debug, PartialEq, Eq)]
pub struct Response {
    pub status: Status,
    pub content_type: &'static str,
    pub body: Vec<u8>,
}

/// A response as a mathematical value.
pub struct ResponseView {
    pub status: Status,
    pub content_type: Seq<char>,
    pub body: Seq<u8>,
}

impl View for Response {
    type V = ResponseView;

    open spec fn view(&self) -> ResponseView {
        ResponseView { status: self.status, content_type: self.content_type@, body: self.body@ }
    }
}

/// What goes out in front of the body: the status line, the content type as
/// the only header, and an empty line.
pub open spec fn head(status: Status, content_type: Seq<char>) -> Seq<u8> {
    text(status.line()) + seq![CR, LF] + text("Content-Type: ") + encode_utf8(content_type) + seq![
        CR,
        LF,
        CR,
        LF,
    ]
}

/// The bytes that carry a response: its head, then the body as it is.
pub open spec fn wire(response: ResponseView) -> Seq<u8> {
    head(response.status, response.content_type) + response.body
}

impl Response {
    /// The first line of the response, without its line end.
    pub fn status_line(&self) -> (line: &'static str)
        ensures
            line@ == self.status.line()@,
    {
        self.status.status_line()
    }

    /// Encodes the response for sending.
    pub fn to_bytes(&self) -> (bytes: Vec<u8>)
        ensures
            bytes@ == wire(self@),
    {
        let mut bytes: Vec<u8> = Vec::new();
        append(&mut bytes, self.status.status_line().as_bytes());
        bytes.push(CR);
        bytes.push(LF);
        append(&mut bytes, "Content-Type: ".as_bytes());
        append(&mut bytes, self.content_type.as_bytes());
        bytes.push(CR);
        bytes.push(LF);
        bytes.push(CR);
        bytes.push(LF);
        append(&mut bytes, self.body.as_slice());
        bytes
    }
}

} // verus!
