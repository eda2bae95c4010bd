//! The static response builder.
//!
//! Answering a request takes up to two looks at the file system: whether the
//! requested path names a regular file, and what the file to be served
//! holds. The builder makes the decisions in between. `dispatch` says what
//! to do first; a `Probe` is answered with `Probe::resolve`, a `Load` with
//! `Load::finish`, and the caller performs the look that each step asks for.
//!
//! | request                        | status | content type   | body               |
//! |--------------------------------|--------|----------------|--------------------|
//! | `GET /`                        | 200    | `text/html`    | `index.html`       |
//! | `GET` of a regular file        | 200    | by extension   | the file           |
//! | `GET` of anything else         | 404    | `text/html`    | `404.html`         |
//! | any other method               | 400    | `text/html`    | a fixed page       |
//!
//! `dispatch` joins the request path onto the root as it stands, so a path
//! with enough `..` segments names a file outside the root, and that file is
//! served if it exists. `dispatch_confined` is the same table with one more
//! row in front of the second: a `GET` for a path that is not confined is
//! answered like one for a missing file, and the file system is never asked
//! about it.

use crate::content_type::{content_type_of, get_content_type};
use crate::paths::{confined, is_confined, join, joined};
use crate::request::{parse, parse_request, Request, RequestLine};
use crate::response::{Response, ResponseView, Status};
use crate::text::{append, is_text, text};
use vstd::prelude::*;
use vstd::slice::slice_to_vec;

verus! {

/// A question to the file system: does `target` name a regular file?
#[derive(Clone, Debug, PartialEq, Eq)]
pub struct Probe {
    /// The file that the request names.
    pub target: Vec<u8>,
    /// The page that is served where `target` is no regular file.
    pub fallback: Vec<u8>,
}

/// A `Probe` as a mathematical value.
pub struct ProbeView {
    pub target: Seq<u8>,
    pub fallback: Seq<u8>,
}

impl View for Probe {
    type V = ProbeView;

    open spec fn view(&self) -> ProbeView {
        ProbeView { target: self.target@, fallback: self.fallback@ }
    }
}

/// A response that lacks only its body, which is to be read from `source`.
#[derive(Clone, Debug, PartialEq, Eq)]
pub struct Load {
    pub status: Status,
    pub content_type: &'static str,
    /// The file that holds the body.
    pub source: Vec<u8>,
}

/// A `Load` as a mathematical value.
pub struct LoadView {
    pub status: Status,
    pub content_type: Seq<char>,
    pub source: Seq<u8>,
}

impl View for Load {
    type V = LoadView;

    open spec fn view(&self) -> LoadView {
        LoadView { status: self.status, content_type: self.content_type@, source: self.source@ }
    }
}

/// What is to be done next for a request.
#[derive(Clone, Debug, PartialEq, Eq)]
pub enum Step {
    /// Find out whether the target is a regular file, then `Probe::resolve`.
    Probe(Probe),
    /// Read the source, then `Load::finish`.
    Load(Load),
    /// Send the response.
    Done(Response),
}

/// A `Step` as a mathematical value.
pub enum StepView {
    Probe(ProbeView),
    Load(LoadView),
    Done(ResponseView),
}

impl View for Step {
    type V = StepView;

    open spec fn view(&self) -> StepView {
        match self {
            Step::Probe(probe) => StepView::Probe(probe@),
            Step::Load(load) => StepView::Load(load@),
            Step::Done(response) => StepView::Done(response@),
        }
    }
}

/// The response to a request that is no `GET`.
pub open spec fn bad_request() -> ResponseView {
    ResponseView {
        status: Status::BadRequest,
        content_type: "text/html"@,
        body: text("<h1>400 Bad Request</h1>"),
    }
}

/// The first step for a request: `GET /` loads the index page, any other
/// `GET` probes the file that the path names under the root, and every
/// other method is a bad request.
pub open spec fn dispatched(request: RequestLine, root: Seq<u8>) -> StepView {
    if request.method != text("GET") {
        StepView::Done(bad_request())
    } else if request.path == text("/") {
        StepView::Load(
            LoadView {
                status: Status::Success,
                content_type: "text/html"@,
                source: joined(root, text("index.html")),
            },
        )
    } else {
        StepView::Probe(
            ProbeView {
                target: joined(root, request.path),
                fallback: joined(root, text("404.html")),
            },
        )
    }
}

/// The first step for a request where paths that leave the root are turned
/// down: as `dispatched`, but a `GET` for a path that is not confined loads
/// the not-found page at once.
pub open spec fn dispatched_confined(request: RequestLine, root: Seq<u8>) -> StepView {
    if request.method == text("GET") && request.path != text("/") && !confined(request.path) {
        StepView::Load(
            LoadView {
                status: Status::NotFound,
                content_type: "text/html"@,
                source: joined(root, text("404.html")),
            },
        )
    } else {
        dispatched(request, root)
    }
}

/// The step after a probe: a regular file is served with the content type
/// of its extension, anything else gives way to the not-found page.
pub open spec fn resolved(probe: ProbeView, is_file: bool) -> LoadView {
    if is_file {
        LoadView {
            status: Status::Success,
            content_type: content_type_of(probe.target)@,
            source: probe.target,
        }
    } else {
        LoadView { status: Status::NotFound, content_type: "text/html"@, source: probe.fallback }
    }
}

/// The body that stands in for a file that could not be read.
pub open spec fn read_failure(source: Seq<u8>) -> Seq<u8> {
    text("Error reading file: ") + source
}

/// The response after a load: the body is what was read, or a note of the
/// failure where nothing was. Status and content type stay as planned.
pub open spec fn finished(load: LoadView, contents: Option<Seq<u8>>) -> ResponseView {
    ResponseView {
        status: load.status,
        content_type: load.content_type,
        body: match contents {
            Some(bytes) => bytes,
            None => read_failure(load.source),
        },
    }
}

/// What reading a file gave, as a mathematical value.
pub open spec fn read_view(contents: Option<Vec<u8>>) -> Option<Seq<u8>> {
    match contents {
        Some(bytes) => Some(bytes@),
        None => None,
    }
}

/// Decides the first step for `request`, with files looked up under `root`.
pub fn dispatch(request: &Request, root: &[u8]) -> (step: Step)
    ensures
        step@ == dispatched(request@, root@),
{
    if !is_text(request.method, "GET") {
        Step::Done(
            Response {
                status: Status::BadRequest,
                content_type: "text/html",
                body: slice_to_vec("<h1>400 Bad Request</h1>".as_bytes()),
            },
        )
    } else if is_text(request.path, "/") {
        Step::Load(
            Load {
                status: Status::Success,
                content_type: "text/html",
                source: join(root, "index.html".as_bytes()),
            },
        )
    } else {
        Step::Probe(
            Probe {
                target: join(root, request.path),
                fallback: join(root, "404.html".as_bytes()),
            },
        )
    }
}

/// Decides the first step for `request` as `dispatch` does, but turns down
/// every path that leaves `root`.
pub fn dispatch_confined(request: &Request, root: &[u8]) -> (step: Step)
    ensures
        step@ == dispatched_confined(request@, root@),
{
    if is_text(request.method, "GET") && !is_text(request.path, "/") && !is_confined(request.path) {
        Step::Load(
            Load {
                status: Status::NotFound,
                content_type: "text/html",
                source: join(root, "404.html".as_bytes()),
            },
        )
    } else {
        dispatch(request, root)
    }
}

/// Parses the request in `buffer` and decides the first step for it, with
/// files looked up under `root`.
pub fn handle_request(buffer: &[u8], root: &[u8]) -> (step: Step)
    ensures
        step@ == dispatched(parse(buffer@), root@),
{
    let request = parse_request(buffer);
    dispatch(&request, root)
}

/// Parses the request in `buffer` and decides the first step for it as
/// `dispatch_confined` does.
pub fn handle_request_confined(buffer: &[u8], root: &[u8]) -> (step: Step)
    ensures
        step@ == dispatched_confined(parse(buffer@), root@),
{
    let request = parse_request(buffer);
    dispatch_confined(&request, root)
}

/// The body that stands in for the file at `source` when it cannot be read.
pub fn read_failure_body(source: &[u8]) -> (body: Vec<u8>)
    ensures
        body@ == read_failure(source@),
{
    let mut body: Vec<u8> = Vec::new();
    append(&mut body, "Error reading file: ".as_bytes());
    append(&mut body, source);
    body
}

impl Probe {
    /// Continues with the answer to the probe: `is_file` says whether the
    /// target names a regular file.
    pub fn resolve(self, is_file: bool) -> (load: Load)
        ensures
            load@ == resolved(self@, is_file),
    {
        if is_file {
            let content_type = get_content_type(self.target.as_slice());
            Load { status: Status::Success, content_type, source: self.target }
        } else {
            Load { status: Status::NotFound, content_type: "text/html", source: self.fallback }
        }
    }
}

impl Load {
    /// Completes the response with what reading the source gave: the bytes
    /// of the file, or `None` where it could not be read.
    pub fn finish(self, contents: Option<Vec<u8>>) -> (response: Response)
        ensures
            response@ == finished(self@, read_view(contents)),
    {
        let body = match contents {
            Some(bytes) => bytes,
            None => read_failure_body(self.source.as_slice()),
        };
        Response { status: self.status, content_type: self.content_type, body }
    }
}

} // verus!
