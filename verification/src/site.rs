//! What the server answers, stated over a model of the file system.
//!
//! The builder never touches a file itself; its caller does, and hands back
//! what it found. `FileTree` stands for what the caller finds, and `answer`
//! runs the steps of the builder against it. The laws below are about
//! `answer`, for every tree, root and buffer.

use crate::content_type::{content_type_of, lemma_extension_under_root};
use crate::handler::{
    bad_request, dispatched, dispatched_confined, finished, read_failure, resolved, StepView,
};
use crate::paths::{
    confined, joined, lemma_confined_file_is_under_root, lemma_joined_ignores_leading_slash,
    lemma_plain_name_is_confined, lemma_root_path_is_confined, segments, walk,
};
use crate::request::{
    is_space, is_word, lemma_blank_has_no_words, lemma_parse_request_line, parse, request_line,
    RequestLine,
};
use crate::response::{head, wire, ResponseView, Status};
use crate::text::{lemma_text_ascii, text, SLASH};
use vstd::prelude::*;

verus! {

/// The file system as the server sees it.
pub struct FileTree {
    /// The paths that name a regular file.
    pub regular: Set<Seq<u8>>,
    /// The paths that can be read, each with what reading it gives.
    pub contents: Map<Seq<u8>, Seq<u8>>,
}

impl FileTree {
    /// Whether `path` names a regular file.
    pub open spec fn is_file(self, path: Seq<u8>) -> bool {
        self.regular.contains(path)
    }

    /// What reading `path` gives, or `None` where it cannot be read.
    pub open spec fn read(self, path: Seq<u8>) -> Option<Seq<u8>> {
        if self.contents.dom().contains(path) {
            Some(self.contents[path])
        } else {
            None
        }
    }

    /// The tree after `bytes` were written to a regular file at `path`.
    pub open spec fn write(self, path: Seq<u8>, bytes: Seq<u8>) -> FileTree {
        FileTree {
            regular: self.regular.insert(path),
            contents: self.contents.insert(path, bytes),
        }
    }
}

/// What is served from `source`: what the file holds, or a note of the
/// failure where it cannot be read.
pub open spec fn body_from(tree: FileTree, source: Seq<u8>) -> Seq<u8> {
    match tree.read(source) {
        Some(bytes) => bytes,
        None => read_failure(source),
    }
}

/// The response to the request in `buffer`, served from `tree` under `root`.
pub open spec fn answer(tree: FileTree, root: Seq<u8>, buffer: Seq<u8>) -> ResponseView {
    completed(tree, dispatched(parse(buffer), root))
}

/// Runs the steps that follow the first against the tree.
pub open spec fn completed(tree: FileTree, step: StepView) -> ResponseView {
    match step {
        StepView::Done(response) => response,
        StepView::Load(load) => finished(load, tree.read(load.source)),
        StepView::Probe(probe) => {
            let load = resolved(probe, tree.is_file(probe.target));
            finished(load, tree.read(load.source))
        },
    }
}

/// The response to the request in `buffer` where paths that leave the root
/// are turned down.
pub open spec fn answer_confined(tree: FileTree, root: Seq<u8>, buffer: Seq<u8>) -> ResponseView {
    completed(tree, dispatched_confined(parse(buffer), root))
}

/// The files that a step asks the file system about.
pub open spec fn consulted(step: StepView) -> Set<Seq<u8>> {
    match step {
        StepView::Done(response) => Set::empty(),
        StepView::Load(load) => set![load.source],
        StepView::Probe(probe) => set![probe.target, probe.fallback],
    }
}

/// The texts that requests are matched against are what they look like.
pub proof fn lemma_request_texts()
    ensures
        text("GET") == seq![0x47u8, 0x45u8, 0x54u8],
        text("/") == seq![SLASH],
        is_word(text("GET")),
        is_word(text("/")),
{
    reveal_strlit("GET");
    reveal_strlit("/");
    lemma_text_ascii("GET");
    lemma_text_ascii("/");
}

/// A well-formed `GET` line parses to its path and version: the method is
/// `GET` whatever the path, the version and the rest of the buffer are.
pub proof fn lemma_get_line_parses(path: Seq<u8>, version: Seq<u8>, rest: Seq<u8>)
    requires
        is_word(path),
        is_word(version),
    ensures
        parse(request_line(text("GET"), path, version) + rest) == (RequestLine {
            method: text("GET"),
            path,
            version,
        }),
{
    lemma_request_texts();
    lemma_parse_request_line(text("GET"), path, version, rest);
}

/// `GET /` is answered with status 200 and the index page under the root as
/// HTML.
pub proof fn lemma_index_is_served(tree: FileTree, root: Seq<u8>, buffer: Seq<u8>)
    requires
        parse(buffer).method == text("GET"),
        parse(buffer).path == text("/"),
    ensures
        answer(tree, root, buffer).status == Status::Success,
        answer(tree, root, buffer).content_type == "text/html"@,
        answer(tree, root, buffer).body == body_from(tree, joined(root, text("index.html"))),
{
}

/// Every well-formed `GET /` line is answered with the index page, whatever
/// version it names and whatever follows it.
pub proof fn lemma_index_line_is_served(
    tree: FileTree,
    root: Seq<u8>,
    version: Seq<u8>,
    rest: Seq<u8>,
    page: Seq<u8>,
)
    requires
        is_word(version),
        tree.read(joined(root, text("index.html"))) == Some(page),
    ensures
        answer(tree, root, request_line(text("GET"), text("/"), version) + rest) == (ResponseView {
            status: Status::Success,
            content_type: "text/html"@,
            body: page,
        }),
{
    lemma_request_texts();
    lemma_get_line_parses(text("/"), version, rest);
}

/// A `GET` for a path that names a regular file under the root is answered
/// with status 200, the content type of the path's extension, and the file.
pub proof fn lemma_file_is_served(tree: FileTree, root: Seq<u8>, buffer: Seq<u8>)
    requires
        parse(buffer).method == text("GET"),
        parse(buffer).path != text("/"),
        tree.is_file(joined(root, parse(buffer).path)),
    ensures
        answer(tree, root, buffer).status == Status::Success,
        answer(tree, root, buffer).content_type == content_type_of(parse(buffer).path)@,
        answer(tree, root, buffer).body == body_from(tree, joined(root, parse(buffer).path)),
{
    lemma_extension_under_root(root, parse(buffer).path);
}

/// A `GET` for a path that names no regular file under the root is answered
/// with status 404 and the not-found page under the root as HTML.
pub proof fn lemma_missing_file_is_not_found(tree: FileTree, root: Seq<u8>, buffer: Seq<u8>)
    requires
        parse(buffer).method == text("GET"),
        parse(buffer).path != text("/"),
        !tree.is_file(joined(root, parse(buffer).path)),
    ensures
        answer(tree, root, buffer).status == Status::NotFound,
        answer(tree, root, buffer).content_type == "text/html"@,
        answer(tree, root, buffer).body == body_from(tree, joined(root, text("404.html"))),
{
}

/// Any method but `GET` is a bad request, whatever the path and whatever
/// the tree holds.
pub proof fn lemma_other_methods_are_bad_requests(tree: FileTree, root: Seq<u8>, buffer: Seq<u8>)
    requires
        parse(buffer).method != text("GET"),
    ensures
        answer(tree, root, buffer) == bad_request(),
        answer(tree, root, buffer).status == Status::BadRequest,
{
}

/// A buffer without a word, such as an empty one, is a bad request.
pub proof fn lemma_blank_buffer_is_bad_request(tree: FileTree, root: Seq<u8>, buffer: Seq<u8>)
    requires
        forall|k: int| 0 <= k < buffer.len() ==> is_space(#[trigger] buffer[k]),
    ensures
        answer(tree, root, buffer) == bad_request(),
{
    lemma_request_texts();
    lemma_blank_has_no_words(buffer);
}

/// Round trip: after `bytes` were written to the file `name` under the
/// root, a `GET` for `/name` is answered with status 200, the content type
/// of the name's extension, and exactly those bytes.
pub proof fn lemma_written_file_is_served(
    tree: FileTree,
    root: Seq<u8>,
    name: Seq<u8>,
    bytes: Seq<u8>,
    buffer: Seq<u8>,
)
    requires
        name.len() > 0,
        parse(buffer).method == text("GET"),
        parse(buffer).path == seq![SLASH] + name,
    ensures
        answer(tree.write(joined(root, name), bytes), root, buffer) == (ResponseView {
            status: Status::Success,
            content_type: content_type_of(name)@,
            body: bytes,
        }),
{
    lemma_request_texts();
    lemma_joined_ignores_leading_slash(root, name);
    lemma_extension_under_root(root, name);
}

/// The round trip on the wire: after `bytes` were written to the file
/// `name` under the root, the response to a well-formed `GET` line for
/// `/name` ends in exactly those bytes, behind the head of a response with
/// status 200.
pub proof fn lemma_written_file_is_sent(
    tree: FileTree,
    root: Seq<u8>,
    name: Seq<u8>,
    bytes: Seq<u8>,
    version: Seq<u8>,
    rest: Seq<u8>,
)
    requires
        is_word(name),
        is_word(version),
    ensures
        wire(
            answer(
                tree.write(joined(root, name), bytes),
                root,
                request_line(text("GET"), seq![SLASH] + name, version) + rest,
            ),
        ) == head(Status::Success, content_type_of(name)@) + bytes,
{
    let path = seq![SLASH] + name;
    assert forall|k: int| 0 <= k < path.len() implies !is_space(#[trigger] path[k]) by {
        if k > 0 {
            assert(path[k] == name[k - 1]);
        }
    }
    lemma_get_line_parses(path, version, rest);
    lemma_written_file_is_served(
        tree,
        root,
        name,
        bytes,
        request_line(text("GET"), path, version) + rest,
    );
}

/// The names of the two pages that the server itself asks for are single
/// segments, and so confined.
pub proof fn lemma_page_names_are_confined()
    ensures
        confined(text("index.html")),
        confined(text("404.html")),
{
    reveal_strlit("index.html");
    reveal_strlit("404.html");
    lemma_text_ascii("index.html");
    lemma_text_ascii("404.html");
    lemma_plain_name_is_confined(text("index.html"));
    lemma_plain_name_is_confined(text("404.html"));
}

/// Where paths that leave the root are turned down, a confined path is
/// answered as it is without the check.
pub proof fn lemma_confined_path_is_answered_alike(tree: FileTree, root: Seq<u8>, buffer: Seq<u8>)
    requires
        confined(parse(buffer).path),
    ensures
        answer_confined(tree, root, buffer) == answer(tree, root, buffer),
{
}

/// Where paths that leave the root are turned down, a `GET` for such a
/// path is answered with status 404 and the not-found page, also where the
/// path names a file that exists.
pub proof fn lemma_escaping_path_is_not_found(tree: FileTree, root: Seq<u8>, buffer: Seq<u8>)
    requires
        parse(buffer).method == text("GET"),
        !confined(parse(buffer).path),
    ensures
        answer_confined(tree, root, buffer).status == Status::NotFound,
        answer_confined(tree, root, buffer).content_type == "text/html"@,
        answer_confined(tree, root, buffer).body == body_from(tree, joined(root, text("404.html"))),
{
    lemma_request_texts();
    lemma_root_path_is_confined();
}

/// Where paths that leave the root are turned down, no request makes the
/// server ask for a file outside the root: walked from any directory, every
/// file that the first step names lies in or below the directory that the
/// root names.
pub proof fn lemma_confined_steps_stay_under_root(
    from: Seq<Seq<u8>>,
    root: Seq<u8>,
    buffer: Seq<u8>,
    file: Seq<u8>,
)
    requires
        consulted(dispatched_confined(parse(buffer), root)).contains(file),
    ensures
        walk(from, segments(root)).is_prefix_of(walk(from, segments(file))),
{
    lemma_page_names_are_confined();
    lemma_request_texts();
    let request = parse(buffer);
    lemma_confined_file_is_under_root(from, root, text("index.html"));
    lemma_confined_file_is_under_root(from, root, text("404.html"));
    if confined(request.path) {
        lemma_confined_file_is_under_root(from, root, request.path);
    }
}

} // verus!
