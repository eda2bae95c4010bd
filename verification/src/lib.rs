//! A small static-file HTTP responder.
//!
//! The library holds what such a server decides; reading the socket and the
//! files is left to its caller. A request arrives as the bytes of a bounded
//! buffer and leaves as the bytes of a response:
//!
//! - `request` cuts the buffer into method, path and version;
//! - `handler` maps method and path to a status, a content type and the
//!   file that holds the body, asking its caller to look at the file system
//!   where it has to;
//! - `content_type` infers the MIME type of a file from its extension;
//! - `paths` builds file paths under the root directory and tells the
//!   request paths that stay inside it;
//! - `response` encodes the response for the wire;
//! - `site` states what is answered to a request over a model of the file
//!   system;
//! - `text` holds what the others share to work on bytes.
//!
//! Every response names its content type in a header, and a request with a
//! method other than `GET` is answered with a fixed page.

pub mod content_type;
pub mod handler;
pub mod paths;
pub mod request;
pub mod response;
pub mod site;
pub mod text;
