//! Content-type inference from a file's extension.

use crate::paths::{joined, leading_slashes, lemma_leading_slashes, relative};
use crate::text::{is_text, text, DOT, SLASH};
use vstd::prelude::*;
use vstd::slice::slice_subrange;

verus! {

/// Whether the extension of `path` begins behind position `dot`: that
/// position holds the last dot of the final component of the path, and the
/// component does not begin with it.
pub open spec fn is_extension_dot(path: Seq<u8>, dot: int) -> bool {
    &&& 0 < dot < path.len()
    &&& path[dot] == DOT
    &&& path[dot - 1] != SLASH
    &&& forall|k: int| dot < k < path.len() ==> path[k] != DOT && path[k] != SLASH
}

/// The extension of a path: what follows the last dot of its final
/// component. A component without a dot has none, nor has one whose only dot
/// is its first byte (a hidden file).
pub open spec fn extension(path: Seq<u8>) -> Option<Seq<u8>> {
    if exists|dot: int| is_extension_dot(path, dot) {
        Some(path.skip((choose|dot: int| is_extension_dot(path, dot)) + 1))
    } else {
        None
    }
}

/// The MIME type that is served for an extension. Extensions are matched as
/// they are written, in lower case; any other extension is plain text.
pub open spec fn content_type_for(ext: Seq<u8>) -> &'static str {
    if ext == text("html") {
        "text/html"
    } else if ext == text("css") {
        "text/css"
    } else if ext == text("js") {
        "text/javascript"
    } else if ext == text("png") {
        "image/png"
    } else if ext == text("jpg") {
        "image/jpeg"
    } else if ext == text("jpeg") {
        "image/jpeg"
    } else if ext == text("gif") {
        "image/gif"
    } else {
        "text/plain"
    }
}

/// The MIME type that is served for the file at `path`: that of its
/// extension, and plain text where it has none.
pub open spec fn content_type_of(path: Seq<u8>) -> &'static str {
    match extension(path) {
        Some(ext) => content_type_for(ext),
        None => "text/plain",
    }
}

/// A path has at most one extension dot.
pub proof fn lemma_extension_dot_unique(path: Seq<u8>, a: int, b: int)
    requires
        is_extension_dot(path, a),
        is_extension_dot(path, b),
    ensures
        a == b,
{
}

/// The extension of `stem.ext` is `ext`, where `ext` holds neither a dot nor
/// a slash and `stem` does not end a component.
pub proof fn lemma_extension_of(stem: Seq<u8>, ext: Seq<u8>)
    requires
        stem.len() > 0,
        stem.last() != SLASH,
        forall|k: int| 0 <= k < ext.len() ==> ext[k] != DOT && ext[k] != SLASH,
    ensures
        extension(stem + seq![DOT] + ext) == Some(ext),
{
    let path = stem + seq![DOT] + ext;
    let dot = stem.len() as int;
    assert(is_extension_dot(path, dot));
    lemma_extension_dot_unique(path, dot, choose|d: int| is_extension_dot(path, d));
    assert(path.skip(dot + 1) =~= ext);
}

/// An extension dot of a path is one of each of its suffixes that begin at
/// a component, and lies inside them.
proof fn lemma_extension_dot_in_suffix(path: Seq<u8>, from: int, dot: int)
    requires
        0 <= from <= path.len(),
        from > 0 ==> path[from - 1] == SLASH,
        is_extension_dot(path, dot),
    ensures
        is_extension_dot(path.skip(from), dot - from),
{
    // The dot lies behind `from`: the slash in front of the suffix would
    // follow it otherwise, or be the byte in front of it.
    assert(dot > from);
}

/// An extension dot of a suffix is one of the whole path.
proof fn lemma_extension_dot_of_suffix(path: Seq<u8>, from: int, dot: int)
    requires
        0 <= from <= path.len(),
        is_extension_dot(path.skip(from), dot),
    ensures
        is_extension_dot(path, dot + from),
{
    let tail = path.skip(from);
    assert forall|k: int| dot + from < k < path.len() implies path[k] != DOT && path[k]
        != SLASH by {
        assert(tail[k - from] == path[k]);
    }
}

/// The extension of a path is that of its final component, and so that of
/// every suffix that begins at a component.
pub proof fn lemma_extension_of_suffix(path: Seq<u8>, from: int)
    requires
        0 <= from <= path.len(),
        from > 0 ==> path[from - 1] == SLASH,
    ensures
        extension(path.skip(from)) == extension(path),
{
    let tail = path.skip(from);
    if exists|d: int| is_extension_dot(path, d) {
        let d = choose|d: int| is_extension_dot(path, d);
        lemma_extension_dot_in_suffix(path, from, d);
        let e = choose|e: int| is_extension_dot(tail, e);
        lemma_extension_dot_unique(tail, e, d - from);
        assert(tail.skip(e + 1) =~= path.skip(d + 1));
    } else if exists|e: int| is_extension_dot(tail, e) {
        let e = choose|e: int| is_extension_dot(tail, e);
        lemma_extension_dot_of_suffix(path, from, e);
    }
}

/// The extension of a file under the root is that of the request path: the
/// root never lends its own.
pub proof fn lemma_extension_under_root(root: Seq<u8>, path: Seq<u8>)
    ensures
        extension(joined(root, path)) == extension(path),
        content_type_of(joined(root, path)) == content_type_of(path),
{
    let file = joined(root, path);
    let rel = relative(path);
    let n = leading_slashes(path) as int;
    let off = file.len() - rel.len();
    lemma_leading_slashes(path);
    assert(file.skip(off) =~= rel);
    lemma_extension_of_suffix(file, off);
    lemma_extension_of_suffix(path, n);
}

/// The extension of `path`, or `None` where it has none.
pub fn file_extension<'a>(path: &'a [u8]) -> (r: Option<&'a [u8]>)
    ensures
        match r {
            Some(ext) => extension(path@) == Some(ext@),
            None => extension(path@) is None,
        },
{
    let len = path.len();
    let mut i: usize = len;
    while i > 0
        invariant
            len == path@.len(),
            i <= len,
            forall|k: int| i <= k < len ==> path@[k] != DOT && path@[k] != SLASH,
        decreases i,
    {
        i -= 1;
        let b = path[i];
        if b == SLASH {
            return None;
        }
        if b == DOT {
            if i == 0 || path[i - 1] == SLASH {
                return None;
            }
            let ext = slice_subrange(path, i + 1, len);
            proof {
                assert(is_extension_dot(path@, i as int));
                lemma_extension_dot_unique(
                    path@,
                    i as int,
                    choose|d: int| is_extension_dot(path@, d),
                );
            }
            return Some(ext);
        }
    }
    None
}

/// Infers the MIME type of the file at `filepath` from its extension.
pub fn get_content_type(filepath: &[u8]) -> (content_type: &'static str)
    ensures
        content_type@ == content_type_of(filepath@)@,
{
    match file_extension(filepath) {
        None => "text/plain",
        Some(ext) => {
            if is_text(ext, "html") {
                "text/html"
            } else if is_text(ext, "css") {
                "text/css"
            } else if is_text(ext, "js") {
                "text/javascript"
            } else if is_text(ext, "png") {
                "image/png"
            } else if is_text(ext, "jpg") {
                "image/jpeg"
            } else if is_text(ext, "jpeg") {
                "image/jpeg"
            } else if is_text(ext, "gif") {
                "image/gif"
            } else {
                "text/plain"
            }
        },
    }
}

} // verus!
