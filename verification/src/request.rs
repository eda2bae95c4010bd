//! The request-line parser.
//!
//! A request is read into a bounded buffer and cut into words at ASCII
//! whitespace. The first three words are the method, the path and the
//! protocol version; a word that is missing is empty. Nothing is validated
//! and nothing fails: every buffer parses.

use vstd::prelude::*;
use vstd::slice::slice_subrange;

verus! {

/// Capacity of the buffer that one request is read into. Whatever the client
/// sends beyond it is never looked at.
pub const REQUEST_BUFFER_LEN: usize = 1024;

/// ASCII whitespace: space, tab, line feed, vertical tab, form feed and
/// carriage return.
pub open spec fn is_space(b: u8) -> bool {
    b == 0x20 || (0x09 <= b && b <= 0x0d)
}

/// The number of bytes of `s` in front of its first whitespace byte.
pub open spec fn word_len(s: Seq<u8>) -> nat
    decreases s.len(),
{
    if s.len() == 0 || is_space(s[0]) {
        0
    } else {
        1 + word_len(s.drop_first())
    }
}

/// The words of `s`: its maximal runs of bytes that are not whitespace, in
/// the order in which they occur.
pub open spec fn words(s: Seq<u8>) -> Seq<Seq<u8>>
    decreases s.len(),
    via words_decreases
{
    if s.len() == 0 {
        Seq::empty()
    } else if is_space(s[0]) {
        words(s.drop_first())
    } else {
        seq![s.take(word_len(s) as int)] + words(s.skip(word_len(s) as int))
    }
}

#[via_fn]
proof fn words_decreases(s: Seq<u8>) {
    lemma_word_len(s);
}

/// The `n`-th word of `s`, counted from zero, or the empty string where `s`
/// has no such word.
pub open spec fn nth_word(s: Seq<u8>, n: int) -> Seq<u8> {
    if 0 <= n < words(s).len() {
        words(s)[n]
    } else {
        Seq::empty()
    }
}

/// A request line as a mathematical value.
pub struct RequestLine {
    pub method: Seq<u8>,
    pub path: Seq<u8>,
    pub version: Seq<u8>,
}

/// What a buffer parses to: its first three words.
pub open spec fn parse(buffer: Seq<u8>) -> RequestLine {
    RequestLine {
        method: nth_word(buffer, 0),
        path: nth_word(buffer, 1),
        version: nth_word(buffer, 2),
    }
}

/// A parsed request line. The fields borrow from the buffer that was parsed.
#[derive(Clone, Copy, Debug, PartialEq, Eq)]
pub struct Request<'a> {
    pub method: &'a [u8],
    pub path: &'a [u8],
    pub version: &'a [u8],
}

impl<'a> View for Request<'a> {
    type V = RequestLine;

    open spec fn view(&self) -> RequestLine {
        RequestLine { method: self.method@, path: self.path@, version: self.version@ }
    }
}

/// `word_len` stops at the first whitespace byte or at the end.
pub proof fn lemma_word_len(s: Seq<u8>)
    ensures
        word_len(s) <= s.len(),
        forall|k: int| 0 <= k < word_len(s) ==> !is_space(#[trigger] s[k]),
        word_len(s) < s.len() ==> is_space(s[word_len(s) as int]),
        s.len() > 0 && !is_space(s[0]) ==> word_len(s) >= 1,
    decreases s.len(),
{
    if s.len() > 0 && !is_space(s[0]) {
        let t = s.drop_first();
        lemma_word_len(t);
        assert forall|k: int| 0 <= k < word_len(s) implies !is_space(#[trigger] s[k]) by {
            if k > 0 {
                assert(s[k] == t[k - 1]);
            }
        }
    }
}

/// `word_len(s)` is the only position that ends a run of non-whitespace
/// bytes starting at the front of `s`.
pub proof fn lemma_word_len_unique(s: Seq<u8>, n: int)
    requires
        0 <= n <= s.len(),
        forall|k: int| 0 <= k < n ==> !is_space(#[trigger] s[k]),
        n < s.len() ==> is_space(s[n]),
    ensures
        word_len(s) == n,
{
    // A shorter or a longer run would put a whitespace byte and a byte that
    // is none at the same position.
    lemma_word_len(s);
}

/// A word: a non-empty byte string without whitespace.
pub open spec fn is_word(w: Seq<u8>) -> bool {
    w.len() > 0 && forall|k: int| 0 <= k < w.len() ==> !is_space(#[trigger] w[k])
}

/// The line that a client sends for the given method, path and version: the
/// three separated by single spaces and closed by a carriage return and a
/// line feed.
pub open spec fn request_line(method: Seq<u8>, path: Seq<u8>, version: Seq<u8>) -> Seq<u8> {
    method + seq![0x20u8] + path + seq![0x20u8] + version + seq![0x0du8, 0x0au8]
}

/// Every element of `words(s)` is a word.
pub proof fn lemma_words_are_words(s: Seq<u8>, i: int)
    requires
        0 <= i < words(s).len(),
    ensures
        is_word(words(s)[i]),
    decreases s.len(),
{
    if s.len() == 0 {
    } else if is_space(s[0]) {
        lemma_words_are_words(s.drop_first(), i);
    } else {
        lemma_word_len(s);
        let n = word_len(s) as int;
        if i == 0 {
            assert(forall|k: int| 0 <= k < n ==> !is_space(#[trigger] s.take(n)[k]));
        } else {
            lemma_words_are_words(s.skip(n), i - 1);
        }
    }
}

/// Whitespace in front of a text adds no word.
pub proof fn lemma_words_after_space(sp: u8, t: Seq<u8>)
    requires
        is_space(sp),
    ensures
        words(seq![sp] + t) == words(t),
{
    assert((seq![sp] + t).drop_first() =~= t);
}

/// A word followed by whitespace is the first word of the text, and the
/// other words are those of what follows.
pub proof fn lemma_words_after_word(w: Seq<u8>, sp: u8, t: Seq<u8>)
    requires
        is_word(w),
        is_space(sp),
    ensures
        words(w + seq![sp] + t) == seq![w] + words(t),
{
    let s = w + seq![sp] + t;
    let n = w.len() as int;
    assert(forall|k: int| 0 <= k < n ==> !is_space(#[trigger] s[k]));
    lemma_word_len_unique(s, n);
    assert(s.take(n) =~= w);
    assert(s.skip(n) =~= seq![sp] + t);
    lemma_words_after_space(sp, t);
}

/// A text of whitespace alone has no words.
pub proof fn lemma_blank_has_no_words(s: Seq<u8>)
    requires
        forall|k: int| 0 <= k < s.len() ==> is_space(#[trigger] s[k]),
    ensures
        words(s).len() == 0,
    decreases s.len(),
{
    if s.len() > 0 {
        let t = s.drop_first();
        assert(forall|k: int| 0 <= k < t.len() ==> is_space(#[trigger] t[k]));
        lemma_blank_has_no_words(t);
    }
}

/// A word alone is the only word of the text.
pub proof fn lemma_words_of_word(w: Seq<u8>)
    requires
        is_word(w),
    ensures
        words(w) == seq![w],
{
    let n = w.len() as int;
    lemma_word_len_unique(w, n);
    assert(w.take(n) =~= w);
    assert(seq![w] + words(w.skip(n)) =~= seq![w]);
}

/// Parsing inverts `request_line`: a line made of three words parses to
/// those words, whatever follows the line in the buffer.
pub proof fn lemma_parse_request_line(
    method: Seq<u8>,
    path: Seq<u8>,
    version: Seq<u8>,
    rest: Seq<u8>,
)
    requires
        is_word(method),
        is_word(path),
        is_word(version),
    ensures
        parse(request_line(method, path, version) + rest) == (RequestLine {
            method,
            path,
            version,
        }),
{
    let after_version = seq![0x0au8] + rest;
    let after_path = version + seq![0x0du8] + after_version;
    let after_method = path + seq![0x20u8] + after_path;
    let buffer = method + seq![0x20u8] + after_method;
    assert(request_line(method, path, version) + rest =~= buffer);
    lemma_words_after_word(method, 0x20u8, after_method);
    lemma_words_after_word(path, 0x20u8, after_path);
    lemma_words_after_word(version, 0x0du8, after_version);
}

/// Whether `b` is ASCII whitespace.
pub fn is_whitespace(b: u8) -> (r: bool)
    ensures
        r == is_space(b),
{
    b == 0x20 || (0x09 <= b && b <= 0x0d)
}

/// Finds the first word of `buffer` at or after position `from`. Returns the
/// word, empty where only whitespace is left, and the position behind it.
fn next_word<'a>(buffer: &'a [u8], from: usize) -> (r: (&'a [u8], usize))
    requires
        from <= buffer@.len(),
    ensures
        from <= r.1 <= buffer@.len(),
        r.0@ == nth_word(buffer@.skip(from as int), 0),
        words(buffer@.skip(from as int)).len() > 0 ==> words(buffer@.skip(r.1 as int)) == words(
            buffer@.skip(from as int),
        ).drop_first(),
        words(buffer@.skip(from as int)).len() == 0 ==> words(buffer@.skip(r.1 as int)).len() == 0,
{
    let len = buffer.len();
    let mut start: usize = from;
    while start < len && is_whitespace(buffer[start])
        invariant
            len == buffer@.len(),
            from <= start <= len,
            words(buffer@.skip(start as int)) == words(buffer@.skip(from as int)),
        decreases len - start,
    {
        assert(buffer@.skip(start as int).drop_first() =~= buffer@.skip(start + 1));
        start += 1;
    }
    let mut end: usize = start;
    while end < len && !is_whitespace(buffer[end])
        invariant
            len == buffer@.len(),
            start <= end <= len,
            forall|k: int| start <= k < end ==> !is_space(#[trigger] buffer@[k]),
        decreases len - end,
    {
        end += 1;
    }
    let word = slice_subrange(buffer, start, end);
    proof {
        // The bytes from `start` to `end` are the first word of what is left
        // at `start`, if anything is.
        let s = buffer@.skip(start as int);
        assert(forall|k: int| 0 <= k < end - start ==> !is_space(#[trigger] s[k]));
        lemma_word_len_unique(s, end - start);
        assert(s.take(end - start) =~= word@);
        assert(s.skip(end - start) =~= buffer@.skip(end as int));
    }
    (word, end)
}

/// Parses the request line at the start of `buffer`: the method, the path
/// and the version are the first, second and third word of the buffer, each
/// empty where the buffer has no such word.
pub fn parse_request<'a>(buffer: &'a [u8]) -> (request: Request<'a>)
    ensures
        request@ == parse(buffer@),
{
    assert(buffer@.skip(0) =~= buffer@);
    let (method, after_method) = next_word(buffer, 0);
    let (path, after_path) = next_word(buffer, after_method);
    let (version, _) = next_word(buffer, after_path);
    Request { method, path, version }
}

} // verus!
