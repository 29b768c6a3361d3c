//! The wire codec: decoding raw request bytes into a structured [`Request`],
//! and encoding a structured [`Response`] back into raw bytes.
//!
//! Decoding interprets the bytes as UTF-8 text, cuts the head section off at
//! the first blank line, reads `method` and `path` from the start-line, and
//! collects one header per remaining head line that contains the `": "`
//! separator. A missing path fails the decode; an unrecognized method does
//! not. The body section is never parsed.

use vstd::prelude::*;

use crate::bytes_util::{
    append_slice, bytes_eq, dec_of, find_first, find_sub, lemma_find_first, split_on,
    split_on_sep, lemma_split_on_len,
};
use crate::wire::{
    crlf_bytes, crlfcrlf_bytes, header_sep_bytes, not_found_text_bytes, ok_text_bytes,
    spec_content_length, spec_crlf, spec_crlfcrlf, spec_header_sep, spec_not_found_text,
    spec_ok_text, spec_version_prefix, version_prefix_bytes,
};
use crate::HttpMethod;

verus! {

broadcast use vstd::array::group_array_axioms;

/// Why a decode failed: the bytes were not UTF-8 text, or the start-line had
/// fewer than two space-separated tokens.
#[derive(Clone, Copy, Debug, PartialEq, Eq, Structural)]
pub enum DecodeError {
    EncodingError,
    MalformedStartLine,
}

/// One header, name and value, case preserved exactly as received.
pub struct Header {
    pub name: Vec<u8>,
    pub value: Vec<u8>,
}

impl View for Header {
    type V = (Seq<u8>, Seq<u8>);

    open spec fn view(&self) -> (Seq<u8>, Seq<u8>) {
        (self.name@, self.value@)
    }
}

/// The header pairs a sequence of headers denotes.
pub open spec fn headers_view(hs: Seq<Header>) -> Seq<(Seq<u8>, Seq<u8>)> {
    hs.map_values(|h: Header| h@)
}

/// The byte sequences a sequence of byte vectors denotes.
pub open spec fn lines_view(lines: Seq<Vec<u8>>) -> Seq<Seq<u8>> {
    lines.map_values(|l: Vec<u8>| l@)
}

/// The head section: everything before the first blank line, or all of the
/// input when there is none.
pub open spec fn spec_head(data: Seq<u8>) -> Seq<u8> {
    match find_first(data, spec_crlfcrlf()) {
        None => data,
        Some(i) => data.subrange(0, i),
    }
}

/// The lines of the head section.
pub open spec fn spec_head_lines(data: Seq<u8>) -> Seq<Seq<u8>> {
    split_on(spec_head(data), spec_crlf())
}

/// The space-separated tokens of a line.
pub open spec fn spec_tokens(line: Seq<u8>) -> Seq<Seq<u8>> {
    split_on(line, seq![32u8])
}

/// Whether the start-line carries at least a method token and a path token.
pub open spec fn start_line_ok(data: Seq<u8>) -> bool {
    spec_tokens(spec_head_lines(data)[0]).len() >= 2
}

/// The method of the request: the first start-line token.
pub open spec fn spec_method(data: Seq<u8>) -> HttpMethod {
    HttpMethod::spec_from_token(spec_tokens(spec_head_lines(data)[0])[0])
}

/// The path of the request: the second start-line token.
pub open spec fn spec_path(data: Seq<u8>) -> Seq<u8> {
    spec_tokens(spec_head_lines(data)[0])[1]
}

/// The header a head line denotes: the part before the first `": "` names
/// it, everything after that separator is its value. A line without the
/// separator denotes no header.
pub open spec fn spec_header_of_line(line: Seq<u8>) -> Option<(Seq<u8>, Seq<u8>)> {
    match find_first(line, spec_header_sep()) {
        None => None,
        Some(i) => Some((line.subrange(0, i), line.subrange(i + 2, line.len() as int))),
    }
}

/// The headers of a sequence of head lines, in line order, separator-less
/// lines silently discarded.
pub open spec fn spec_headers_of_lines(lines: Seq<Seq<u8>>) -> Seq<(Seq<u8>, Seq<u8>)>
    decreases lines.len(),
{
    if lines.len() == 0 {
        Seq::empty()
    } else {
        let rest = spec_headers_of_lines(lines.drop_first());
        match spec_header_of_line(lines[0]) {
            None => rest,
            Some(h) => seq![h] + rest,
        }
    }
}

/// The headers of the request: those of the head lines after the start-line.
pub open spec fn spec_headers(data: Seq<u8>) -> Seq<(Seq<u8>, Seq<u8>)> {
    spec_headers_of_lines(spec_head_lines(data).drop_first())
}

proof fn lemma_headers_of_lines_snoc(lines: Seq<Seq<u8>>, line: Seq<u8>)
    ensures
        spec_headers_of_lines(lines.push(line)) == spec_headers_of_lines(lines) + (
        match spec_header_of_line(line) {
            None => Seq::<(Seq<u8>, Seq<u8>)>::empty(),
            Some(h) => seq![h],
        }),
    decreases lines.len(),
{
    let tail = (match spec_header_of_line(line) {
        None => Seq::<(Seq<u8>, Seq<u8>)>::empty(),
        Some(h) => seq![h],
    });
    if lines.len() == 0 {
        assert(lines =~= Seq::<Seq<u8>>::empty());
        assert(lines.push(line)[0] == line);
        assert(lines.push(line).drop_first() =~= Seq::<Seq<u8>>::empty());
        assert(spec_headers_of_lines(Seq::<Seq<u8>>::empty()) =~= Seq::<(
            Seq<u8>,
            Seq<u8>,
        )>::empty());
        assert(spec_headers_of_lines(lines.push(line)) =~= spec_headers_of_lines(lines) + tail);
    } else {
        assert(lines.push(line).drop_first() =~= lines.drop_first().push(line));
        lemma_headers_of_lines_snoc(lines.drop_first(), line);
        assert(lines.push(line)[0] == lines[0]);
        match spec_header_of_line(lines[0]) {
            None => {},
            Some(h) => {
                assert(seq![h] + (spec_headers_of_lines(lines.drop_first()) + tail) =~= (seq![h]
                    + spec_headers_of_lines(lines.drop_first())) + tail);
            },
        }
    }
}

/// The value under `name` among the header pairs, the last occurrence
/// winning when a name repeats.
pub open spec fn spec_lookup(headers: Seq<(Seq<u8>, Seq<u8>)>, name: Seq<u8>) -> Option<Seq<u8>>
    decreases headers.len(),
{
    if headers.len() == 0 {
        None
    } else if headers.last().0 == name {
        Some(headers.last().1)
    } else {
        spec_lookup(headers.drop_last(), name)
    }
}

/// Looking a decoded header up by its exact name: when line `i` carries the
/// `": "` separator and no later line carries a header of the same name,
/// the lookup yields precisely the value that followed the first `": "` of
/// line `i`.
pub proof fn lemma_decoded_header_lookup(lines: Seq<Seq<u8>>, i: int)
    requires
        0 <= i < lines.len(),
        spec_header_of_line(lines[i]) is Some,
        forall|j: int|
            i < j < lines.len() ==> !((#[trigger] spec_header_of_line(lines[j])) matches Some(h)
                && h.0 == spec_header_of_line(lines[i])->Some_0.0),
    ensures
        spec_lookup(spec_headers_of_lines(lines), spec_header_of_line(lines[i])->Some_0.0) == Some(
            spec_header_of_line(lines[i])->Some_0.1,
        ),
    decreases lines.len(),
{
    let name = spec_header_of_line(lines[i])->Some_0.0;
    let last = lines.last();
    let init = lines.drop_last();
    assert(init.push(last) =~= lines);
    lemma_headers_of_lines_snoc(init, last);
    if i == lines.len() - 1 {
        let h = spec_header_of_line(last)->Some_0;
        let hs = spec_headers_of_lines(lines);
        assert(hs =~= spec_headers_of_lines(init) + seq![h]);
        assert(hs.last() == h);
    } else {
        match spec_header_of_line(last) {
            None => {
                assert(spec_headers_of_lines(lines) =~= spec_headers_of_lines(init));
                assert(init[i] == lines[i]);
                lemma_decoded_header_lookup(init, i);
            },
            Some(h_last) => {
                assert(h_last.0 != name);
                let hs = spec_headers_of_lines(lines);
                assert(hs =~= spec_headers_of_lines(init) + seq![h_last]);
                assert(hs.last() == h_last);
                assert(hs.drop_last() =~= spec_headers_of_lines(init));
                assert(init[i] == lines[i]);
                lemma_decoded_header_lookup(init, i);
            },
        }
    }
}

/// A name that no line carries as a header is absent from the decoded
/// mapping; in particular a line without the separator contributes nothing.
pub proof fn lemma_decoded_header_absent(lines: Seq<Seq<u8>>, name: Seq<u8>)
    requires
        forall|j: int|
            0 <= j < lines.len() ==> !((#[trigger] spec_header_of_line(lines[j])) matches Some(h)
                && h.0 == name),
    ensures
        spec_lookup(spec_headers_of_lines(lines), name) is None,
    decreases lines.len(),
{
    if lines.len() == 0 {
        assert(spec_headers_of_lines(lines) =~= Seq::<(Seq<u8>, Seq<u8>)>::empty());
    } else {
        let last = lines.last();
        let init = lines.drop_last();
        assert(init.push(last) =~= lines);
        lemma_headers_of_lines_snoc(init, last);
        assert(forall|j: int| 0 <= j < init.len() ==> init[j] == lines[j]);
        lemma_decoded_header_absent(init, name);
        match spec_header_of_line(last) {
            None => {
                assert(spec_headers_of_lines(lines) =~= spec_headers_of_lines(init));
            },
            Some(h_last) => {
                let hs = spec_headers_of_lines(lines);
                assert(hs =~= spec_headers_of_lines(init) + seq![h_last]);
                assert(hs.last() == h_last);
                assert(hs.drop_last() =~= spec_headers_of_lines(init));
            },
        }
    }
}

/// How far a request has arrived: the head section is complete once the
/// blank line is in, and a buffer that reaches its ceiling without one is
/// too large to ever complete.
#[derive(Clone, Copy, Debug, PartialEq, Eq, Structural)]
pub enum ReadState {
    NeedMore,
    Complete,
    TooLarge,
}

/// Decide whether enough of a request has arrived to decode it: complete
/// once the double line-terminator is present, too large once the buffer
/// reaches `limit` without one, and otherwise worth another read.
pub fn read_progress(buf: &[u8], limit: usize) -> (r: ReadState)
    ensures
        r == (if find_first(buf@, spec_crlfcrlf()) is Some {
            ReadState::Complete
        } else if buf@.len() >= limit {
            ReadState::TooLarge
        } else {
            ReadState::NeedMore
        }),
{
    let sep = crlfcrlf_bytes();
    match find_sub(buf, sep.as_slice()) {
        Some(_) => ReadState::Complete,
        None => {
            if buf.len() >= limit {
                ReadState::TooLarge
            } else {
                ReadState::NeedMore
            }
        },
    }
}

/// A decoded request. Built exactly once per connection by [`Request::parse`]
/// and immutable afterwards.
pub struct Request {
    pub path: Vec<u8>,
    pub method: HttpMethod,
    pub headers: Vec<Header>,
}

/// The mathematical content of a [`Request`].
pub struct RequestView {
    pub method: HttpMethod,
    pub path: Seq<u8>,
    pub headers: Seq<(Seq<u8>, Seq<u8>)>,
}

impl View for Request {
    type V = RequestView;

    open spec fn view(&self) -> RequestView {
        RequestView { method: self.method, path: self.path@, headers: headers_view(self.headers@) }
    }
}

/// Relies on core::str::from_utf8: it returns `Ok` exactly when the bytes
/// are valid UTF-8, the property that `vstd::utf8::valid_utf8` describes.
#[verifier::external_body]
fn utf8_ok(data: &[u8]) -> (r: bool)
    ensures
        r == vstd::utf8::valid_utf8(data@),
{
    core::str::from_utf8(data).is_ok()
}

impl Request {
    /// Read the method and the path off a start-line: the first two
    /// space-separated tokens. Fails when the line has fewer than two.
    pub fn parse_top(line: &[u8]) -> (r: Result<(HttpMethod, Vec<u8>), DecodeError>)
        ensures
            r is Ok <==> spec_tokens(line@).len() >= 2,
            r matches Ok(mp) ==> mp.0 == HttpMethod::spec_from_token(spec_tokens(line@)[0])
                && mp.1@ == spec_tokens(line@)[1],
            r matches Err(e) ==> e == DecodeError::MalformedStartLine,
    {
        let sp = [32u8];
        proof {
            assert(sp@ =~= seq![32u8]);
        }
        let tokens = split_on_sep(line, sp.as_slice());
        if tokens.len() < 2 {
            return Err(DecodeError::MalformedStartLine);
        }
        proof {
            assert(tokens.deep_view()[0] =~= tokens@[0]@);
            assert(tokens.deep_view()[1] =~= tokens@[1]@);
        }
        let method = HttpMethod::from_token(tokens[0].as_slice());
        let path = vstd::slice::slice_to_vec(tokens[1].as_slice());
        Ok((method, path))
    }

    /// Collect the headers among a set of head lines: one per line that
    /// contains the `": "` separator, in line order.
    pub fn parse_header(lines: &[Vec<u8>]) -> (r: Vec<Header>)
        ensures
            headers_view(r@) == spec_headers_of_lines(lines_view(lines@)),
    {
        let sep = header_sep_bytes();
        let mut r: Vec<Header> = Vec::new();
        let mut k: usize = 0;
        proof {
            assert(lines_view(lines@).take(0) =~= Seq::<Seq<u8>>::empty());
            assert(headers_view(r@) =~= spec_headers_of_lines(lines_view(lines@).take(0)));
        }
        while k < lines.len()
            invariant
                k <= lines@.len(),
                sep@ == spec_header_sep(),
                headers_view(r@) == spec_headers_of_lines(lines_view(lines@).take(k as int)),
            decreases lines@.len() - k,
        {
            let ghost lv = lines_view(lines@);
            let line = &lines[k];
            let ghost old_hv = headers_view(r@);
            match find_sub(line.as_slice(), sep.as_slice()) {
                Some(i) => {
                    proof {
                        lemma_find_first(line@, spec_header_sep());
                    }
                    let ll = line.len();
                    let name = vstd::slice::slice_to_vec(&line.as_slice()[0..i]);
                    let value = vstd::slice::slice_to_vec(&line.as_slice()[i + 2..ll]);
                    r.push(Header { name, value });
                    proof {
                        assert(spec_header_of_line(lv[k as int]) matches Some(h) && h
                            == r@.last()@);
                        assert(headers_view(r@) =~= old_hv.push(r@.last()@));
                    }
                },
                None => {
                    proof {
                        assert(spec_header_of_line(lv[k as int]) is None);
                    }
                },
            }
            k += 1;
            proof {
                lemma_headers_of_lines_snoc(lv.take(k - 1), lv[k - 1]);
                assert(lv.take(k as int) =~= lv.take(k - 1).push(lv[k - 1]));
                match spec_header_of_line(lv[k - 1]) {
                    None => {
                        assert(headers_view(r@) =~= spec_headers_of_lines(lv.take(k as int)));
                    },
                    Some(h) => {
                        assert(headers_view(r@) =~= spec_headers_of_lines(lv.take(k - 1)) + seq![
                            h,
                        ]);
                    },
                }
            }
        }
        proof {
            assert(lines_view(lines@).take(lines@.len() as int) =~= lines_view(lines@));
        }
        r
    }

    /// Decode one raw request. The bytes must be UTF-8 text and the
    /// start-line must carry a method and a path; the request then holds
    /// exactly the method, the path and the headers that the head section
    /// spells out. No response is owed for a failed decode: the caller
    /// drops the connection.
    pub fn parse(data: &[u8]) -> (r: Result<Request, DecodeError>)
        ensures
            r is Ok <==> vstd::utf8::valid_utf8(data@) && start_line_ok(data@),
            !vstd::utf8::valid_utf8(data@) ==> (r matches Err(e) && e
                == DecodeError::EncodingError),
            vstd::utf8::valid_utf8(data@) && !start_line_ok(data@) ==> (r matches Err(e) && e
                == DecodeError::MalformedStartLine),
            r matches Ok(req) ==> {
                &&& req@.method == spec_method(data@)
                &&& req@.path == spec_path(data@)
                &&& req@.headers == spec_headers(data@)
            },
    {
        if !utf8_ok(data) {
            return Err(DecodeError::EncodingError);
        }
        let sep4 = crlfcrlf_bytes();
        let head: &[u8] = match find_sub(data, sep4.as_slice()) {
            Some(i) => {
                proof {
                    lemma_find_first(data@, spec_crlfcrlf());
                }
                &data[0..i]
            },
            None => &data[0..data.len()],
        };
        proof {
            assert(head@ =~= spec_head(data@));
        }
        let sep2 = crlf_bytes();
        let lines = split_on_sep(head, sep2.as_slice());
        proof {
            lemma_split_on_len(head@, spec_crlf());
            assert(lines.deep_view() == spec_head_lines(data@));
            assert(lines@.len() == lines.deep_view().len());
            assert(lines.deep_view()[0] =~= lines@[0]@);
        }
        let (method, path) = match Self::parse_top(lines[0].as_slice()) {
            Ok(mp) => mp,
            Err(e) => {
                return Err(e);
            },
        };
        let all = lines.as_slice();
        let hdr_lines: &[Vec<u8>] = &all[1..all.len()];
        proof {
            assert forall|j: int| 0 <= j < hdr_lines@.len() implies lines_view(hdr_lines@)[j]
                == spec_head_lines(data@).drop_first()[j] by {
                assert(hdr_lines@[j] == lines@[j + 1]);
                assert(lines.deep_view()[j + 1] =~= lines@[j + 1]@);
            }
            assert(lines_view(hdr_lines@) =~= spec_head_lines(data@).drop_first());
        }
        let headers = Self::parse_header(hdr_lines);
        Ok(Request { method, path, headers })
    }

    /// Value of the header called `name`, matched case-sensitively; the last
    /// occurrence wins when a name repeats.
    pub fn header(&self, name: &[u8]) -> (r: Option<Vec<u8>>)
        ensures
            match r {
                Some(v) => spec_lookup(self@.headers, name@) == Some(v@),
                None => spec_lookup(self@.headers, name@) is None,
            },
    {
        let ghost hv = self@.headers;
        let mut i = self.headers.len();
        proof {
            assert(hv.take(i as int) =~= hv);
        }
        while i > 0
            invariant
                i <= self.headers@.len(),
                hv == self@.headers,
                spec_lookup(hv, name@) == spec_lookup(hv.take(i as int), name@),
            decreases i,
        {
            let h = &self.headers[i - 1];
            if bytes_eq(h.name.as_slice(), name) {
                proof {
                    assert(hv.take(i as int).last() == hv[i - 1]);
                }
                return Some(vstd::slice::slice_to_vec(h.value.as_slice()));
            }
            proof {
                assert(hv.take(i as int).last() == hv[i - 1]);
                assert(hv.take(i as int).drop_last() =~= hv.take(i - 1));
            }
            i -= 1;
        }
        proof {
            assert(hv.take(0) =~= Seq::<(Seq<u8>, Seq<u8>)>::empty());
        }
        None
    }
}

/// A response status. A closed set for now, open to extension.
#[derive(Clone, Copy, Debug, PartialEq, Eq, Structural)]
pub enum HttpCode {
    OK,
    NotFound,
}

/// The status-line text of a status: `200 OK` or `404 Not Found`.
pub open spec fn spec_status_text(c: HttpCode) -> Seq<u8> {
    match c {
        HttpCode::OK => spec_ok_text(),
        HttpCode::NotFound => spec_not_found_text(),
    }
}

impl HttpCode {
    /// Render the status-line text of this status.
    pub fn status_text(&self) -> (r: Vec<u8>)
        ensures
            r@ == spec_status_text(*self),
    {
        match self {
            HttpCode::OK => ok_text_bytes(),
            HttpCode::NotFound => not_found_text_bytes(),
        }
    }
}

/// A response to be encoded: a status, an optional body, and optional
/// headers. Produced once by a handler and consumed once by the encoder.
pub struct Response {
    pub code: HttpCode,
    pub content: Option<Vec<u8>>,
    pub headers: Option<Vec<Header>>,
}

/// The mathematical content of a [`Response`].
pub struct ResponseView {
    pub code: HttpCode,
    pub content: Option<Seq<u8>>,
    pub headers: Option<Seq<(Seq<u8>, Seq<u8>)>>,
}

impl View for Response {
    type V = ResponseView;

    open spec fn view(&self) -> ResponseView {
        ResponseView {
            code: self.code,
            content: match self.content {
                None => None,
                Some(ref b) => Some(b@),
            },
            headers: match self.headers {
                None => None,
                Some(ref hs) => Some(headers_view(hs@)),
            },
        }
    }
}

/// The wire form of one header: name, `": "`, value, CRLF.
pub open spec fn spec_header_line(h: (Seq<u8>, Seq<u8>)) -> Seq<u8> {
    h.0 + spec_header_sep() + h.1 + spec_crlf()
}

/// The wire form of a sequence of headers, one line each, in order.
pub open spec fn spec_headers_bytes(hs: Seq<(Seq<u8>, Seq<u8>)>) -> Seq<u8>
    decreases hs.len(),
{
    if hs.len() == 0 {
        Seq::empty()
    } else {
        spec_header_line(hs[0]) + spec_headers_bytes(hs.drop_first())
    }
}

/// One header line more on the right extends the wire form on the right.
pub proof fn lemma_headers_bytes_snoc(hs: Seq<(Seq<u8>, Seq<u8>)>, h: (Seq<u8>, Seq<u8>))
    ensures
        spec_headers_bytes(hs.push(h)) == spec_headers_bytes(hs) + spec_header_line(h),
    decreases hs.len(),
{
    if hs.len() == 0 {
        assert(hs.push(h)[0] == h);
        assert(hs.push(h).drop_first() =~= Seq::<(Seq<u8>, Seq<u8>)>::empty());
        assert(spec_headers_bytes(Seq::<(Seq<u8>, Seq<u8>)>::empty()) =~= Seq::<u8>::empty());
        assert(spec_headers_bytes(hs.push(h)) =~= spec_headers_bytes(hs) + spec_header_line(h));
    } else {
        assert(hs.push(h)[0] == hs[0]);
        assert(hs.push(h).drop_first() =~= hs.drop_first().push(h));
        lemma_headers_bytes_snoc(hs.drop_first(), h);
        assert(spec_header_line(hs[0]) + (spec_headers_bytes(hs.drop_first()) + spec_header_line(
            h,
        )) =~= (spec_header_line(hs[0]) + spec_headers_bytes(hs.drop_first())) + spec_header_line(
            h,
        ));
    }
}

/// The head section of a response's wire form: the status line, the header
/// lines in order, and the blank line — everything up to the body.
pub open spec fn spec_encode_head(r: ResponseView) -> Seq<u8> {
    spec_version_prefix() + spec_status_text(r.code) + spec_crlf() + (match r.headers {
        None => Seq::<u8>::empty(),
        Some(hs) => spec_headers_bytes(hs),
    }) + spec_crlf()
}

/// The full wire form of a response: the head section, then the body bytes
/// verbatim, if any.
pub open spec fn spec_encode(r: ResponseView) -> Seq<u8> {
    spec_encode_head(r) + (match r.content {
        None => Seq::<u8>::empty(),
        Some(b) => b,
    })
}

/// The round trip of the body length: a response whose `Content-Length`
/// header was set to the decimal rendering of its body's length emits,
/// after the head section, a body of exactly the number of bytes that the
/// header's value names.
pub proof fn lemma_encode_body_length(r: ResponseView, b: Seq<u8>)
    requires
        r.content == Some(b),
        r.headers matches Some(hs) && spec_lookup(hs, spec_content_length()) == Some(
            dec_of(b.len()),
        ),
    ensures
        spec_encode(r) == spec_encode_head(r) + b,
        spec_encode(r).skip(spec_encode_head(r).len() as int) == b,
        r.headers matches Some(hs) && spec_lookup(hs, spec_content_length()) == Some(
            dec_of(spec_encode(r).skip(spec_encode_head(r).len() as int).len()),
        ),
{
    assert(spec_encode(r).skip(spec_encode_head(r).len() as int) =~= b);
}

impl Response {
    /// Encode this response for the wire.
    pub fn into_bytes(self) -> (out: Vec<u8>)
        ensures
            out@ == spec_encode(self@),
    {
        let ghost v = self@;
        let mut out: Vec<u8> = Vec::new();
        let vp = version_prefix_bytes();
        append_slice(&mut out, vp.as_slice());
        let st = self.code.status_text();
        append_slice(&mut out, st.as_slice());
        let c0 = crlf_bytes();
        append_slice(&mut out, c0.as_slice());
        proof {
            assert(out@ =~= spec_version_prefix() + spec_status_text(v.code) + spec_crlf());
        }
        let ghost status_part = out@;
        if let Some(hs) = &self.headers {
            let ghost hv = headers_view(hs@);
            let mut k: usize = 0;
            proof {
                assert(hv.take(0) =~= Seq::<(Seq<u8>, Seq<u8>)>::empty());
                assert(spec_headers_bytes(hv.take(0)) =~= Seq::<u8>::empty());
                assert(out@ =~= status_part + spec_headers_bytes(hv.take(0)));
            }
            while k < hs.len()
                invariant
                    k <= hs@.len(),
                    hv == headers_view(hs@),
                    out@ == status_part + spec_headers_bytes(hv.take(k as int)),
                decreases hs@.len() - k,
            {
                let h = &hs[k];
                append_slice(&mut out, h.name.as_slice());
                let sep = header_sep_bytes();
                append_slice(&mut out, sep.as_slice());
                append_slice(&mut out, h.value.as_slice());
                let c1 = crlf_bytes();
                append_slice(&mut out, c1.as_slice());
                k += 1;
                proof {
                    lemma_headers_bytes_snoc(hv.take(k - 1), hv[k - 1]);
                    assert(hv.take(k as int) =~= hv.take(k - 1).push(hv[k - 1]));
                    assert(out@ =~= status_part + spec_headers_bytes(hv.take(k as int)));
                }
            }
            proof {
                assert(hv.take(hs@.len() as int) =~= hv);
            }
        }
        let ghost header_part = out@;
        let c2 = crlf_bytes();
        append_slice(&mut out, c2.as_slice());
        if let Some(content) = &self.content {
            append_slice(&mut out, content.as_slice());
        }
        proof {
            assert(out@ =~= spec_encode(v));
        }
        out
    }
}

} // verus!
