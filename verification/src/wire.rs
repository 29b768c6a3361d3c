//! The literal byte strings of the protocol: line terminators, the header
//! separator, the status line pieces, and the header names and values the
//! handlers emit. Each constant exists twice, as a specification-level
//! sequence and as an executable vector proved equal to it.

use vstd::prelude::*;

verus! {

broadcast use vstd::array::group_array_axioms;

/// Bytes of `CRLF`.
pub open spec fn spec_crlf() -> Seq<u8> {
    seq![13u8, 10u8]
}

/// Bytes of `CRLF`.
pub fn crlf_bytes() -> (r: Vec<u8>)
    ensures
        r@ == spec_crlf(),
{
    let a = [13u8, 10u8];
    let r = vstd::slice::slice_to_vec(a.as_slice());
    proof {
        assert(r@ =~= spec_crlf());
    }
    r
}

/// Bytes of `CRLF CRLF`.
pub open spec fn spec_crlfcrlf() -> Seq<u8> {
    seq![13u8, 10u8, 13u8, 10u8]
}

/// Bytes of `CRLF CRLF`.
pub fn crlfcrlf_bytes() -> (r: Vec<u8>)
    ensures
        r@ == spec_crlfcrlf(),
{
    let a = [13u8, 10u8, 13u8, 10u8];
    let r = vstd::slice::slice_to_vec(a.as_slice());
    proof {
        assert(r@ =~= spec_crlfcrlf());
    }
    r
}

/// Bytes of `colon-space`.
pub open spec fn spec_header_sep() -> Seq<u8> {
    seq![58u8, 32u8]
}

/// Bytes of `colon-space`.
pub fn header_sep_bytes() -> (r: Vec<u8>)
    ensures
        r@ == spec_header_sep(),
{
    let a = [58u8, 32u8];
    let r = vstd::slice::slice_to_vec(a.as_slice());
    proof {
        assert(r@ =~= spec_header_sep());
    }
    r
}

/// Bytes of `HTTP/1.1 (with trailing space)`.
pub open spec fn spec_version_prefix() -> Seq<u8> {
    seq![72u8, 84u8, 84u8, 80u8, 47u8, 49u8, 46u8, 49u8, 32u8]
}

/// Bytes of `HTTP/1.1 (with trailing space)`.
pub fn version_prefix_bytes() -> (r: Vec<u8>)
    ensures
        r@ == spec_version_prefix(),
{
    let a = [72u8, 84u8, 84u8, 80u8, 47u8, 49u8, 46u8, 49u8, 32u8];
    let r = vstd::slice::slice_to_vec(a.as_slice());
    proof {
        assert(r@ =~= spec_version_prefix());
    }
    r
}

/// Bytes of `200 OK`.
pub open spec fn spec_ok_text() -> Seq<u8> {
    seq![50u8, 48u8, 48u8, 32u8, 79u8, 75u8]
}

/// Bytes of `200 OK`.
pub fn ok_text_bytes() -> (r: Vec<u8>)
    ensures
        r@ == spec_ok_text(),
{
    let a = [50u8, 48u8, 48u8, 32u8, 79u8, 75u8];
    let r = vstd::slice::slice_to_vec(a.as_slice());
    proof {
        assert(r@ =~= spec_ok_text());
    }
    r
}

/// Bytes of `404 Not Found`.
pub open spec fn spec_not_found_text() -> Seq<u8> {
    seq![52u8, 48u8, 52u8, 32u8, 78u8, 111u8, 116u8, 32u8, 70u8, 111u8, 117u8, 110u8, 100u8]
}

/// Bytes of `404 Not Found`.
pub fn not_found_text_bytes() -> (r: Vec<u8>)
    ensures
        r@ == spec_not_found_text(),
{
    let a = [52u8, 48u8, 52u8, 32u8, 78u8, 111u8, 116u8, 32u8, 70u8, 111u8, 117u8, 110u8, 100u8];
    let r = vstd::slice::slice_to_vec(a.as_slice());
    proof {
        assert(r@ =~= spec_not_found_text());
    }
    r
}

/// Bytes of `Content-Length`.
pub open spec fn spec_content_length() -> Seq<u8> {
    seq![67u8, 111u8, 110u8, 116u8, 101u8, 110u8, 116u8, 45u8, 76u8, 101u8, 110u8, 103u8, 116u8, 104u8]
}

/// Bytes of `Content-Length`.
pub fn content_length_bytes() -> (r: Vec<u8>)
    ensures
        r@ == spec_content_length(),
{
    let a = [67u8, 111u8, 110u8, 116u8, 101u8, 110u8, 116u8, 45u8, 76u8, 101u8, 110u8, 103u8, 116u8, 104u8];
    let r = vstd::slice::slice_to_vec(a.as_slice());
    proof {
        assert(r@ =~= spec_content_length());
    }
    r
}

/// Bytes of `Content-Type`.
pub open spec fn spec_content_type() -> Seq<u8> {
    seq![67u8, 111u8, 110u8, 116u8, 101u8, 110u8, 116u8, 45u8, 84u8, 121u8, 112u8, 101u8]
}

/// Bytes of `Content-Type`.
pub fn content_type_bytes() -> (r: Vec<u8>)
    ensures
        r@ == spec_content_type(),
{
    let a = [67u8, 111u8, 110u8, 116u8, 101u8, 110u8, 116u8, 45u8, 84u8, 121u8, 112u8, 101u8];
    let r = vstd::slice::slice_to_vec(a.as_slice());
    proof {
        assert(r@ =~= spec_content_type());
    }
    r
}

/// Bytes of `text/plain`.
pub open spec fn spec_text_plain() -> Seq<u8> {
    seq![116u8, 101u8, 120u8, 116u8, 47u8, 112u8, 108u8, 97u8, 105u8, 110u8]
}

/// Bytes of `text/plain`.
pub fn text_plain_bytes() -> (r: Vec<u8>)
    ensures
        r@ == spec_text_plain(),
{
    let a = [116u8, 101u8, 120u8, 116u8, 47u8, 112u8, 108u8, 97u8, 105u8, 110u8];
    let r = vstd::slice::slice_to_vec(a.as_slice());
    proof {
        assert(r@ =~= spec_text_plain());
    }
    r
}

/// Bytes of `application/octet-stream`.
pub open spec fn spec_octet_stream() -> Seq<u8> {
    seq![97u8, 112u8, 112u8, 108u8, 105u8, 99u8, 97u8, 116u8, 105u8, 111u8, 110u8, 47u8, 111u8, 99u8, 116u8, 101u8, 116u8, 45u8, 115u8, 116u8, 114u8, 101u8, 97u8, 109u8]
}

/// Bytes of `application/octet-stream`.
pub fn octet_stream_bytes() -> (r: Vec<u8>)
    ensures
        r@ == spec_octet_stream(),
{
    let a = [97u8, 112u8, 112u8, 108u8, 105u8, 99u8, 97u8, 116u8, 105u8, 111u8, 110u8, 47u8, 111u8, 99u8, 116u8, 101u8, 116u8, 45u8, 115u8, 116u8, 114u8, 101u8, 97u8, 109u8];
    let r = vstd::slice::slice_to_vec(a.as_slice());
    proof {
        assert(r@ =~= spec_octet_stream());
    }
    r
}

/// Bytes of `User-Agent`.
pub open spec fn spec_user_agent_name() -> Seq<u8> {
    seq![85u8, 115u8, 101u8, 114u8, 45u8, 65u8, 103u8, 101u8, 110u8, 116u8]
}

/// Bytes of `User-Agent`.
pub fn user_agent_name_bytes() -> (r: Vec<u8>)
    ensures
        r@ == spec_user_agent_name(),
{
    let a = [85u8, 115u8, 101u8, 114u8, 45u8, 65u8, 103u8, 101u8, 110u8, 116u8];
    let r = vstd::slice::slice_to_vec(a.as_slice());
    proof {
        assert(r@ =~= spec_user_agent_name());
    }
    r
}

/// Bytes of `/echo/`.
pub open spec fn spec_echo_prefix() -> Seq<u8> {
    seq![47u8, 101u8, 99u8, 104u8, 111u8, 47u8]
}

/// Bytes of `/echo/`.
pub fn echo_prefix_bytes() -> (r: Vec<u8>)
    ensures
        r@ == spec_echo_prefix(),
{
    let a = [47u8, 101u8, 99u8, 104u8, 111u8, 47u8];
    let r = vstd::slice::slice_to_vec(a.as_slice());
    proof {
        assert(r@ =~= spec_echo_prefix());
    }
    r
}

/// Bytes of `/files/`.
pub open spec fn spec_files_prefix() -> Seq<u8> {
    seq![47u8, 102u8, 105u8, 108u8, 101u8, 115u8, 47u8]
}

/// Bytes of `/files/`.
pub fn files_prefix_bytes() -> (r: Vec<u8>)
    ensures
        r@ == spec_files_prefix(),
{
    let a = [47u8, 102u8, 105u8, 108u8, 101u8, 115u8, 47u8];
    let r = vstd::slice::slice_to_vec(a.as_slice());
    proof {
        assert(r@ =~= spec_files_prefix());
    }
    r
}

} // verus!
