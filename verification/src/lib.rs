//! A small verified HTTP/1.1 server core: a wire codec that decodes raw
//! request bytes into a structured request and encodes a structured response
//! back to bytes, and an ordered, first-match-wins routing table with a fixed
//! set of handlers. All of it works on plain byte sequences; the surrounding
//! program does the socket and file I/O.

pub mod bytes_util;
pub mod wire;
pub mod codec;
pub mod routing;

use vstd::prelude::*;

verus! {

/// A request method. Tokens other than the two recognized ones are treated
/// as `GET`; that lenience is deliberate.
#[derive(Clone, Copy, Debug, PartialEq, Eq, Structural)]
pub enum HttpMethod {
    GET,
    POST,
}

impl HttpMethod {
    /// The method a start-line token denotes: `GET` and `POST` map to
    /// themselves, anything else defaults to `GET`.
    pub open spec fn spec_from_token(token: Seq<u8>) -> HttpMethod {
        if token == seq![80u8, 79u8, 83u8, 84u8] {
            HttpMethod::POST
        } else {
            HttpMethod::GET
        }
    }

    /// Map a raw start-line token to the method it denotes.
    pub fn from_token(token: &[u8]) -> (r: HttpMethod)
        ensures
            r == HttpMethod::spec_from_token(token@),
    {
        if token.len() == 4 && token[0] == 80 && token[1] == 79 && token[2] == 83 && token[3] == 84
        {
            proof {
                assert(token@ =~= seq![80u8, 79u8, 83u8, 84u8]);
            }
            HttpMethod::POST
        } else {
            proof {
                assert(token@ != seq![80u8, 79u8, 83u8, 84u8]);
            }
            HttpMethod::GET
        }
    }
}

} // verus!
