//! Explicit HTTP response framing.
//!
//! The few response heads the server ever writes are assembled here,
//! with the status line, the content length in decimal, and the blank
//! line separating head from body all pinned by the spec functions.

use vstd::prelude::*;

use crate::json::append_dec;
use crate::json::dec_seq;

verus! {

/// The head of a successful listing response: JSON content type and the
/// body length.
pub open spec fn ok_json_header_text(len: nat) -> Seq<char> {
    "HTTP/1.1 200 OK\r\nContent-Type: application/json\r\nContent-Length: "@ + dec_seq(
        len,
    ) + "\r\n\r\n"@
}

/// The head of a successful file response: just the body length, with
/// the content type left to its default.
pub open spec fn ok_file_header_text(len: nat) -> Seq<char> {
    "HTTP/1.1 200 OK\r\nContent-Length: "@ + dec_seq(len) + "\r\n\r\n"@
}

/// The head of a failure response: the status code and its reason
/// phrase, with an empty body.
pub open spec fn error_header_text(code: nat, reason: Seq<char>) -> Seq<char> {
    "HTTP/1.1 "@ + dec_seq(code) + " "@ + reason + "\r\nContent-Length: 0\r\n\r\n"@
}

/// Builds the head of a successful listing response for a body of
/// `len` bytes.
pub fn ok_json_header(len: u64) -> (r: String)
    ensures
        r@ == ok_json_header_text(len as nat),
{
    let mut out = String::from_str(
        "HTTP/1.1 200 OK\r\nContent-Type: application/json\r\nContent-Length: ",
    );
    append_dec(&mut out, len);
    out.append("\r\n\r\n");
    proof {
        assert(out@ =~= ok_json_header_text(len as nat));
    }
    out
}

/// Builds the head of a successful file response for a body of `len`
/// bytes.
pub fn ok_file_header(len: u64) -> (r: String)
    ensures
        r@ == ok_file_header_text(len as nat),
{
    let mut out = String::from_str("HTTP/1.1 200 OK\r\nContent-Length: ");
    append_dec(&mut out, len);
    out.append("\r\n\r\n");
    proof {
        assert(out@ =~= ok_file_header_text(len as nat));
    }
    out
}

/// Builds the head of a failure response with the given status code and
/// reason phrase.
pub fn error_header(code: u16, reason: &str) -> (r: String)
    ensures
        r@ == error_header_text(code as nat, reason@),
{
    let mut out = String::from_str("HTTP/1.1 ");
    append_dec(&mut out, code as u64);
    out.append(" ");
    out.append(reason);
    out.append("\r\nContent-Length: 0\r\n\r\n");
    proof {
        assert(out@ =~= error_header_text(code as nat, reason@));
    }
    out
}

} // verus!
