//! Sinks: what leaves the application. A sink sends each element as one line
//! of text; this module makes the line, and whoever owns the file or the
//! socket writes it.

use vstd::prelude::*;
use vstd::string::StringExecFns;
use vstd::utf8::encode_utf8;

verus! {

/// The byte buffer of the `bytes` crate, `bytes::Bytes`. It is carried through
/// as it is: nothing is known of a buffer but what `bytes_content` names.
#[verifier::external_type_specification]
#[verifier::external_body]
pub struct ExBytes(bytes::Bytes);

/// The bytes that a `bytes::Bytes` buffer holds, from the first on.
pub uninterp spec fn bytes_content(b: bytes::Bytes) -> Seq<u8>;

/// Calls `Bytes::from` on a `String`, which is `From<String> for Bytes` of the
/// `bytes` crate: the buffer takes the string's bytes over. What is taken on
/// trust: the buffer holds exactly the bytes of the string, which are its
/// text in UTF-8.
#[verifier::external_body]
fn bytes_of_text(text: String) -> (b: bytes::Bytes)
    ensures
        bytes_content(b) == encode_utf8(text@),
{
    bytes::Bytes::from(text)
}

/// The text of an element as a sink sends it: the element as JSON where it
/// could be written so, else the element as it prints for debugging.
pub open spec fn sink_text(json: Option<Seq<char>>, debug: Seq<char>) -> Seq<char> {
    match json {
        Some(j) => j,
        None => debug,
    }
}

/// The line for an element: its text and a line feed.
pub open spec fn sink_line(json: Option<Seq<char>>, debug: Seq<char>) -> Seq<char> {
    sink_text(json, debug) + "\n"@
}

/// The view of an optional string.
pub open spec fn text_of(s: Option<String>) -> Option<Seq<char>> {
    match s {
        Some(j) => Some(j@),
        None => None,
    }
}

/// The line that a file sink writes for an element that prints as `debug`.
pub fn file_line(debug: String) -> (line: String)
    ensures
        line@ == sink_line(None, debug@),
{
    let mut line = debug;
    line.append("\n");
    line
}

/// The line that a socket sink sends for an element: `json` is the element
/// as JSON, where it could be written so, and `debug` is the element as it
/// prints for debugging.
pub fn socket_line(json: Option<String>, debug: String) -> (line: String)
    ensures
        line@ == sink_line(text_of(json), debug@),
{
    let mut line = match json {
        Some(j) => j,
        None => debug,
    };
    line.append("\n");
    line
}

/// The datagram that a socket sink sends for an element: the bytes of its
/// line.
pub fn socket_payload(json: Option<String>, debug: String) -> (payload: bytes::Bytes)
    ensures
        bytes_content(payload) == encode_utf8(sink_line(text_of(json), debug@)),
{
    bytes_of_text(socket_line(json, debug))
}

} // verus!
