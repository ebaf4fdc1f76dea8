//! What a request text means: its method, resource, version, headers and
//! body, as functions of the characters received.

use crate::http::request::{Method, Version};
use crate::text::{find, split, split_once, tokens, trim};
use vstd::prelude::*;

verus! {

/// The line terminator, carriage return and line feed.
pub open spec fn crlf() -> Seq<char> {
    seq!['\r', '\n']
}

/// The separator between the head of a message and its body: an empty line.
pub open spec fn blank_line() -> Seq<char> {
    seq!['\r', '\n', '\r', '\n']
}

/// The separator between the parts of the request line.
pub open spec fn space() -> Seq<char> {
    seq![' ']
}

/// The separator between a header's name and its value.
pub open spec fn colon() -> Seq<char> {
    seq![':']
}

/// A request as the parser understands it.
pub struct RequestView {
    pub method: Method,
    pub path: Seq<char>,
    pub version: Version,
    pub headers: Map<Seq<char>, Seq<char>>,
    pub body: Seq<char>,
}

/// The request line: what stands before the first line terminator. A text
/// without line terminator has no request line.
pub open spec fn request_line(request: Seq<char>) -> Option<Seq<char>> {
    match split_once(request, crlf()) {
        Some((line, _)) => Some(line),
        None => None,
    }
}

/// The method that a token names. The comparison is case-sensitive.
pub open spec fn method_of_token(token: Seq<char>) -> Method {
    if token == "GET"@ {
        Method::Get
    } else if token == "POST"@ {
        Method::Post
    } else {
        Method::Uninitialized
    }
}

/// The method of a request: named by what stands before the first space of
/// the request line. Without request line, or without a space in it, the
/// method is not recognized.
pub open spec fn method_of(request: Seq<char>) -> Method {
    match request_line(request) {
        Some(line) => match split_once(line, space()) {
            Some((token, _)) => method_of_token(token),
            None => Method::Uninitialized,
        },
        None => Method::Uninitialized,
    }
}

/// The protocol version that a token names.
pub open spec fn version_of_token(token: Seq<char>) -> Option<Version> {
    if token == "HTTP/1.1"@ {
        Some(Version::V1_1)
    } else if token == "HTTP/2"@ || token == "HTTP/2.0"@ {
        Some(Version::V2_0)
    } else {
        None
    }
}

/// The version named by the first of `words` that names one.
pub open spec fn first_version(words: Seq<Seq<char>>) -> Option<Version>
    decreases words.len(),
{
    if words.len() == 0 {
        None
    } else if version_of_token(words.first()) is Some {
        version_of_token(words.first())
    } else {
        first_version(words.drop_first())
    }
}

/// The version of a request: named by the first token of the request line
/// that names one, the tokens being delimited by ASCII whitespace.
pub open spec fn version_of(request: Seq<char>) -> Option<Version> {
    match request_line(request) {
        Some(line) => first_version(tokens(line)),
        None => None,
    }
}

/// `target` without one leading slash.
pub open spec fn strip_slash(target: Seq<char>) -> Seq<char> {
    if target.len() > 0 && target.first() == '/' {
        target.drop_first()
    } else {
        target
    }
}

/// The resource path of a request whose method is GET or POST: what stands
/// between the first and the second space of the request line, without one
/// leading slash, then trimmed. Other requests have no resource.
pub open spec fn resource_of(request: Seq<char>) -> Option<Seq<char>> {
    match request_line(request) {
        Some(line) => match split_once(line, space()) {
            Some((token, rest)) => if method_of_token(token) is Uninitialized {
                None
            } else {
                match split_once(rest, space()) {
                    Some((target, _)) => Some(trim(strip_slash(target))),
                    None => None,
                }
            },
            None => None,
        },
        None => None,
    }
}

/// The lines of the header block: the lines that stand before the first
/// blank line, without the request line. A text without blank line has no
/// header block.
pub open spec fn header_lines(request: Seq<char>) -> Option<Seq<Seq<char>>> {
    match find(request, blank_line()) {
        Some(end) => Some(split(request.take(end), crlf()).drop_first()),
        None => None,
    }
}

/// The name and the value that a header line gives: what stands before and
/// after its first colon, both trimmed.
pub open spec fn header_of_line(line: Seq<char>) -> Option<(Seq<char>, Seq<char>)> {
    match split_once(line, colon()) {
        Some((name, value)) => Some((trim(name), trim(value))),
        None => None,
    }
}

/// The headers that `lines` add to `found`, line by line up to the first
/// empty line; nothing at all if one of these lines has no colon.
pub open spec fn collect_headers(
    lines: Seq<Seq<char>>,
    found: Map<Seq<char>, Seq<char>>,
) -> Option<Map<Seq<char>, Seq<char>>>
    decreases lines.len(),
{
    if lines.len() == 0 || lines.first().len() == 0 {
        Some(found)
    } else {
        match header_of_line(lines.first()) {
            Some((name, value)) => collect_headers(lines.drop_first(), found.insert(name, value)),
            None => None,
        }
    }
}

/// The headers of a request, if it has a header block and each line of it
/// has a colon.
pub open spec fn headers_of(request: Seq<char>) -> Option<Map<Seq<char>, Seq<char>>> {
    match header_lines(request) {
        Some(lines) => collect_headers(lines, Map::empty()),
        None => None,
    }
}

/// The body of a message: what stands after the first blank line; empty
/// where there is none.
pub open spec fn body_of(request: Seq<char>) -> Seq<char> {
    match split_once(request, blank_line()) {
        Some((_, body)) => body,
        None => Seq::empty(),
    }
}

/// The message of the error for a request without version.
pub open spec fn version_error_text(request: Seq<char>) -> Seq<char> {
    "Unknown protocol version in "@ + request
}

/// A request text as a whole. Only a missing version makes it fail: a
/// method that is not recognized, a missing resource and a malformed header
/// block give the defaults.
pub open spec fn parse(request: Seq<char>) -> Option<RequestView> {
    match version_of(request) {
        Some(version) => Some(
            RequestView {
                method: method_of(request),
                path: match resource_of(request) {
                    Some(path) => path,
                    None => Seq::empty(),
                },
                version,
                headers: match headers_of(request) {
                    Some(headers) => headers,
                    None => Map::empty(),
                },
                body: body_of(request),
            },
        ),
        None => None,
    }
}

} // verus!
