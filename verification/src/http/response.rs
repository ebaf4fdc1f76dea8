//! Responses, and building them from a request and from what was found
//! under the server's root.
//!
//! On the wire a response is the status line, the `accept-ranges` line and
//! the `content-length` line, each ended by a bare line feed but the last,
//! then a blank line, then the payload:
//!
//! ```text
//! HTTP/2 200 OK\naccept-ranges: bytes\ncontent-length: 2\r\n\r\nhi
//! ```

use crate::http::grammar;
use crate::http::request::{HttpRequest, Version};
use crate::scan;
use crate::text;
use vstd::prelude::*;
use vstd::utf8::{encode_utf8, is_ascii_chars_encode_utf8};

verus! {

/// The status of a response.
#[derive(Debug, Clone, Copy, PartialEq, Eq, Structural)]
pub enum ResponseStatus {
    OK,
    NotFound,
}

/// Whether the resource sent can be asked for in byte ranges.
#[derive(Debug, Clone, Copy, PartialEq, Eq, Structural)]
pub enum AcceptRanges {
    Bytes,
    NoRanges,
}

/// What stands under the server's root at the path of a resource.
#[derive(Debug)]
pub enum Lookup {
    /// A regular file, with its content.
    File(String),
    /// Something that is no regular file, such as a directory.
    NotAFile,
    /// Nothing.
    Missing,
}

/// A response, ready to be sent.
#[derive(Debug)]
pub struct HttpResponse {
    pub version: Version,
    pub status: ResponseStatus,
    /// The length of the payload in bytes.
    pub content_length: usize,
    pub accept_ranges: AcceptRanges,
    /// The whole response as it goes over the wire.
    pub response_body: String,
    /// The path that the request asked for.
    pub current_path: String,
}

/// The version in which every response is written.
pub open spec fn response_version() -> Version {
    Version::V2_0
}

/// The page sent where no file can be served.
pub open spec fn not_found_page() -> Seq<char> {
    "<html><body><h1>404 NOT FOUND</h1></body></html>"@
}

/// The number of bytes that `text` takes in UTF-8.
pub open spec fn byte_len(text: Seq<char>) -> nat {
    encode_utf8(text).len()
}

/// The head of a response: its three lines, without the blank line.
pub open spec fn head_text(
    version: Version,
    status: ResponseStatus,
    ranges: AcceptRanges,
    length: nat,
) -> Seq<char> {
    version.text() + " "@ + status.text() + "\n"@ + ranges.text() + "\ncontent-length: "@
        + text::decimal(length)
}

/// A response as it goes over the wire: the head, which announces the
/// length of the payload in bytes, a blank line, and the payload.
pub open spec fn response_text(
    version: Version,
    status: ResponseStatus,
    ranges: AcceptRanges,
    payload: Seq<char>,
) -> Seq<char> {
    head_text(version, status, ranges, byte_len(payload)) + grammar::blank_line() + payload
}

/// No carriage return stands in `text`.
pub open spec fn has_no_cr(text: Seq<char>) -> bool {
    forall|i: int| 0 <= i < text.len() ==> text[i] != '\r'
}

/// The head of a response holds no carriage return.
pub proof fn lemma_head_has_no_cr(
    version: Version,
    status: ResponseStatus,
    ranges: AcceptRanges,
    length: nat,
)
    ensures
        has_no_cr(head_text(version, status, ranges, length)),
{
    reveal_strlit("HTTP/1.1");
    reveal_strlit("HTTP/2");
    reveal_strlit(" ");
    reveal_strlit("200 OK");
    reveal_strlit("404 NOT FOUND");
    reveal_strlit("\n");
    reveal_strlit("accept-ranges: bytes");
    reveal_strlit("accept-ranges: none");
    reveal_strlit("\ncontent-length: ");
    text::lemma_decimal_digits(length);
    assert(has_no_cr(version.text()));
    assert(has_no_cr(" "@));
    assert(has_no_cr(status.text()));
    assert(has_no_cr("\n"@));
    assert(has_no_cr(ranges.text()));
    assert(has_no_cr("\ncontent-length: "@));
    assert(has_no_cr(text::decimal(length)));
}

/// The payload of a response is what stands after its first blank line:
/// the head holds none. So the length that the head announces is the
/// length in bytes of what follows the blank line.
pub proof fn lemma_payload_is_framed(
    version: Version,
    status: ResponseStatus,
    ranges: AcceptRanges,
    payload: Seq<char>,
)
    ensures
        grammar::body_of(response_text(version, status, ranges, payload)) == payload,
{
    let head = head_text(version, status, ranges, byte_len(payload));
    let pat = grammar::blank_line();
    lemma_head_has_no_cr(version, status, ranges, byte_len(payload));
    assert forall|j: int| 0 <= j < head.len() implies !text::occurs_at(head + pat, pat, j) by {
        if text::occurs_at(head + pat, pat, j) {
            assert((head + pat).subrange(j, j + 4)[0] == '\r');
            assert(head[j] == '\r');
        }
    }
    text::lemma_split_once_at(head, pat, payload);
}

/// The page sent where no file can be served takes 48 bytes.
pub proof fn lemma_not_found_page_len()
    ensures
        byte_len(not_found_page()) == 48,
{
    reveal_strlit("<html><body><h1>404 NOT FOUND</h1></body></html>");
    assert(vstd::utf8::is_ascii_chars(not_found_page()));
    is_ascii_chars_encode_utf8(not_found_page());
}

impl ResponseStatus {
    /// The status as it stands in the status line.
    pub open spec fn text(self) -> Seq<char> {
        match self {
            ResponseStatus::OK => "200 OK"@,
            ResponseStatus::NotFound => "404 NOT FOUND"@,
        }
    }

    /// The number of the status.
    pub open spec fn spec_code(&self) -> u16 {
        match self {
            ResponseStatus::OK => 200,
            ResponseStatus::NotFound => 404,
        }
    }

    /// The status as it stands in the status line.
    pub fn to_string(&self) -> (s: String)
        ensures
            s@ == self.text(),
    {
        match self {
            ResponseStatus::OK => "200 OK".to_owned(),
            ResponseStatus::NotFound => "404 NOT FOUND".to_owned(),
        }
    }

    /// The number of the status.
    #[verifier::when_used_as_spec(spec_code)]
    pub fn code(&self) -> (n: u16)
        ensures
            n == self.spec_code(),
    {
        match self {
            ResponseStatus::OK => 200,
            ResponseStatus::NotFound => 404,
        }
    }
}

impl AcceptRanges {
    /// The header line that announces this.
    pub open spec fn text(self) -> Seq<char> {
        match self {
            AcceptRanges::Bytes => "accept-ranges: bytes"@,
            AcceptRanges::NoRanges => "accept-ranges: none"@,
        }
    }

    /// The header line that announces this.
    pub fn to_string(&self) -> (s: String)
        ensures
            s@ == self.text(),
    {
        match self {
            AcceptRanges::Bytes => "accept-ranges: bytes".to_owned(),
            AcceptRanges::NoRanges => "accept-ranges: none".to_owned(),
        }
    }
}

impl Lookup {
    /// The status with which this is answered: only a regular file is
    /// served.
    pub open spec fn status(self) -> ResponseStatus {
        match self {
            Lookup::File(_) => ResponseStatus::OK,
            _ => ResponseStatus::NotFound,
        }
    }

    /// Byte ranges are announced for a regular file only.
    pub open spec fn ranges(self) -> AcceptRanges {
        match self {
            Lookup::File(_) => AcceptRanges::Bytes,
            _ => AcceptRanges::NoRanges,
        }
    }

    /// The payload with which this is answered: the content of a regular
    /// file as it is, else the page that says that nothing was found.
    pub open spec fn payload(self) -> Seq<char> {
        match self {
            Lookup::File(content) => content@,
            _ => not_found_page(),
        }
    }
}

impl HttpResponse {
    /// This is the response to a request for `path`, where `found` is what
    /// stands at that path: the status, the ranges and the payload are
    /// those that answer `found`, the length is that of the payload in
    /// bytes, and the text for the wire is made of these.
    pub open spec fn answers(&self, path: Seq<char>, found: Lookup) -> bool {
        &&& self.version == response_version()
        &&& self.status == found.status()
        &&& self.accept_ranges == found.ranges()
        &&& self.content_length == byte_len(found.payload())
        &&& self.response_body@ == response_text(
            self.version,
            self.status,
            self.accept_ranges,
            found.payload(),
        )
        &&& self.current_path@ == path
    }

    /// The response to `request`, given what was found at the path of its
    /// resource. The length that it announces is the length in bytes of
    /// what follows its first blank line.
    pub fn new(request: &HttpRequest, found: &Lookup) -> (r: HttpResponse)
        ensures
            r.answers(request.resource.path@, *found),
            r.content_length == byte_len(grammar::body_of(r.response_body@)),
            !(found is File) ==> r.content_length == 48,
    {
        let version = Version::V2_0;
        let (status, accept_ranges, payload) = match found {
            Lookup::File(content) => (ResponseStatus::OK, AcceptRanges::Bytes, content.as_str()),
            _ => (
                ResponseStatus::NotFound,
                AcceptRanges::NoRanges,
                "<html><body><h1>404 NOT FOUND</h1></body></html>",
            ),
        };
        let content_length: usize = payload.as_bytes().len();
        let mut response_body = version.to_string();
        response_body.append(" ");
        response_body.append(status.to_string().as_str());
        response_body.append("\n");
        response_body.append(accept_ranges.to_string().as_str());
        response_body.append("\ncontent-length: ");
        response_body.append(scan::decimal(content_length).as_str());
        response_body.append("\r\n\r\n");
        response_body.append(payload);
        proof {
            reveal_strlit("\r\n\r\n");
            assert("\r\n\r\n"@ =~= grammar::blank_line());
            lemma_payload_is_framed(version, status, accept_ranges, payload@);
            lemma_not_found_page_len();
        }
        HttpResponse {
            version,
            status,
            content_length,
            accept_ranges,
            response_body,
            current_path: request.resource.path.clone(),
        }
    }
}

impl HttpRequest {
    /// The response to this request, given what was found at the path of
    /// its resource.
    pub fn response(&self, found: &Lookup) -> (r: HttpResponse)
        ensures
            r.answers(self.resource.path@, *found),
            r.content_length == byte_len(grammar::body_of(r.response_body@)),
            !(found is File) ==> r.content_length == 48,
    {
        HttpResponse::new(self, found)
    }
}

} // verus!
