//! Requests, and parsing them from the text received.

use crate::http::grammar;
use crate::http::grammar::RequestView;
pub use crate::http::headers::HttpHeader;
use crate::scan;
use crate::text;
use vstd::prelude::*;
use vstd::slice::slice_subrange;

verus! {

/// The method of a request.
#[derive(Debug, Clone, Copy, PartialEq, Eq, Structural)]
pub enum Method {
    Get,
    Post,
    /// Any method but GET and POST, and the method of a text without a
    /// well-formed request line.
    Uninitialized,
}

/// A protocol version.
#[derive(Debug, Clone, Copy, PartialEq, Eq, Structural)]
pub enum Version {
    V1_1,
    V2_0,
}

/// The error for a request that names no protocol version.
#[derive(Debug)]
pub struct VersionError {
    pub msg: String,
}

/// The resource that a request asks for.
#[derive(Debug)]
pub struct Resource {
    /// The path, relative to the server's root.
    pub path: String,
}

/// A parsed request.
#[derive(Debug)]
pub struct HttpRequest {
    pub method: Method,
    pub resource: Resource,
    pub version: Version,
    pub headers: HttpHeader,
    pub request_body: String,
}

impl View for HttpRequest {
    type V = RequestView;

    open spec fn view(&self) -> RequestView {
        RequestView {
            method: self.method,
            path: self.resource.path@,
            version: self.version,
            headers: self.headers@,
            body: self.request_body@,
        }
    }
}

/// `text` cut at its first line terminator.
fn split_line<'a>(text: &'a [char]) -> (r: Option<(&'a [char], &'a [char])>)
    ensures
        match r {
            Some((head, tail)) => text::split_once(text@, grammar::crlf()) == Some((head@, tail@)),
            None => text::split_once(text@, grammar::crlf()) is None,
        },
{
    let pat = ['\r', '\n'];
    assert(pat@ =~= grammar::crlf());
    scan::split_once(text, pat.as_slice())
}

/// `text` cut at its first space.
fn split_space<'a>(text: &'a [char]) -> (r: Option<(&'a [char], &'a [char])>)
    ensures
        match r {
            Some((head, tail)) => text::split_once(text@, grammar::space()) == Some((head@, tail@)),
            None => text::split_once(text@, grammar::space()) is None,
        },
{
    let pat = [' '];
    assert(pat@ =~= grammar::space());
    scan::split_once(text, pat.as_slice())
}

/// `text` cut at its first colon.
fn split_colon<'a>(text: &'a [char]) -> (r: Option<(&'a [char], &'a [char])>)
    ensures
        match r {
            Some((head, tail)) => text::split_once(text@, grammar::colon()) == Some((head@, tail@)),
            None => text::split_once(text@, grammar::colon()) is None,
        },
{
    let pat = [':'];
    assert(pat@ =~= grammar::colon());
    scan::split_once(text, pat.as_slice())
}

/// `text` cut at its first blank line.
fn split_blank_line<'a>(text: &'a [char]) -> (r: Option<(&'a [char], &'a [char])>)
    ensures
        match r {
            Some((head, tail)) => text::split_once(text@, grammar::blank_line()) == Some(
                (head@, tail@),
            ),
            None => text::split_once(text@, grammar::blank_line()) is None,
        },
{
    let pat = ['\r', '\n', '\r', '\n'];
    assert(pat@ =~= grammar::blank_line());
    scan::split_once(text, pat.as_slice())
}

impl Method {
    /// The method of the request `request`.
    pub fn new(request: &str) -> (m: Method)
        ensures
            m == grammar::method_of(request@),
    {
        let chars = scan::to_chars(request);
        Method::of_chars(chars.as_slice())
    }

    /// The method that the token `s` names.
    pub fn identify(s: &str) -> (m: Method)
        ensures
            m == grammar::method_of_token(s@),
    {
        let chars = scan::to_chars(s);
        Method::of_token(chars.as_slice())
    }

    /// The method that `token` names.
    pub(crate) fn of_token(token: &[char]) -> (m: Method)
        ensures
            m == grammar::method_of_token(token@),
    {
        if scan::is_text(token, "GET") {
            Method::Get
        } else if scan::is_text(token, "POST") {
            Method::Post
        } else {
            Method::Uninitialized
        }
    }

    /// The method of the request whose characters are `request`.
    pub(crate) fn of_chars(request: &[char]) -> (m: Method)
        ensures
            m == grammar::method_of(request@),
    {
        if let Some((line, _)) = split_line(request) {
            if let Some((token, _)) = split_space(line) {
                return Method::of_token(token);
            }
        }
        Method::Uninitialized
    }
}

impl Version {
    /// The name of the version, as it stands in a status line.
    pub open spec fn text(self) -> Seq<char> {
        match self {
            Version::V1_1 => "HTTP/1.1"@,
            Version::V2_0 => "HTTP/2"@,
        }
    }

    /// The name of the version, as it stands in a status line.
    pub fn to_string(&self) -> (s: String)
        ensures
            s@ == self.text(),
    {
        match self {
            Version::V1_1 => "HTTP/1.1".to_owned(),
            Version::V2_0 => "HTTP/2".to_owned(),
        }
    }

    /// The version of the request `request`, or the error that names the
    /// request.
    pub fn new(request: &str) -> (r: Result<Version, VersionError>)
        ensures
            match r {
                Ok(version) => grammar::version_of(request@) == Some(version),
                Err(error) => grammar::version_of(request@) is None && error.msg@
                    == grammar::version_error_text(request@),
            },
    {
        Version::from_str(request)
    }

    /// The version named by the first token of the request line of
    /// `request` that names one; an error if the request has no request
    /// line or no such token.
    pub fn from_str(request: &str) -> (r: Result<Version, VersionError>)
        ensures
            match r {
                Ok(version) => grammar::version_of(request@) == Some(version),
                Err(error) => grammar::version_of(request@) is None && error.msg@
                    == grammar::version_error_text(request@),
            },
    {
        let chars = scan::to_chars(request);
        match Version::of_chars(chars.as_slice()) {
            Some(version) => Ok(version),
            None => Err(VersionError::new(request)),
        }
    }

    /// The version that `token` names.
    pub(crate) fn of_token(token: &[char]) -> (r: Option<Version>)
        ensures
            r == grammar::version_of_token(token@),
    {
        if scan::is_text(token, "HTTP/1.1") {
            Some(Version::V1_1)
        } else if scan::is_text(token, "HTTP/2") || scan::is_text(token, "HTTP/2.0") {
            Some(Version::V2_0)
        } else {
            None
        }
    }

    /// The version named by the first token of `line` that names one.
    pub(crate) fn of_line(line: &[char]) -> (r: Option<Version>)
        ensures
            r == grammar::first_version(text::tokens(line@)),
    {
        let mut i: usize = 0;
        assert(line@.skip(0) =~= line@);
        while i < line.len()
            invariant
                i <= line@.len(),
                grammar::first_version(text::tokens(line@)) == grammar::first_version(
                    text::tokens(line@.skip(i as int)),
                ),
            decreases line@.len() - i,
        {
            let ghost rest = line@.skip(i as int);
            if scan::is_ascii_space(line[i]) {
                assert(rest.drop_first() =~= line@.skip(i + 1));
                i += 1;
            } else {
                let tail = slice_subrange(line, i, line.len());
                assert(tail@ =~= rest);
                let n: usize = scan::word_len(tail);
                proof {
                    text::lemma_word_len(rest);
                }
                let token = slice_subrange(tail, 0, n);
                assert(token@ =~= rest.take(n as int));
                let found = Version::of_token(token);
                if found.is_some() {
                    return found;
                }
                proof {
                    let words = text::tokens(rest);
                    assert(words == seq![rest.take(n as int)] + text::tokens(rest.skip(n as int)));
                    assert(words.first() == rest.take(n as int));
                    assert(words.drop_first() =~= text::tokens(rest.skip(n as int)));
                    assert(rest.skip(n as int) =~= line@.skip(i + n));
                }
                i += n;
            }
        }
        assert(line@.skip(i as int) =~= Seq::<char>::empty());
        None
    }

    /// The version of the request whose characters are `request`.
    pub(crate) fn of_chars(request: &[char]) -> (r: Option<Version>)
        ensures
            r == grammar::version_of(request@),
    {
        match split_line(request) {
            Some((line, _)) => Version::of_line(line),
            None => None,
        }
    }
}

impl VersionError {
    /// The error for the request `request`.
    pub fn new(request: &str) -> (error: VersionError)
        ensures
            error.msg@ == grammar::version_error_text(request@),
    {
        let mut msg = "Unknown protocol version in ".to_owned();
        msg.append(request);
        VersionError { msg }
    }

    /// The message of the error.
    pub fn to_string(&self) -> (s: String)
        ensures
            s@ == self.msg@,
    {
        self.msg.clone()
    }
}

impl Resource {
    /// The resource that the request `request` asks for.
    pub fn new(request: &str) -> (r: Option<Resource>)
        ensures
            match r {
                Some(resource) => grammar::resource_of(request@) == Some(resource.path@),
                None => grammar::resource_of(request@) is None,
            },
    {
        let chars = scan::to_chars(request);
        Resource::of_chars(chars.as_slice())
    }

    /// The resource of the request whose characters are `request`.
    pub(crate) fn of_chars(request: &[char]) -> (r: Option<Resource>)
        ensures
            match r {
                Some(resource) => grammar::resource_of(request@) == Some(resource.path@),
                None => grammar::resource_of(request@) is None,
            },
    {
        if let Some((line, _)) = split_line(request) {
            if let Some((token, rest)) = split_space(line) {
                return match Method::of_token(token) {
                    Method::Get | Method::Post => {
                        if let Some((target, _)) = split_space(rest) {
                            let path = scan::trim(strip_slash(target));
                            return Some(Resource { path: scan::to_string(path) });
                        }
                        None
                    },
                    Method::Uninitialized => None,
                };
            }
        }
        None
    }
}

impl HttpHeader {
    /// The headers of the request `request`.
    pub fn new(request: &str) -> (r: Option<HttpHeader>)
        ensures
            match r {
                Some(headers) => grammar::headers_of(request@) == Some(headers@),
                None => grammar::headers_of(request@) is None,
            },
    {
        let chars = scan::to_chars(request);
        HttpHeader::of_chars(chars.as_slice())
    }

    /// The headers of the request whose characters are `request`.
    pub(crate) fn of_chars(request: &[char]) -> (r: Option<HttpHeader>)
        ensures
            match r {
                Some(headers) => grammar::headers_of(request@) == Some(headers@),
                None => grammar::headers_of(request@) is None,
            },
    {
        let block = match split_blank_line(request) {
            Some((block, _)) => block,
            None => { return None; },
        };
        let mut headers = HttpHeader::empty();
        let mut rest = match split_line(block) {
            Some((_, rest)) => rest,
            None => { return Some(headers); },
        };
        assert(text::split(block@, grammar::crlf()).drop_first() =~= text::split(
            rest@,
            grammar::crlf(),
        ));
        loop
            invariant
                grammar::headers_of(request@) == grammar::collect_headers(
                    text::split(rest@, grammar::crlf()),
                    headers@,
                ),
            decreases rest@.len(),
        {
            let ghost lines = text::split(rest@, grammar::crlf());
            proof {
                text::lemma_find(rest@, grammar::crlf());
            }
            let (line, next) = match split_line(rest) {
                Some((line, next)) => (line, Some(next)),
                None => (rest, None),
            };
            assert(lines.first() == line@);
            if line.len() == 0 {
                return Some(headers);
            }
            match split_colon(line) {
                Some((name, value)) => {
                    headers.insert(
                        scan::to_string(scan::trim(name)),
                        scan::to_string(scan::trim(value)),
                    );
                },
                None => { return None; },
            }
            match next {
                Some(next) => {
                    assert(lines.drop_first() =~= text::split(next@, grammar::crlf()));
                    rest = next;
                },
                None => {
                    assert(lines.drop_first() =~= Seq::<Seq<char>>::empty());
                    assert(grammar::collect_headers(lines.drop_first(), headers@) == Some(
                        headers@,
                    ));
                    return Some(headers);
                },
            }
        }
    }
}

impl HttpRequest {
    /// Parses the request `request`. Only a request that names no protocol
    /// version is refused.
    pub fn new(request: &str) -> (r: Result<HttpRequest, VersionError>)
        ensures
            match r {
                Ok(parsed) => grammar::parse(request@) == Some(parsed@),
                Err(error) => grammar::parse(request@) is None && error.msg@
                    == grammar::version_error_text(request@),
            },
    {
        let chars = scan::to_chars(request);
        let text = chars.as_slice();
        let method = Method::of_chars(text);
        let resource = match Resource::of_chars(text) {
            Some(resource) => resource,
            None => Resource { path: String::new() },
        };
        let version = match Version::of_chars(text) {
            Some(version) => version,
            None => { return Err(VersionError::new(request)); },
        };
        let headers = match HttpHeader::of_chars(text) {
            Some(headers) => headers,
            None => HttpHeader::empty(),
        };
        let request_body = match split_blank_line(text) {
            Some((_, body)) => scan::to_string(body),
            None => String::new(),
        };
        Ok(HttpRequest { method, resource, version, headers, request_body })
    }
}

/// `target` without one leading slash.
fn strip_slash(target: &[char]) -> (r: &[char])
    ensures
        r@ == grammar::strip_slash(target@),
{
    if target.len() > 0 && target[0] == '/' {
        let r = slice_subrange(target, 1, target.len());
        assert(r@ =~= target@.drop_first());
        r
    } else {
        target
    }
}

} // verus!
