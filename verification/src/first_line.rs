//! The first line of an HTTP/1.1 message: either a request line
//! `METHOD SP TARGET SP VERSION` or a status line
//! `VERSION SP CODE SP MESSAGE`, each ended by CRLF.
use vstd::prelude::*;

use crate::bytes::bytes_eq;
use crate::scan::{find_byte, find_field_line_index, spec_find_byte};

verus! {

pub const SP: u8 = 32;
pub const SLASH: u8 = 47;

/// "GET"
pub open spec fn verb_get() -> Seq<u8> {
    seq![71u8, 69u8, 84u8]
}

/// "POST"
pub open spec fn verb_post() -> Seq<u8> {
    seq![80u8, 79u8, 83u8, 84u8]
}

/// "PATCH"
pub open spec fn verb_patch() -> Seq<u8> {
    seq![80u8, 65u8, 84u8, 67u8, 72u8]
}

/// "DELETE"
pub open spec fn verb_delete() -> Seq<u8> {
    seq![68u8, 69u8, 76u8, 69u8, 84u8, 69u8]
}

/// "PUT"
pub open spec fn verb_put() -> Seq<u8> {
    seq![80u8, 85u8, 84u8]
}

/// "OPTIONS"
pub open spec fn verb_options() -> Seq<u8> {
    seq![79u8, 80u8, 84u8, 73u8, 79u8, 78u8, 83u8]
}

/// "HEAD"
pub open spec fn verb_head() -> Seq<u8> {
    seq![72u8, 69u8, 65u8, 68u8]
}

/// The method tokens that the request-line grammar accepts: the closed
/// set of verbs, HEAD included.
pub open spec fn is_recognized_verb(t: Seq<u8>) -> bool {
    t == verb_get() || t == verb_post() || t == verb_patch() || t == verb_delete() || t
        == verb_put() || t == verb_options() || t == verb_head()
}

/// The first two space-separated tokens of `line` and the remainder after
/// the second space; `None` when `line` has fewer than two spaces.
pub open spec fn spec_split3(line: Seq<u8>) -> Option<(Seq<u8>, Seq<u8>, Seq<u8>)> {
    match spec_find_byte(line, SP) {
        None => None,
        Some(i) => {
            let rest1 = line.skip(i + 1);
            match spec_find_byte(rest1, SP) {
                None => None,
                Some(j) => Some((line.take(i), rest1.take(j), rest1.skip(j + 1))),
            }
        },
    }
}

/// `s` up to its first space, or all of `s`.
pub open spec fn spec_first_token(s: Seq<u8>) -> Seq<u8> {
    match spec_find_byte(s, SP) {
        None => s,
        Some(i) => s.take(i),
    }
}

/// The version part of a token that must split on `/` into exactly two
/// parts: what follows the single slash.
pub open spec fn spec_version_of(tok: Seq<u8>) -> Option<Seq<u8>> {
    match spec_find_byte(tok, SLASH) {
        None => None,
        Some(i) => {
            if spec_find_byte(tok.skip(i + 1), SLASH) is Some {
                None
            } else {
                Some(tok.skip(i + 1))
            }
        },
    }
}

/// Failures of the first-line grammar, and the recoverable signal a
/// standalone first-line parser gives when the line's CRLF has not
/// arrived yet. The grammar itself never raises `NotEnoughBytes`: it
/// judges a complete line.
#[derive(Clone, Copy, Debug, PartialEq, Eq, Structural)]
pub enum FirstLineParseError {
    FirstLinePartsMissing,
    MissingHttpVersion,
    InvalidHttpMethod,
    NotEnoughBytes,
}

/// Parsed request line as (method, request target, http version), or the
/// error the grammar raises for `line`.
pub open spec fn spec_request_line(line: Seq<u8>) -> Result<
    (Seq<u8>, Seq<u8>, Seq<u8>),
    FirstLineParseError,
> {
    match spec_split3(line) {
        None => Err(FirstLineParseError::FirstLinePartsMissing),
        Some(t) => {
            if !is_recognized_verb(t.0) {
                Err(FirstLineParseError::InvalidHttpMethod)
            } else {
                match spec_version_of(spec_first_token(t.2)) {
                    None => Err(FirstLineParseError::MissingHttpVersion),
                    Some(v) => Ok((t.0, t.1, v)),
                }
            }
        },
    }
}

/// Parsed status line as (http version, status code, status message), or
/// the error the grammar raises for `line`. The message is everything after
/// the second space, so it may itself contain spaces.
pub open spec fn spec_response_line(line: Seq<u8>) -> Result<
    (Seq<u8>, Seq<u8>, Seq<u8>),
    FirstLineParseError,
> {
    match spec_split3(line) {
        None => Err(FirstLineParseError::FirstLinePartsMissing),
        Some(t) => match spec_version_of(t.0) {
            None => Err(FirstLineParseError::MissingHttpVersion),
            Some(v) => Ok((v, t.1, t.2)),
        },
    }
}

/// Method, request target and HTTP version of one request line.
pub struct RequestLine {
    http_version: Vec<u8>,
    request_target: Vec<u8>,
    method: Vec<u8>,
}

impl RequestLine {
    pub closed spec fn version_view(&self) -> Seq<u8> {
        self.http_version@
    }

    pub closed spec fn target_view(&self) -> Seq<u8> {
        self.request_target@
    }

    pub closed spec fn method_view(&self) -> Seq<u8> {
        self.method@
    }

    pub fn new(method: Vec<u8>, request_target: Vec<u8>, http_version: Vec<u8>) -> (r: RequestLine)
        ensures
            r.method_view() == method@,
            r.target_view() == request_target@,
            r.version_view() == http_version@,
    {
        RequestLine { http_version, request_target, method }
    }

    pub fn http_version(&self) -> (r: &Vec<u8>)
        ensures
            r@ == self.version_view(),
    {
        &self.http_version
    }

    pub fn request_target(&self) -> (r: &Vec<u8>)
        ensures
            r@ == self.target_view(),
    {
        &self.request_target
    }

    pub fn method(&self) -> (r: &Vec<u8>)
        ensures
            r@ == self.method_view(),
    {
        &self.method
    }

    /// An owned copy.
    pub fn duplicate(&self) -> (r: RequestLine)
        ensures
            r.method_view() == self.method_view(),
            r.target_view() == self.target_view(),
            r.version_view() == self.version_view(),
    {
        RequestLine {
            http_version: vstd::slice::slice_to_vec(self.http_version.as_slice()),
            request_target: vstd::slice::slice_to_vec(self.request_target.as_slice()),
            method: vstd::slice::slice_to_vec(self.method.as_slice()),
        }
    }
}

impl Default for RequestLine {
    fn default() -> (r: RequestLine)
        ensures
            r.method_view() == Seq::<u8>::empty(),
            r.target_view() == Seq::<u8>::empty(),
            r.version_view() == Seq::<u8>::empty(),
    {
        RequestLine { http_version: Vec::new(), request_target: Vec::new(), method: Vec::new() }
    }
}

/// HTTP version, status code and status message of one status line.
pub struct ResponseLine {
    http_version: Vec<u8>,
    status_code: Vec<u8>,
    status_message: Vec<u8>,
}

impl ResponseLine {
    pub closed spec fn version_view(&self) -> Seq<u8> {
        self.http_version@
    }

    pub closed spec fn code_view(&self) -> Seq<u8> {
        self.status_code@
    }

    pub closed spec fn message_view(&self) -> Seq<u8> {
        self.status_message@
    }

    pub fn new(http_version: Vec<u8>, status_code: Vec<u8>, status_message: Vec<u8>) -> (r:
        ResponseLine)
        ensures
            r.version_view() == http_version@,
            r.code_view() == status_code@,
            r.message_view() == status_message@,
    {
        ResponseLine { http_version, status_code, status_message }
    }

    pub fn http_version(&self) -> (r: &Vec<u8>)
        ensures
            r@ == self.version_view(),
    {
        &self.http_version
    }

    pub fn status_code(&self) -> (r: &Vec<u8>)
        ensures
            r@ == self.code_view(),
    {
        &self.status_code
    }

    pub fn status_message(&self) -> (r: &Vec<u8>)
        ensures
            r@ == self.message_view(),
    {
        &self.status_message
    }

    /// An owned copy.
    pub fn duplicate(&self) -> (r: ResponseLine)
        ensures
            r.version_view() == self.version_view(),
            r.code_view() == self.code_view(),
            r.message_view() == self.message_view(),
    {
        ResponseLine {
            http_version: vstd::slice::slice_to_vec(self.http_version.as_slice()),
            status_code: vstd::slice::slice_to_vec(self.status_code.as_slice()),
            status_message: vstd::slice::slice_to_vec(self.status_message.as_slice()),
        }
    }
}

impl Default for ResponseLine {
    fn default() -> (r: ResponseLine)
        ensures
            r.version_view() == Seq::<u8>::empty(),
            r.code_view() == Seq::<u8>::empty(),
            r.message_view() == Seq::<u8>::empty(),
    {
        ResponseLine { http_version: Vec::new(), status_code: Vec::new(), status_message: Vec::new() }
    }
}

/// Borrowed view of a request line.
pub struct RequestLineRef<'a> {
    pub http_version: &'a [u8],
    pub request_target: &'a [u8],
    pub method: &'a [u8],
}

impl<'a> RequestLineRef<'a> {
    pub fn new(method: &'a [u8], request_target: &'a [u8], http_version: &'a [u8]) -> (r:
        RequestLineRef<'a>)
        ensures
            r.method@ == method@,
            r.request_target@ == request_target@,
            r.http_version@ == http_version@,
    {
        RequestLineRef { http_version, request_target, method }
    }

    pub fn http_version(&self) -> (r: &'a [u8])
        ensures
            r@ == self.http_version@,
    {
        self.http_version
    }

    pub fn request_target(&self) -> (r: &'a [u8])
        ensures
            r@ == self.request_target@,
    {
        self.request_target
    }

    pub fn method(&self) -> (r: &'a [u8])
        ensures
            r@ == self.method@,
    {
        self.method
    }
}

/// Borrowed view of a status line.
pub struct ResponseLineRef<'a> {
    pub http_version: &'a [u8],
    pub status_code: &'a [u8],
    pub status_message: &'a [u8],
}

impl<'a> ResponseLineRef<'a> {
    pub fn new(http_version: &'a [u8], status_code: &'a [u8], status_message: &'a [u8]) -> (r:
        ResponseLineRef<'a>)
        ensures
            r.http_version@ == http_version@,
            r.status_code@ == status_code@,
            r.status_message@ == status_message@,
    {
        ResponseLineRef { http_version, status_code, status_message }
    }

    pub fn http_version(&self) -> (r: &'a [u8])
        ensures
            r@ == self.http_version@,
    {
        self.http_version
    }

    pub fn status_code(&self) -> (r: &'a [u8])
        ensures
            r@ == self.status_code@,
    {
        self.status_code
    }

    pub fn status_message(&self) -> (r: &'a [u8])
        ensures
            r@ == self.status_message@,
    {
        self.status_message
    }
}

fn split3(line: &[u8]) -> (r: Option<(Vec<u8>, Vec<u8>, Vec<u8>)>)
    ensures
        match r {
            Some(t) => spec_split3(line@) == Some((t.0@, t.1@, t.2@)),
            None => spec_split3(line@) is None,
        },
{
    let n = line.len();
    let i = match find_byte(line, SP) {
        Some(i) => i,
        None => {
            return None;
        },
    };
    let rest1 = vstd::slice::slice_subrange(line, i + 1, n);
    proof {
        assert(rest1@ =~= line@.skip(i + 1));
    }
    let j = match find_byte(rest1, SP) {
        Some(j) => j,
        None => {
            return None;
        },
    };
    let t0 = vstd::slice::slice_to_vec(vstd::slice::slice_subrange(line, 0, i));
    let t1 = vstd::slice::slice_to_vec(vstd::slice::slice_subrange(rest1, 0, j));
    let t2 = vstd::slice::slice_to_vec(
        vstd::slice::slice_subrange(rest1, j + 1, rest1.len()),
    );
    proof {
        assert(t0@ =~= line@.take(i as int));
        assert(t1@ =~= line@.skip(i + 1).take(j as int));
        assert(t2@ =~= line@.skip(i + 1).skip(j + 1));
    }
    Some((t0, t1, t2))
}

fn first_token(s: &[u8]) -> (r: Vec<u8>)
    ensures
        r@ == spec_first_token(s@),
{
    match find_byte(s, SP) {
        Some(i) => {
            let t = vstd::slice::slice_to_vec(vstd::slice::slice_subrange(s, 0, i));
            proof {
                assert(t@ =~= s@.take(i as int));
            }
            t
        },
        None => vstd::slice::slice_to_vec(s),
    }
}

fn version_of(tok: &[u8]) -> (r: Option<Vec<u8>>)
    ensures
        match r {
            Some(v) => spec_version_of(tok@) == Some(v@),
            None => spec_version_of(tok@) is None,
        },
{
    let n = tok.len();
    let i = match find_byte(tok, SLASH) {
        Some(i) => i,
        None => {
            return None;
        },
    };
    let rest = vstd::slice::slice_subrange(tok, i + 1, n);
    proof {
        assert(rest@ =~= tok@.skip(i + 1));
    }
    match find_byte(rest, SLASH) {
        Some(_) => None,
        None => Some(vstd::slice::slice_to_vec(rest)),
    }
}

fn match_verb(t: &[u8]) -> (r: bool)
    ensures
        r == is_recognized_verb(t@),
{
    let get_a: [u8; 3] = [71, 69, 84];
    let post_a: [u8; 4] = [80, 79, 83, 84];
    let patch_a: [u8; 5] = [80, 65, 84, 67, 72];
    let delete_a: [u8; 6] = [68, 69, 76, 69, 84, 69];
    let put_a: [u8; 3] = [80, 85, 84];
    let options_a: [u8; 7] = [79, 80, 84, 73, 79, 78, 83];
    let head_a: [u8; 4] = [72, 69, 65, 68];
    proof {
        assert(get_a@ =~= verb_get());
        assert(post_a@ =~= verb_post());
        assert(patch_a@ =~= verb_patch());
        assert(delete_a@ =~= verb_delete());
        assert(put_a@ =~= verb_put());
        assert(options_a@ =~= verb_options());
        assert(head_a@ =~= verb_head());
    }
    bytes_eq(t, get_a.as_slice()) || bytes_eq(t, post_a.as_slice()) || bytes_eq(
        t,
        patch_a.as_slice(),
    ) || bytes_eq(t, delete_a.as_slice()) || bytes_eq(t, put_a.as_slice()) || bytes_eq(
        t,
        options_a.as_slice(),
    ) || bytes_eq(t, head_a.as_slice())
}

/// Parses one request line (without its CRLF) into method, target and
/// version, raising exactly the error the grammar prescribes.
pub fn parse_request_line(line: &[u8]) -> (r: Result<RequestLine, FirstLineParseError>)
    ensures
        match r {
            Ok(rl) => spec_request_line(line@) == Ok::<_, FirstLineParseError>(
                (rl.method_view(), rl.target_view(), rl.version_view()),
            ),
            Err(e) => spec_request_line(line@) == Err::<(Seq<u8>, Seq<u8>, Seq<u8>), _>(e),
        },
{
    let (t0, t1, t2) = match split3(line) {
        Some(t) => t,
        None => {
            return Err(FirstLineParseError::FirstLinePartsMissing);
        },
    };
    if !match_verb(t0.as_slice()) {
        return Err(FirstLineParseError::InvalidHttpMethod);
    }
    let tok = first_token(t2.as_slice());
    match version_of(tok.as_slice()) {
        Some(v) => Ok(RequestLine { http_version: v, request_target: t1, method: t0 }),
        None => Err(FirstLineParseError::MissingHttpVersion),
    }
}

/// Parses one status line (without its CRLF) into version, code and
/// message; the message is everything after the second space.
pub fn parse_response_line(line: &[u8]) -> (r: Result<ResponseLine, FirstLineParseError>)
    ensures
        match r {
            Ok(rl) => spec_response_line(line@) == Ok::<_, FirstLineParseError>(
                (rl.version_view(), rl.code_view(), rl.message_view()),
            ),
            Err(e) => spec_response_line(line@) == Err::<(Seq<u8>, Seq<u8>, Seq<u8>), _>(e),
        },
{
    let (t0, t1, t2) = match split3(line) {
        Some(t) => t,
        None => {
            return Err(FirstLineParseError::FirstLinePartsMissing);
        },
    };
    match version_of(t0.as_slice()) {
        Some(v) => Ok(ResponseLine { http_version: v, status_code: t1, status_message: t2 }),
        None => Err(FirstLineParseError::MissingHttpVersion),
    }
}

/// A component that consumes one CRLF-terminated first line and keeps the
/// parsed value.
pub trait FirstLineParser: Sized {
    type HttpType;

    /// Parse the first line at the front of `data`, returning the bytes
    /// consumed including the CRLF.
    fn parse_first_line(&mut self, data: &[u8]) -> Result<usize, FirstLineParseError>;

    /// The parsed value, by move.
    fn get_first_line(self) -> Self::HttpType;

    /// The parsed value, copied out.
    fn get_first_line_ref(&self) -> Self::HttpType;
}

/// Keeps the most recently parsed request line.
pub struct FirstLineRequestParser {
    line: RequestLine,
}

impl FirstLineRequestParser {
    pub closed spec fn line_view(&self) -> (Seq<u8>, Seq<u8>, Seq<u8>) {
        (self.line.method_view(), self.line.target_view(), self.line.version_view())
    }

    pub fn new() -> FirstLineRequestParser {
        FirstLineRequestParser { line: RequestLine::default() }
    }

    pub fn set(&mut self, request_line: RequestLine)
        ensures
            final(self).line_view() == (
                request_line.method_view(),
                request_line.target_view(),
                request_line.version_view(),
            ),
    {
        self.line = request_line;
    }
}

impl FirstLineParser for FirstLineRequestParser {
    type HttpType = RequestLine;

    fn parse_first_line(&mut self, data: &[u8]) -> (r: Result<usize, FirstLineParseError>)
        ensures
            match r {
                Ok(i) => 2 <= i <= data@.len() && crate::scan::spec_line_end(data@) == Some(
                    i as int,
                ) && (spec_request_line(data@.subrange(0, i - 2)) matches Ok(t) && final(self).line_view() == t),
                Err(e) => final(self).line_view() == old(self).line_view() && (match
                crate::scan::spec_line_end(data@) {
                    None => e == FirstLineParseError::NotEnoughBytes,
                    Some(i2) => spec_request_line(data@.subrange(0, i2 - 2)) == Err::<
                        (Seq<u8>, Seq<u8>, Seq<u8>),
                        _,
                    >(e),
                }),
            },
    {
        let i = match find_field_line_index(data) {
            Some(i) => i,
            None => {
                return Err(FirstLineParseError::NotEnoughBytes);
            },
        };
        let line = vstd::slice::slice_subrange(data, 0, i - 2);
        let parsed = parse_request_line(line)?;
        self.set(parsed);
        Ok(i)
    }

    fn get_first_line(self) -> (r: RequestLine)
        ensures
            (r.method_view(), r.target_view(), r.version_view()) == self.line_view(),
    {
        self.line
    }

    fn get_first_line_ref(&self) -> (r: RequestLine)
        ensures
            (r.method_view(), r.target_view(), r.version_view()) == self.line_view(),
    {
        self.line.duplicate()
    }
}

/// Keeps the most recently parsed status line.
pub struct FirstLineResponseParser {
    line: ResponseLine,
}

impl FirstLineResponseParser {
    pub closed spec fn line_view(&self) -> (Seq<u8>, Seq<u8>, Seq<u8>) {
        (self.line.version_view(), self.line.code_view(), self.line.message_view())
    }

    pub fn new() -> FirstLineResponseParser {
        FirstLineResponseParser { line: ResponseLine::default() }
    }

    pub fn set(&mut self, response_line: ResponseLine)
        ensures
            final(self).line_view() == (
                response_line.version_view(),
                response_line.code_view(),
                response_line.message_view(),
            ),
    {
        self.line = response_line;
    }
}

impl FirstLineParser for FirstLineResponseParser {
    type HttpType = ResponseLine;

    fn parse_first_line(&mut self, data: &[u8]) -> (r: Result<usize, FirstLineParseError>)
        ensures
            match r {
                Ok(i) => 2 <= i <= data@.len() && crate::scan::spec_line_end(data@) == Some(
                    i as int,
                ) && (spec_response_line(data@.subrange(0, i - 2)) matches Ok(t) && final(self).line_view() == t),
                Err(e) => final(self).line_view() == old(self).line_view() && (match
                crate::scan::spec_line_end(data@) {
                    None => e == FirstLineParseError::NotEnoughBytes,
                    Some(i2) => spec_response_line(data@.subrange(0, i2 - 2)) == Err::<
                        (Seq<u8>, Seq<u8>, Seq<u8>),
                        _,
                    >(e),
                }),
            },
    {
        let i = match find_field_line_index(data) {
            Some(i) => i,
            None => {
                return Err(FirstLineParseError::NotEnoughBytes);
            },
        };
        let line = vstd::slice::slice_subrange(data, 0, i - 2);
        let parsed = parse_response_line(line)?;
        self.set(parsed);
        Ok(i)
    }

    fn get_first_line(self) -> (r: ResponseLine)
        ensures
            (r.version_view(), r.code_view(), r.message_view()) == self.line_view(),
    {
        self.line
    }

    fn get_first_line_ref(&self) -> (r: ResponseLine)
        ensures
            (r.version_view(), r.code_view(), r.message_view()) == self.line_view(),
    {
        self.line.duplicate()
    }
}

} // verus!
