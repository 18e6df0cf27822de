//! The message-level state machine that composes the front-separator scan,
//! the first-line grammar, the header grammar and the body parser over a
//! growing byte buffer.
//!
//! The machine is modelled twice: once as executable code (`Parser`) and
//! once as a pure function of the accumulated bytes (`mstep` /
//! `run_machine` / `spec_parse`). The executable parser is proved to track
//! the pure model exactly, and the pure model is proved insensitive to how
//! the byte stream is cut into chunks: a parse that completes gives the
//! same message for every chunking of the same bytes.
use vstd::prelude::*;

use crate::body::spec_body_step;
use crate::first_line::{spec_request_line, spec_response_line, FirstLineParseError};
use crate::headers::{hm_lookup, spec_header_step, spec_starts_crlf, HeaderParseError};
use crate::scan::{spec_head_end, spec_line_end};
use crate::body::BodyParser;
use crate::first_line::{RequestLine, ResponseLine};
use crate::headers::{HeaderMap, HeaderParser};
use crate::mock::MockStream;
use crate::routing::HttpVerb;

verus! {

broadcast use crate::body::lemma_to_retrieve_nonneg;

/// Errors and signals of message parsing. `NotEnoughBytes` is recoverable:
/// the caller reads more bytes and retries. `HeadersDone` signals the end
/// of a header block or of a chunked body.
#[derive(Clone, Copy, Debug, PartialEq, Eq, Structural)]
pub enum ParseError {
    NotEnoughBytes,
    ResponseLinePartsMissing,
    OtherError,
    MissingHttpVersion,
    InvalidHeader,
    HeadersDone,
}

/// The states of the message parser, in the order the machine passes
/// through them.
#[derive(Clone, Copy, Debug, PartialEq, Eq, Structural)]
pub enum ParsingState {
    FrontSeparateBody,
    FirstLine,
    Headers,
    BodyContentLength,
    BodyChunked,
    TrailerHeaders,
    TrailerHeadersDone,
    BodyDone,
    ParsingDone,
}

/// The two ways a read-and-parse loop can stop early.
#[derive(Clone, Copy, Debug, PartialEq, Eq, Structural)]
pub enum GeneralError {
    UnrecoverableError,
    NotEnoughBytes,
}

/// Which first line a parser expects.
#[derive(Clone, Copy, Debug, PartialEq, Eq, Structural)]
pub enum LineKind {
    Request,
    Response,
}

/// The unrecoverable ways a parse can end, and the two transport signals:
/// a connection closed before any byte arrived (`FalseAlarm`) and one
/// closed in the middle of a message (`UpstreamClosed`).
#[derive(Clone, Copy, Debug, PartialEq, Eq, Structural)]
pub enum ParseFailure {
    FalseAlarm,
    UpstreamClosed,
    FirstLinePartsMissing,
    InvalidHttpMethod,
    MissingHttpVersion,
    InvalidHeader,
    BadContentLength,
    BadChunk,
}

/// What one call to `Parser::advance` reports.
#[derive(Clone, Copy, Debug, PartialEq, Eq, Structural)]
pub enum Step {
    NeedMoreBytes,
    Complete,
    Failed(ParseFailure),
}

/// "content-length"
#[verifier::opaque]
pub open spec fn cl_key() -> Seq<u8> {
    seq![99u8, 111u8, 110u8, 116u8, 101u8, 110u8, 116u8, 45u8, 108u8, 101u8, 110u8, 103u8, 116u8, 104u8]
}

/// "transfer-encoding"
#[verifier::opaque]
pub open spec fn te_key() -> Seq<u8> {
    seq![116u8, 114u8, 97u8, 110u8, 115u8, 102u8, 101u8, 114u8, 45u8, 101u8, 110u8, 99u8, 111u8, 100u8, 105u8, 110u8, 103u8]
}

/// "chunked"
#[verifier::opaque]
pub open spec fn chunked_val() -> Seq<u8> {
    seq![99u8, 104u8, 117u8, 110u8, 107u8, 101u8, 100u8]
}

/// "trailer"
#[verifier::opaque]
pub open spec fn trailer_key() -> Seq<u8> {
    seq![116u8, 114u8, 97u8, 105u8, 108u8, 101u8, 114u8]
}

/// A decimal digit.
pub open spec fn is_dec_digit(b: u8) -> bool {
    48 <= b <= 57
}

/// A non-empty run of decimal digits.
pub open spec fn spec_is_dec(s: Seq<u8>) -> bool {
    s.len() > 0 && forall|j: int| 0 <= j < s.len() ==> is_dec_digit(s[j])
}

/// Value of a decimal digit string.
pub open spec fn spec_dec_value(s: Seq<u8>) -> int
    decreases s.len(),
{
    if s.len() == 0 {
        0
    } else {
        spec_dec_value(s.take(s.len() - 1)) * 10 + (s[s.len() - 1] - 48)
    }
}

proof fn lemma_dec_value_nonneg(s: Seq<u8>)
    requires
        forall|j: int| 0 <= j < s.len() ==> is_dec_digit(s[j]),
    ensures
        spec_dec_value(s) >= 0,
    decreases s.len(),
{
    if s.len() > 0 {
        lemma_dec_value_nonneg(s.take(s.len() - 1));
    }
}

proof fn lemma_dec_value_mono(s: Seq<u8>, j: int)
    requires
        0 <= j <= s.len(),
        forall|k: int| 0 <= k < s.len() ==> is_dec_digit(s[k]),
    ensures
        spec_dec_value(s.take(j)) <= spec_dec_value(s),
    decreases s.len(),
{
    if j == s.len() {
        assert(s.take(j) =~= s);
    } else {
        let s1 = s.take(s.len() - 1);
        lemma_dec_value_nonneg(s1);
        lemma_dec_value_mono(s1, j);
        assert(s1.take(j) =~= s.take(j));
        assert(spec_dec_value(s1) * 10 >= spec_dec_value(s1));
    }
}

/// Parses a decimal digit string into a machine word; `None` when the
/// string is not all digits or its value does not fit.
pub fn parse_dec(s: &[u8]) -> (r: Option<usize>)
    ensures
        match r {
            Some(v) => spec_is_dec(s@) && v == spec_dec_value(s@),
            None => !spec_is_dec(s@) || spec_dec_value(s@) > usize::MAX,
        },
{
    let n = s.len();
    if n == 0 {
        return None;
    }
    let mut acc: usize = 0;
    let mut j: usize = 0;
    proof {
        assert(s@.take(0) =~= Seq::<u8>::empty());
    }
    while j < n
        invariant
            n == s@.len(),
            j <= n,
            forall|k: int| 0 <= k < j ==> is_dec_digit(s@[k]),
            acc == spec_dec_value(s@.take(j as int)),
        decreases n - j,
    {
        let b = s[j];
        if !(48 <= b && b <= 57) {
            return None;
        }
        let d = b - 48;
        proof {
            assert(s@.take(j + 1).take(j as int) =~= s@.take(j as int));
            assert(spec_dec_value(s@.take(j + 1)) == acc * 10 + (s@[j as int] - 48));
        }
        if acc > (usize::MAX - d as usize) / 10 {
            proof {
                assert(acc * 10 + d > usize::MAX) by (nonlinear_arith)
                    requires
                        acc > (usize::MAX - d as usize) / 10,
                        0 <= d < 10,
                ;
                if forall|k: int| 0 <= k < s@.len() ==> is_dec_digit(s@[k]) {
                    lemma_dec_value_mono(s@, j + 1);
                }
            }
            return None;
        }
        proof {
            assert(acc * 10 + d <= usize::MAX) by (nonlinear_arith)
                requires
                    acc <= (usize::MAX - d as usize) / 10,
                    0 <= d < 10,
            ;
        }
        acc = acc * 10 + d as usize;
        j = j + 1;
    }
    proof {
        assert(s@.take(n as int) =~= s@);
    }
    Some(acc)
}

/// The failure a first-line grammar error turns into.
pub open spec fn failure_of_line_error(e: FirstLineParseError) -> ParseFailure {
    match e {
        FirstLineParseError::FirstLinePartsMissing => ParseFailure::FirstLinePartsMissing,
        FirstLineParseError::InvalidHttpMethod => ParseFailure::InvalidHttpMethod,
        FirstLineParseError::MissingHttpVersion => ParseFailure::MissingHttpVersion,
        FirstLineParseError::NotEnoughBytes => ParseFailure::FirstLinePartsMissing,
    }
}

/// Parse of the first line under the expected kind, as a triple: for a
/// request (method, target, version); for a response (version, code,
/// message).
#[verifier::opaque]
pub open spec fn spec_first_line(kind: LineKind, line: Seq<u8>) -> Result<
    (Seq<u8>, Seq<u8>, Seq<u8>),
    ParseFailure,
> {
    match kind {
        LineKind::Request => match spec_request_line(line) {
            Ok(t) => Ok(t),
            Err(e) => Err(failure_of_line_error(e)),
        },
        LineKind::Response => match spec_response_line(line) {
            Ok(t) => Ok(t),
            Err(e) => Err(failure_of_line_error(e)),
        },
    }
}

/// The configuration of the message machine, as pure data.
pub struct MConfig {
    pub state: ParsingState,
    pub failed: Option<ParseFailure>,
    pub pos: int,
    pub bc: int,
    pub first: Option<(Seq<u8>, Seq<u8>, Seq<u8>)>,
    pub headers: Seq<(Seq<u8>, Seq<u8>)>,
    pub trailers: Seq<(Seq<u8>, Seq<u8>)>,
    pub body: Seq<u8>,
    pub phase_data: bool,
    pub to_get: int,
}

/// Where the machine starts.
pub open spec fn init_config() -> MConfig {
    MConfig {
        state: ParsingState::FrontSeparateBody,
        failed: None,
        pos: 0,
        bc: 0,
        first: None,
        headers: Seq::empty(),
        trailers: Seq::empty(),
        body: Seq::empty(),
        phase_data: false,
        to_get: 0,
    }
}

/// A state that ends the machine successfully.
pub open spec fn is_terminal(st: ParsingState) -> bool {
    st is ParsingDone || st is TrailerHeadersDone || st is BodyDone
}

/// Rank of a configuration along the pipeline; every step either consumes
/// input or lowers the rank.
pub open spec fn rank_config(c: MConfig) -> int {
    if c.failed is Some {
        0
    } else {
        match c.state {
            ParsingState::FrontSeparateBody => 9,
            ParsingState::FirstLine => 8,
            ParsingState::Headers => 7,
            ParsingState::BodyContentLength => 6,
            ParsingState::BodyChunked => 5,
            ParsingState::TrailerHeaders => 4,
            ParsingState::TrailerHeadersDone => 0,
            ParsingState::BodyDone => 0,
            ParsingState::ParsingDone => 0,
        }
    }
}

/// One step of the machine on buffer `s`, or `None` when it is blocked:
/// finished, failed, or in need of more bytes.
pub open spec fn mstep(kind: LineKind, s: Seq<u8>, c: MConfig) -> Option<MConfig> {
    if c.failed is Some || !(0 <= c.pos <= s.len() && 0 <= c.bc <= s.len() && 0 <= c.to_get) {
        None
    } else {
        match c.state {
            ParsingState::FrontSeparateBody => match spec_head_end(s) {
                None => None,
                Some(bc) => Some(MConfig { bc, state: ParsingState::FirstLine, ..c }),
            },
            ParsingState::FirstLine => match spec_line_end(s.skip(c.pos)) {
                None => None,
                Some(i) => match spec_first_line(kind, s.skip(c.pos).take(i - 2)) {
                    Err(f) => Some(MConfig { failed: Some(f), ..c }),
                    Ok(fl) => Some(
                        MConfig { first: Some(fl), pos: c.pos + i, state: ParsingState::Headers, ..c },
                    ),
                },
            },
            ParsingState::Headers => match spec_header_step(c.headers, s.skip(c.pos)) {
                Ok((m2, i)) => Some(MConfig { headers: m2, pos: c.pos + i, ..c }),
                Err(HeaderParseError::HeadersDone) => Some(
                    MConfig {
                        pos: c.pos + 2,
                        state: if hm_lookup(c.headers, cl_key()) is Some {
                            ParsingState::BodyContentLength
                        } else if hm_lookup(c.headers, te_key()) == Some(chunked_val()) {
                            ParsingState::BodyChunked
                        } else {
                            ParsingState::ParsingDone
                        },
                        ..c
                    },
                ),
                Err(HeaderParseError::NotEnoughBytes) => None,
                Err(_) => Some(MConfig { failed: Some(ParseFailure::InvalidHeader), ..c }),
            },
            ParsingState::BodyContentLength => match hm_lookup(c.headers, cl_key()) {
                None => Some(MConfig { failed: Some(ParseFailure::BadContentLength), ..c }),
                Some(v) => if !spec_is_dec(v) || spec_dec_value(v) > usize::MAX {
                    Some(MConfig { failed: Some(ParseFailure::BadContentLength), ..c })
                } else if s.len() - c.bc >= spec_dec_value(v) {
                    Some(
                        MConfig {
                            body: c.body + s.subrange(c.bc, c.bc + spec_dec_value(v)),
                            state: ParsingState::ParsingDone,
                            ..c
                        },
                    )
                } else {
                    None
                },
            },
            ParsingState::BodyChunked => match spec_body_step(
                c.phase_data,
                c.to_get,
                c.body,
                s.skip(c.pos),
            ) {
                Ok((ph, tg, b, i)) => Some(
                    MConfig { phase_data: ph, to_get: tg, body: b, pos: c.pos + i, ..c },
                ),
                Err(ParseError::NotEnoughBytes) => None,
                Err(ParseError::HeadersDone) => match spec_line_end(s.skip(c.pos)) {
                    None => None,
                    Some(i) => Some(
                        MConfig {
                            pos: c.pos + i,
                            state: if hm_lookup(c.headers, trailer_key()) is Some {
                                ParsingState::TrailerHeaders
                            } else {
                                ParsingState::ParsingDone
                            },
                            ..c
                        },
                    ),
                },
                Err(_) => Some(MConfig { failed: Some(ParseFailure::BadChunk), ..c }),
            },
            ParsingState::TrailerHeaders => match spec_header_step(c.trailers, s.skip(c.pos)) {
                Ok((m2, i)) => Some(MConfig { trailers: m2, pos: c.pos + i, ..c }),
                Err(HeaderParseError::HeadersDone) => Some(
                    MConfig { pos: c.pos + 2, state: ParsingState::TrailerHeadersDone, ..c },
                ),
                Err(HeaderParseError::NotEnoughBytes) => None,
                Err(_) => Some(MConfig { failed: Some(ParseFailure::InvalidHeader), ..c }),
            },
            ParsingState::TrailerHeadersDone => None,
            ParsingState::BodyDone => None,
            ParsingState::ParsingDone => None,
        }
    }
}

/// What an `Ok` or line-ending result of `spec_header_step` implies about
/// the buffer it fired on.
proof fn lemma_header_step_bounds(m: Seq<(Seq<u8>, Seq<u8>)>, u: Seq<u8>)
    ensures
        (spec_header_step(m, u) matches Ok(p) ==> 2 <= p.1 <= u.len() && spec_line_end(u) == Some(
            p.1,
        )),
        (spec_header_step(m, u) == Err::<(Seq<(Seq<u8>, Seq<u8>)>, int), _>(
            HeaderParseError::HeadersDone,
        ) ==> spec_starts_crlf(u)),
{
    if !spec_starts_crlf(u) {
        match spec_line_end(u) {
            Some(i) => {
                crate::scan::lemma_line_end_props(u, i);
            },
            None => {},
        }
    }
}

/// What a firing result of `spec_body_step` implies about the buffer.
proof fn lemma_body_step_bounds(phase_data: bool, to_get: int, body: Seq<u8>, u: Seq<u8>)
    requires
        to_get >= 0,
    ensures
        (spec_body_step(phase_data, to_get, body, u) matches Ok(p) ==> 2 <= p.3 <= u.len()),
        (spec_body_step(phase_data, to_get, body, u) == Err::<(bool, int, Seq<u8>, int), _>(
            ParseError::HeadersDone,
        ) ==> spec_line_end(u) is Some && 2 <= spec_line_end(u).unwrap() <= u.len()),
        (spec_body_step(phase_data, to_get, body, u) matches Ok(p) ==> p.1 >= 0),
{
    if !phase_data {
        match spec_line_end(u) {
            Some(i) => {
                crate::scan::lemma_line_end_props(u, i);
                crate::body::lemma_chunk_size_nonneg(u.take(i - 2));
            },
            None => {},
        }
    }
}

/// Every step keeps positions in bounds and either consumes input or
/// lowers the rank.
pub proof fn lemma_mstep_progress(kind: LineKind, s: Seq<u8>, c: MConfig, c2: MConfig)
    requires
        mstep(kind, s, c) == Some(c2),
    ensures
        0 <= c2.pos <= s.len(),
        0 <= c2.bc <= s.len(),
        0 <= c2.to_get,
        c2.pos >= c.pos,
        c2.pos > c.pos || rank_config(c2) < rank_config(c),
{
    let u = s.skip(c.pos);
    assert(u.len() == s.len() - c.pos);
    match c.state {
        ParsingState::FrontSeparateBody => {
            let bc = spec_head_end(s).unwrap();
            crate::scan::lemma_head_end_props(s, bc);
        },
        ParsingState::FirstLine => {
            match spec_line_end(u) {
                Some(i) => {
                    crate::scan::lemma_line_end_props(u, i);
                },
                None => {},
            }
        },
        ParsingState::Headers => {
            lemma_header_step_bounds(c.headers, u);
        },
        ParsingState::BodyContentLength => {},
        ParsingState::BodyChunked => {
            lemma_body_step_bounds(c.phase_data, c.to_get, c.body, u);
        },
        ParsingState::TrailerHeaders => {
            lemma_header_step_bounds(c.trailers, u);
        },
        _ => {},
    }
}

/// One accepted step does not change where the run ends.
proof fn lemma_run_step(kind: LineKind, s: Seq<u8>, c: MConfig, c2: MConfig)
    requires
        mstep(kind, s, c) == Some(c2),
    ensures
        run_machine(kind, s, c) == run_machine(kind, s, c2),
{
    reveal(run_machine);
}

/// A blocked configuration is where the run ends.
proof fn lemma_run_blocked(kind: LineKind, s: Seq<u8>, c: MConfig)
    requires
        mstep(kind, s, c) is None,
    ensures
        run_machine(kind, s, c) == c,
{
    reveal(run_machine);
}

#[via_fn]
proof fn run_machine_decreases(kind: LineKind, s: Seq<u8>, c: MConfig) {
    match mstep(kind, s, c) {
        None => {},
        Some(c2) => {
            lemma_mstep_progress(kind, s, c, c2);
        },
    }
}

/// Runs the machine until it blocks; the result is the final configuration.
#[verifier::rlimit(100)]
#[verifier::opaque]
pub open spec fn run_machine(kind: LineKind, s: Seq<u8>, c: MConfig) -> MConfig
    decreases s.len() - c.pos, rank_config(c),
        via run_machine_decreases
{
    match mstep(kind, s, c) {
        None => c,
        Some(c2) => run_machine(kind, s, c2),
    }
}

/// A parsed message, as pure data: the first-line triple, the primary
/// headers, the trailer headers, and the body.
pub struct SpecMessage {
    pub first: (Seq<u8>, Seq<u8>, Seq<u8>),
    pub headers: Seq<(Seq<u8>, Seq<u8>)>,
    pub trailers: Seq<(Seq<u8>, Seq<u8>)>,
    pub body: Seq<u8>,
}

/// What parsing the whole buffer `s` yields.
pub enum SpecParse {
    NeedMore,
    Bad(ParseFailure),
    Done(SpecMessage),
}

/// The message a finished configuration carries.
pub open spec fn message_of(c: MConfig) -> SpecMessage {
    SpecMessage {
        first: match c.first {
            Some(fl) => fl,
            None => (Seq::empty(), Seq::empty(), Seq::empty()),
        },
        headers: c.headers,
        trailers: c.trailers,
        body: c.body,
    }
}

/// Parsing `s` from scratch: the classification of the machine's final
/// configuration.
pub open spec fn spec_parse(kind: LineKind, s: Seq<u8>) -> SpecParse {
    let c = run_machine(kind, s, init_config());
    match c.failed {
        Some(f) => SpecParse::Bad(f),
        None => if is_terminal(c.state) {
            SpecParse::Done(message_of(c))
        } else {
            SpecParse::NeedMore
        },
    }
}

proof fn lemma_skip_extend(s: Seq<u8>, t: Seq<u8>, p: int)
    requires
        0 <= p <= s.len(),
    ensures
        (s + t).skip(p) == s.skip(p) + t,
{
    assert((s + t).skip(p) =~= s.skip(p) + t);
}

proof fn lemma_line_end_extend(u: Seq<u8>, w: Seq<u8>, i: int)
    requires
        spec_line_end(u) == Some(i),
    ensures
        spec_line_end(u + w) == Some(i),
{
    crate::scan::lemma_line_end_props(u, i);
    assert((u + w)[i - 2] == u[i - 2] && (u + w)[i - 1] == u[i - 1]);
    assert(crate::scan::is_crlf_at(u + w, i - 2));
    assert forall|j: int| 0 <= j < i - 2 implies !crate::scan::is_crlf_at(u + w, j) by {
        assert(!crate::scan::is_crlf_at(u, j));
        assert((u + w)[j] == u[j] && (u + w)[j + 1] == u[j + 1]);
    }
    crate::scan::lemma_line_end_at(u + w, i - 2);
}

proof fn lemma_head_end_extend(u: Seq<u8>, w: Seq<u8>, i: int)
    requires
        spec_head_end(u) == Some(i),
    ensures
        spec_head_end(u + w) == Some(i),
{
    crate::scan::lemma_head_end_props(u, i);
    assert((u + w)[i - 4] == u[i - 4] && (u + w)[i - 3] == u[i - 3] && (u + w)[i - 2] == u[i - 2]
        && (u + w)[i - 1] == u[i - 1]);
    assert(crate::scan::is_double_crlf_at(u + w, i - 4));
    assert forall|j: int| 0 <= j < i - 4 implies !crate::scan::is_double_crlf_at(u + w, j) by {
        assert(!crate::scan::is_double_crlf_at(u, j));
        assert((u + w)[j] == u[j] && (u + w)[j + 1] == u[j + 1] && (u + w)[j + 2] == u[j + 2] && (u
            + w)[j + 3] == u[j + 3]);
    }
    crate::scan::lemma_head_end_at(u + w, i - 4);
}

proof fn lemma_header_step_extend(m: Seq<(Seq<u8>, Seq<u8>)>, u: Seq<u8>, w: Seq<u8>)
    requires
        spec_header_step(m, u) != Err::<(Seq<(Seq<u8>, Seq<u8>)>, int), _>(
            HeaderParseError::NotEnoughBytes,
        ),
    ensures
        spec_header_step(m, u + w) == spec_header_step(m, u),
{
    if spec_starts_crlf(u) {
        assert((u + w)[0] == u[0] && (u + w)[1] == u[1]);
        assert(spec_starts_crlf(u + w));
    } else {
        match spec_line_end(u) {
            None => {},
            Some(i) => {
                crate::scan::lemma_line_end_props(u, i);
                assert((u + w)[0] == u[0] && (u + w)[1] == u[1]);
                assert(!spec_starts_crlf(u + w));
                lemma_line_end_extend(u, w, i);
                assert((u + w).subrange(0, i - 2) =~= u.subrange(0, i - 2));
            },
        }
    }
}

proof fn lemma_body_step_extend(
    phase_data: bool,
    to_get: int,
    body: Seq<u8>,
    u: Seq<u8>,
    w: Seq<u8>,
)
    requires
        to_get >= 0,
        spec_body_step(phase_data, to_get, body, u) != Err::<(bool, int, Seq<u8>, int), _>(
            ParseError::NotEnoughBytes,
        ),
    ensures
        spec_body_step(phase_data, to_get, body, u + w) == spec_body_step(
            phase_data,
            to_get,
            body,
            u,
        ),
{
    if !phase_data {
        match spec_line_end(u) {
            None => {},
            Some(i) => {
                crate::scan::lemma_line_end_props(u, i);
                lemma_line_end_extend(u, w, i);
                assert((u + w).take(i - 2) =~= u.take(i - 2));
            },
        }
    } else {
        assert(u.len() >= to_get + 2);
        assert((u + w)[to_get] == u[to_get] && (u + w)[to_get + 1] == u[to_get + 1]);
        assert((u + w).take(to_get) =~= u.take(to_get));
    }
}

/// A step the machine takes on `s` is the step it takes on any extension
/// of `s`.
#[verifier::rlimit(100)]
proof fn lemma_mstep_extend(kind: LineKind, s: Seq<u8>, t: Seq<u8>, c: MConfig, c2: MConfig)
    requires
        mstep(kind, s, c) == Some(c2),
    ensures
        mstep(kind, s + t, c) == Some(c2),
{
    let s2 = s + t;
    assert(s2.len() >= s.len());
    lemma_skip_extend(s, t, c.pos);
    match c.state {
        ParsingState::FrontSeparateBody => {
            let bc = spec_head_end(s).unwrap();
            lemma_head_end_extend(s, t, bc);
        },
        ParsingState::FirstLine => {
            let u = s.skip(c.pos);
            let i = spec_line_end(u).unwrap();
            crate::scan::lemma_line_end_props(u, i);
            lemma_line_end_extend(u, t, i);
            assert((u + t).take(i - 2) =~= u.take(i - 2));
        },
        ParsingState::Headers => {
            lemma_header_step_extend(c.headers, s.skip(c.pos), t);
        },
        ParsingState::BodyContentLength => {
            match hm_lookup(c.headers, cl_key()) {
                None => {},
                Some(v) => {
                    if spec_is_dec(v) && spec_dec_value(v) <= usize::MAX && s.len() - c.bc
                        >= spec_dec_value(v) {
                        lemma_dec_value_nonneg(v);
                        assert(s2.subrange(c.bc, c.bc + spec_dec_value(v)) =~= s.subrange(
                            c.bc,
                            c.bc + spec_dec_value(v),
                        ));
                    }
                },
            }
        },
        ParsingState::BodyChunked => {
            let u = s.skip(c.pos);
            lemma_body_step_bounds(c.phase_data, c.to_get, c.body, u);
            match spec_body_step(c.phase_data, c.to_get, c.body, u) {
                Err(ParseError::HeadersDone) => {
                    lemma_body_step_extend(c.phase_data, c.to_get, c.body, u, t);
                    let i = spec_line_end(u).unwrap();
                    lemma_line_end_extend(u, t, i);
                },
                _ => {
                    lemma_body_step_extend(c.phase_data, c.to_get, c.body, u, t);
                },
            }
        },
        ParsingState::TrailerHeaders => {
            lemma_header_step_extend(c.trailers, s.skip(c.pos), t);
        },
        _ => {},
    }
}

/// Running on an extension from a configuration already reached on `s`
/// lands where running on the extension from the start does.
#[verifier::rlimit(100)]
proof fn lemma_run_extend(kind: LineKind, s: Seq<u8>, t: Seq<u8>, c: MConfig)
    ensures
        run_machine(kind, s + t, run_machine(kind, s, c)) == run_machine(kind, s + t, c),
    decreases s.len() - c.pos, rank_config(c),
{
    reveal(run_machine);
    match mstep(kind, s, c) {
        None => {
            assert(run_machine(kind, s, c) == c);
        },
        Some(c2) => {
            lemma_mstep_progress(kind, s, c, c2);
            lemma_mstep_extend(kind, s, t, c, c2);
            assert(run_machine(kind, s, c) == run_machine(kind, s, c2));
            assert(run_machine(kind, s + t, c) == run_machine(kind, s + t, c2));
            lemma_run_extend(kind, s, t, c2);
        },
    }
}

/// A parse that has finished (with a message or a failure) does not change
/// when more bytes arrive.
/// A finished or failed configuration stays where it is, whatever the
/// buffer.
#[verifier::rlimit(100)]
proof fn lemma_blocked_stays(kind: LineKind, s2: Seq<u8>, c: MConfig)
    requires
        c.failed is Some || is_terminal(c.state),
    ensures
        run_machine(kind, s2, c) == c,
{
    assert(mstep(kind, s2, c) is None);
    lemma_run_blocked(kind, s2, c);
}

#[verifier::rlimit(100)]
pub proof fn lemma_parse_extension(kind: LineKind, s: Seq<u8>, t: Seq<u8>)
    ensures
        (spec_parse(kind, s) matches SpecParse::Done(m) ==> spec_parse(kind, s + t)
            == SpecParse::Done(m)),
        (spec_parse(kind, s) matches SpecParse::Bad(f) ==> spec_parse(kind, s + t)
            == SpecParse::Bad(f)),
{
    let c1 = run_machine(kind, s, init_config());
    lemma_run_extend(kind, s, t, init_config());
    if c1.failed is Some || is_terminal(c1.state) {
        lemma_blocked_stays(kind, s + t, c1);
    }
}

/// Chunking invariance: a well-formed message parsed to completion yields
/// the same value no matter where the byte stream was cut, because any two
/// completion prefixes of one stream extend one another.
pub proof fn lemma_chunking_invariance(
    kind: LineKind,
    s: Seq<u8>,
    t: Seq<u8>,
    m1: SpecMessage,
    m2: SpecMessage,
)
    requires
        spec_parse(kind, s) == SpecParse::Done(m1),
        spec_parse(kind, s + t) == SpecParse::Done(m2),
    ensures
        m1 == m2,
{
    lemma_parse_extension(kind, s, t);
}


/// States at or beyond the body: the head (first line, headers, body
/// cursor) is settled and never changes again.
pub open spec fn past_headers(st: ParsingState) -> bool {
    st is BodyContentLength || st is BodyChunked || st is TrailerHeaders || is_terminal(st)
}

/// Once the machine is past the headers, running further never changes
/// the first line, the header mapping, or the body cursor.
pub proof fn lemma_run_preserves_head(kind: LineKind, s: Seq<u8>, c: MConfig)
    requires
        past_headers(c.state),
    ensures
        run_machine(kind, s, c).first == c.first,
        run_machine(kind, s, c).headers == c.headers,
        run_machine(kind, s, c).bc == c.bc,
        past_headers(run_machine(kind, s, c).state),
    decreases s.len() - c.pos, rank_config(c),
{
    reveal(run_machine);
    match mstep(kind, s, c) {
        None => {},
        Some(c2) => {
            lemma_mstep_progress(kind, s, c, c2);
            assert(c2.first == c.first && c2.headers == c.headers && c2.bc == c.bc
                && past_headers(c2.state));
            lemma_run_preserves_head(kind, s, c2);
        },
    }
}

/// One request as the handlers see it: request line, primary headers, body.
pub struct Request {
    request_line: RequestLine,
    headers: HeaderMap,
    body: Vec<u8>,
}

pub const QUESTION: u8 = 63;

/// The request target up to the first `?`, without the `?` itself.
pub open spec fn spec_request_path(t: Seq<u8>) -> Seq<u8> {
    match crate::scan::spec_find_byte(t, QUESTION) {
        None => t,
        Some(i) => t.take(i),
    }
}

/// What follows the first `?` of the request target, without the `?`;
/// empty when there is no query.
pub open spec fn spec_query_string(t: Seq<u8>) -> Seq<u8> {
    match crate::scan::spec_find_byte(t, QUESTION) {
        None => Seq::empty(),
        Some(i) => t.skip(i + 1),
    }
}

impl Request {
    pub closed spec fn method_view(&self) -> Seq<u8> {
        self.request_line.method_view()
    }

    pub closed spec fn target_view(&self) -> Seq<u8> {
        self.request_line.target_view()
    }

    pub closed spec fn version_view(&self) -> Seq<u8> {
        self.request_line.version_view()
    }

    pub closed spec fn headers_view(&self) -> Seq<(Seq<u8>, Seq<u8>)> {
        self.headers@
    }

    pub closed spec fn body_view(&self) -> Seq<u8> {
        self.body@
    }

    pub open spec fn wf(&self) -> bool {
        crate::headers::hm_wf(self.headers_view())
    }

    pub fn new(request_line: RequestLine, headers: HeaderMap, body: Vec<u8>) -> (r: Request)
        ensures
            r.method_view() == request_line.method_view(),
            r.target_view() == request_line.target_view(),
            r.version_view() == request_line.version_view(),
            r.headers_view() == headers@,
            r.body_view() == body@,
    {
        Request { request_line, headers, body }
    }

    /// The verb of the request line's method token.
    pub fn request_method(&self) -> (r: HttpVerb)
        ensures
            r == crate::routing::spec_verb_of(self.method_view()),
    {
        crate::routing::verb_of(self.request_line.method().as_slice())
    }

    /// The request target up to the first `?`.
    pub fn request_path(&self) -> (r: &[u8])
        ensures
            r@ == spec_request_path(self.target_view()),
    {
        let t = self.request_line.request_target();
        let n = t.len();
        match crate::scan::find_byte(t.as_slice(), QUESTION) {
            None => {
                let r = vstd::slice::slice_subrange(t.as_slice(), 0, n);
                proof {
                    assert(r@ =~= self.target_view());
                }
                r
            },
            Some(i) => {
                let r = vstd::slice::slice_subrange(t.as_slice(), 0, i);
                proof {
                    assert(r@ =~= self.target_view().take(i as int));
                }
                r
            },
        }
    }

    /// What follows the first `?` of the request target, or nothing.
    pub fn query_params_string(&self) -> (r: &[u8])
        ensures
            r@ == spec_query_string(self.target_view()),
    {
        let t = self.request_line.request_target();
        let n = t.len();
        match crate::scan::find_byte(t.as_slice(), QUESTION) {
            None => {
                let r = vstd::slice::slice_subrange(t.as_slice(), n, n);
                proof {
                    assert(r@ =~= Seq::<u8>::empty());
                }
                r
            },
            Some(i) => {
                let r = vstd::slice::slice_subrange(t.as_slice(), i + 1, n);
                proof {
                    assert(r@ =~= self.target_view().skip(i + 1));
                }
                r
            },
        }
    }

    /// Case-insensitive header lookup.
    pub fn header(&self, key: &[u8]) -> (r: Option<&Vec<u8>>)
        ensures
            match r {
                Some(v) => hm_lookup(self.headers_view(), crate::bytes::lower_bytes(key@)) == Some(
                    v@,
                ),
                None => hm_lookup(self.headers_view(), crate::bytes::lower_bytes(key@)) is None,
            },
    {
        self.headers.get(key)
    }

    pub fn headers(&self) -> (r: &HeaderMap)
        ensures
            r@ == self.headers_view(),
    {
        &self.headers
    }

    pub fn body(&self) -> (r: &[u8])
        ensures
            r@ == self.body_view(),
    {
        self.body.as_slice()
    }
}

/// One response as a proxy or client sees it: status line, primary
/// headers, body.
pub struct Response {
    response_line: ResponseLine,
    headers: HeaderMap,
    body: Vec<u8>,
}

impl Response {
    pub closed spec fn version_view(&self) -> Seq<u8> {
        self.response_line.version_view()
    }

    pub closed spec fn code_view(&self) -> Seq<u8> {
        self.response_line.code_view()
    }

    pub closed spec fn message_view(&self) -> Seq<u8> {
        self.response_line.message_view()
    }

    pub closed spec fn headers_view(&self) -> Seq<(Seq<u8>, Seq<u8>)> {
        self.headers@
    }

    pub closed spec fn body_view(&self) -> Seq<u8> {
        self.body@
    }

    pub fn new(response_line: ResponseLine, headers: HeaderMap, body: Vec<u8>) -> (r: Response)
        ensures
            r.version_view() == response_line.version_view(),
            r.code_view() == response_line.code_view(),
            r.message_view() == response_line.message_view(),
            r.headers_view() == headers@,
            r.body_view() == body@,
    {
        Response { response_line, headers, body }
    }

    pub fn body(&self) -> (r: &[u8])
        ensures
            r@ == self.body_view(),
    {
        self.body.as_slice()
    }

    pub fn response_line(&self) -> (r: &ResponseLine)
        ensures
            r.version_view() == self.version_view(),
            r.code_view() == self.code_view(),
            r.message_view() == self.message_view(),
    {
        &self.response_line
    }

    pub fn headers(&self) -> (r: &HeaderMap)
        ensures
            r@ == self.headers_view(),
    {
        &self.headers
    }
}

/// A parsed message before it is wrapped as a `Request` or `Response`.
pub struct Payload<T> {
    pub first_line: T,
    pub headers: HeaderMap,
    pub body: Vec<u8>,
}

impl Payload<RequestLine> {
    /// Wraps the parts as a request.
    pub fn into_request(self) -> (r: Request)
        ensures
            r.method_view() == self.first_line.method_view(),
            r.target_view() == self.first_line.target_view(),
            r.version_view() == self.first_line.version_view(),
            r.headers_view() == self.headers@,
            r.body_view() == self.body@,
    {
        Request { request_line: self.first_line, headers: self.headers, body: self.body }
    }
}

impl Payload<ResponseLine> {
    /// Wraps the parts as a response.
    pub fn into_response(self) -> (r: Response)
        ensures
            r.version_view() == self.first_line.version_view(),
            r.code_view() == self.first_line.code_view(),
            r.message_view() == self.first_line.message_view(),
            r.headers_view() == self.headers@,
            r.body_view() == self.body@,
    {
        Response { response_line: self.first_line, headers: self.headers, body: self.body }
    }
}

/// The incremental message parser: bytes are appended as they arrive and
/// `advance` runs the state machine as far as the bytes allow. Its
/// contract ties every outcome to `run_machine` over the bytes seen so
/// far, so a finished parse equals the pure parse of the whole buffer.
pub struct Parser {
    kind: LineKind,
    request_line: Option<RequestLine>,
    response_line: Option<ResponseLine>,
    header_parser: HeaderParser,
    body_parser: BodyParser,
    body_cursor: usize,
    current_position: usize,
    data: Vec<u8>,
    parsing_state: ParsingState,
    failure: Option<ParseFailure>,
}

impl Parser {
    pub closed spec fn kind_view(&self) -> LineKind {
        self.kind
    }

    pub closed spec fn data_view(&self) -> Seq<u8> {
        self.data@
    }

    pub closed spec fn first_view(&self) -> Option<(Seq<u8>, Seq<u8>, Seq<u8>)> {
        match self.kind {
            LineKind::Request => match self.request_line {
                Some(rl) => Some((rl.method_view(), rl.target_view(), rl.version_view())),
                None => None,
            },
            LineKind::Response => match self.response_line {
                Some(rl) => Some((rl.version_view(), rl.code_view(), rl.message_view())),
                None => None,
            },
        }
    }

    /// The machine configuration the parser's fields stand for.
    pub closed spec fn config(&self) -> MConfig {
        MConfig {
            state: self.parsing_state,
            failed: self.failure,
            pos: self.current_position as int,
            bc: self.body_cursor as int,
            first: self.first_view(),
            headers: self.header_parser.headers_view(),
            trailers: self.header_parser.trailers_view(),
            body: self.body_parser.body_view(),
            phase_data: self.body_parser.phase_is_data(),
            to_get: self.body_parser.to_retrieve_view(),
        }
    }

    /// The parser's configuration is an intermediate point of the pure
    /// run over its buffer: finishing from here is finishing from scratch.
    pub closed spec fn inv(&self) -> bool {
        &&& run_machine(self.kind_view(), self.data_view(), init_config()) == run_machine(
            self.kind_view(),
            self.data_view(),
            self.config(),
        )
        &&& 0 <= self.config().pos <= self.data_view().len()
        &&& 0 <= self.config().bc <= self.data_view().len()
        &&& self.header_parser.wf()
    }

    pub fn new(kind: LineKind) -> (r: Parser)
        ensures
            r.inv(),
            r.kind_view() == kind,
            r.data_view() == Seq::<u8>::empty(),
            r.config() == init_config(),
    {
        let r = Parser {
            kind,
            request_line: None,
            response_line: None,
            header_parser: HeaderParser::new(),
            body_parser: BodyParser::new(),
            body_cursor: 0,
            current_position: 0,
            data: Vec::new(),
            parsing_state: ParsingState::FrontSeparateBody,
            failure: None,
        };
        proof {
            assert(r.config() == init_config());
        }
        r
    }

    /// Appends newly arrived bytes to the buffer.
    pub fn add_to_data(&mut self, buf: &[u8])
        requires
            old(self).inv(),
        ensures
            final(self).inv(),
            final(self).kind_view() == old(self).kind_view(),
            final(self).data_view() == old(self).data_view() + buf@,
            final(self).config() == old(self).config(),
    {
        proof {
            lemma_run_extend(self.kind_view(), self.data_view(), buf@, init_config());
            lemma_run_extend(self.kind_view(), self.data_view(), buf@, self.config());
        }
        crate::bytes::append_bytes(&mut self.data, buf);
    }

    /// Bytes available beyond the start of the body region.
    pub fn body_len(&self) -> (r: usize)
        requires
            self.inv(),
        ensures
            r == self.data_view().len() - self.config().bc,
    {
        self.data.len() - self.body_cursor
    }

    /// Case-insensitive lookup among the headers parsed so far.
    pub fn header(&self, key: &[u8]) -> (r: Option<&Vec<u8>>)
        ensures
            match r {
                Some(v) => hm_lookup(self.config().headers, crate::bytes::lower_bytes(key@))
                    == Some(v@),
                None => hm_lookup(self.config().headers, crate::bytes::lower_bytes(key@)) is None,
            },
    {
        self.header_parser.header(key)
    }

    /// Runs one step of one non-terminal state. `None` means the machine
    /// moved on; `Some(NeedMoreBytes)` means it is blocked on input.
    fn step_front(&mut self) -> (r: Option<Step>)
        requires
            old(self).inv(),
            old(self).config().failed is None,
            old(self).config().state == ParsingState::FrontSeparateBody,
        ensures
            final(self).inv(),
            final(self).kind_view() == old(self).kind_view(),
            final(self).data_view() == old(self).data_view(),
            match r {
                None => final(self).config().pos >= old(self).config().pos && (final(self).config().pos > old(self).config().pos || rank_config(final(self).config())
                    < rank_config(old(self).config())),
                Some(st) => st == Step::NeedMoreBytes && final(self).config() == old(self).config()
                    && mstep(old(self).kind_view(), old(self).data_view(), old(self).config())
                    is None,
            },
    {
        let ghost kind = self.kind_view();
        let ghost s = self.data_view();
        let ghost c0 = self.config();
        match crate::scan::find_payload_index(self.data.as_slice()) {
            Some(bc) => {
                self.body_cursor = bc;
                self.parsing_state = ParsingState::FirstLine;
                proof {
                    assert(mstep(kind, s, c0) == Some(self.config()));
                    lemma_mstep_progress(kind, s, c0, self.config());
                    lemma_run_step(kind, s, c0, self.config());
                }
                None
            },
            None => {
                proof {
                    assert(mstep(kind, s, c0) is None);
                }
                Some(Step::NeedMoreBytes)
            },
        }
    }

    fn step_first_line(&mut self) -> (r: Option<Step>)
        requires
            old(self).inv(),
            old(self).config().failed is None,
            old(self).config().state == ParsingState::FirstLine,
        ensures
            final(self).inv(),
            final(self).kind_view() == old(self).kind_view(),
            final(self).data_view() == old(self).data_view(),
            match r {
                None => final(self).config().pos >= old(self).config().pos && (final(self).config().pos > old(self).config().pos || rank_config(final(self).config())
                    < rank_config(old(self).config())),
                Some(st) => st == Step::NeedMoreBytes && final(self).config() == old(self).config()
                    && mstep(old(self).kind_view(), old(self).data_view(), old(self).config())
                    is None,
            },
    {
        let ghost kind = self.kind_view();
        let ghost s = self.data_view();
        let ghost c0 = self.config();
        let n = self.data.len();
        let rest = vstd::slice::slice_subrange(self.data.as_slice(), self.current_position, n);
        proof {
            assert(rest@ =~= s.skip(c0.pos));
        }
        match crate::scan::find_field_line_index(rest) {
            None => {
                proof {
                    assert(mstep(kind, s, c0) is None);
                }
                Some(Step::NeedMoreBytes)
            },
            Some(i) => {
                let line = vstd::slice::slice_subrange(rest, 0, i - 2);
                proof {
                    reveal(spec_first_line);
                    assert(line@ =~= s.skip(c0.pos).take(i - 2));
                }
                let parsed: Result<(), FirstLineParseError> = match self.kind {
                    LineKind::Request => match crate::first_line::parse_request_line(line) {
                        Ok(rl) => {
                            self.request_line = Some(rl);
                            Ok(())
                        },
                        Err(e) => Err(e),
                    },
                    LineKind::Response => match crate::first_line::parse_response_line(line) {
                        Ok(rl) => {
                            self.response_line = Some(rl);
                            Ok(())
                        },
                        Err(e) => Err(e),
                    },
                };
                match parsed {
                    Ok(()) => {
                        self.current_position = self.current_position + i;
                        self.parsing_state = ParsingState::Headers;
                    },
                    Err(e) => {
                        let f = match e {
                            FirstLineParseError::FirstLinePartsMissing => ParseFailure::FirstLinePartsMissing,
                            FirstLineParseError::InvalidHttpMethod => ParseFailure::InvalidHttpMethod,
                            FirstLineParseError::MissingHttpVersion => ParseFailure::MissingHttpVersion,
                            FirstLineParseError::NotEnoughBytes => ParseFailure::FirstLinePartsMissing,
                        };
                        self.failure = Some(f);
                    },
                }
                proof {
                    assert(mstep(kind, s, c0) == Some(self.config()));
                    lemma_mstep_progress(kind, s, c0, self.config());
                    lemma_run_step(kind, s, c0, self.config());
                }
                None
            },
        }
    }

    #[verifier::rlimit(100)]
    #[verifier::spinoff_prover]
    fn step_headers(&mut self) -> (r: Option<Step>)
        requires
            old(self).inv(),
            old(self).config().failed is None,
            old(self).config().state == ParsingState::Headers,
        ensures
            final(self).inv(),
            final(self).kind_view() == old(self).kind_view(),
            final(self).data_view() == old(self).data_view(),
            match r {
                None => final(self).config().pos >= old(self).config().pos && (final(self).config().pos > old(self).config().pos || rank_config(final(self).config())
                    < rank_config(old(self).config())),
                Some(st) => st == Step::NeedMoreBytes && final(self).config() == old(self).config()
                    && mstep(old(self).kind_view(), old(self).data_view(), old(self).config())
                    is None,
            },
    {
        let ghost kind = self.kind_view();
        let ghost s = self.data_view();
        let ghost c0 = self.config();
        let n = self.data.len();
        let step_r = self.header_parser.parse_header(
            vstd::slice::slice_subrange(self.data.as_slice(), self.current_position, n),
        );
        proof {
            assert(s.subrange(c0.pos, s.len() as int) =~= s.skip(c0.pos));
        }
        match step_r {
            Ok(i) => {
                self.current_position = self.current_position + i;
                proof {
                    assert(mstep(kind, s, c0) == Some(self.config()));
                    lemma_mstep_progress(kind, s, c0, self.config());
                    lemma_run_step(kind, s, c0, self.config());
                }
                None
            },
            Err(HeaderParseError::NotEnoughBytes) => {
                proof {
                    assert(mstep(kind, s, c0) is None);
                }
                Some(Step::NeedMoreBytes)
            },
            Err(HeaderParseError::HeadersDone) => {
                proof {
                    assert(crate::headers::spec_starts_crlf(s.skip(c0.pos)));
                }
                self.current_position = self.current_position + 2;
                let cl_arr: [u8; 14] = [99, 111, 110, 116, 101, 110, 116, 45, 108, 101, 110, 103, 116, 104];
                let te_arr: [u8; 17] = [116, 114, 97, 110, 115, 102, 101, 114, 45, 101, 110, 99, 111, 100, 105, 110, 103];
                let chunked_arr: [u8; 7] = [99, 104, 117, 110, 107, 101, 100];
                proof {
                    reveal(cl_key);
                    reveal(te_key);
                    reveal(chunked_val);
                    assert(cl_arr@ =~= cl_key());
                    assert(te_arr@ =~= te_key());
                    assert(chunked_arr@ =~= chunked_val());
                    assert(crate::bytes::lower_bytes(cl_arr@) =~= cl_arr@);
                    assert(crate::bytes::lower_bytes(te_arr@) =~= te_arr@);
                }
                let has_cl = match self.header_parser.header(cl_arr.as_slice()) {
                    Some(_) => true,
                    None => false,
                };
                if has_cl {
                    self.parsing_state = ParsingState::BodyContentLength;
                } else {
                    let chunked = match self.header_parser.header(te_arr.as_slice()) {
                        Some(v) => crate::bytes::bytes_eq(v.as_slice(), chunked_arr.as_slice()),
                        None => false,
                    };
                    if chunked {
                        self.parsing_state = ParsingState::BodyChunked;
                    } else {
                        self.parsing_state = ParsingState::ParsingDone;
                    }
                }
                proof {
                    assert(mstep(kind, s, c0) == Some(self.config()));
                    lemma_mstep_progress(kind, s, c0, self.config());
                    lemma_run_step(kind, s, c0, self.config());
                }
                None
            },
            Err(_) => {
                self.failure = Some(ParseFailure::InvalidHeader);
                proof {
                    assert(mstep(kind, s, c0) == Some(self.config()));
                    lemma_mstep_progress(kind, s, c0, self.config());
                    lemma_run_step(kind, s, c0, self.config());
                }
                None
            },
        }
    }

    #[verifier::rlimit(100)]
    #[verifier::spinoff_prover]
    fn step_body_cl(&mut self) -> (r: Option<Step>)
        requires
            old(self).inv(),
            old(self).config().failed is None,
            old(self).config().state == ParsingState::BodyContentLength,
        ensures
            final(self).inv(),
            final(self).kind_view() == old(self).kind_view(),
            final(self).data_view() == old(self).data_view(),
            match r {
                None => final(self).config().pos >= old(self).config().pos && (final(self).config().pos > old(self).config().pos || rank_config(final(self).config())
                    < rank_config(old(self).config())),
                Some(st) => st == Step::NeedMoreBytes && final(self).config() == old(self).config()
                    && mstep(old(self).kind_view(), old(self).data_view(), old(self).config())
                    is None,
            },
    {
        let ghost kind = self.kind_view();
        let ghost s = self.data_view();
        let ghost c0 = self.config();
        let n = self.data.len();
        let cl_arr: [u8; 14] = [99, 111, 110, 116, 101, 110, 116, 45, 108, 101, 110, 103, 116, 104];
        proof {
            reveal(cl_key);
            assert(cl_arr@ =~= cl_key());
            assert(crate::bytes::lower_bytes(cl_arr@) =~= cl_arr@);
        }
        let parsed_cl: Option<usize> = match self.header_parser.header(cl_arr.as_slice()) {
            None => None,
            Some(v) => parse_dec(v.as_slice()),
        };
        match parsed_cl {
            None => {
                self.failure = Some(ParseFailure::BadContentLength);
                proof {
                    assert(mstep(kind, s, c0) == Some(self.config()));
                    lemma_mstep_progress(kind, s, c0, self.config());
                    lemma_run_step(kind, s, c0, self.config());
                }
                None
            },
            Some(cl) => {
                if n - self.body_cursor >= cl {
                    let body_slice = vstd::slice::slice_subrange(
                        self.data.as_slice(),
                        self.body_cursor,
                        self.body_cursor + cl,
                    );
                    self.body_parser.add_to_body(body_slice);
                    self.parsing_state = ParsingState::ParsingDone;
                    proof {
                        assert(body_slice@ =~= s.subrange(c0.bc, c0.bc + cl));
                        assert(mstep(kind, s, c0) == Some(self.config()));
                        lemma_mstep_progress(kind, s, c0, self.config());
                        lemma_run_step(kind, s, c0, self.config());
                    }
                    None
                } else {
                    proof {
                        assert(mstep(kind, s, c0) is None);
                    }
                    Some(Step::NeedMoreBytes)
                }
            },
        }
    }

    #[verifier::rlimit(100)]
    #[verifier::spinoff_prover]
    fn step_chunked(&mut self) -> (r: Option<Step>)
        requires
            old(self).inv(),
            old(self).config().failed is None,
            old(self).config().state == ParsingState::BodyChunked,
        ensures
            final(self).inv(),
            final(self).kind_view() == old(self).kind_view(),
            final(self).data_view() == old(self).data_view(),
            match r {
                None => final(self).config().pos >= old(self).config().pos && (final(self).config().pos > old(self).config().pos || rank_config(final(self).config())
                    < rank_config(old(self).config())),
                Some(st) => st == Step::NeedMoreBytes && final(self).config() == old(self).config()
                    && mstep(old(self).kind_view(), old(self).data_view(), old(self).config())
                    is None,
            },
    {
        let ghost kind = self.kind_view();
        let ghost s = self.data_view();
        let ghost c0 = self.config();
        let n = self.data.len();
        let step_r = self.body_parser.parse_body(
            vstd::slice::slice_subrange(self.data.as_slice(), self.current_position, n),
        );
        proof {
            assert(s.subrange(c0.pos, s.len() as int) =~= s.skip(c0.pos));
        }
        match step_r {
            Ok(i) => {
                self.current_position = self.current_position + i;
                proof {
                    assert(mstep(kind, s, c0) == Some(self.config()));
                    lemma_mstep_progress(kind, s, c0, self.config());
                    lemma_run_step(kind, s, c0, self.config());
                }
                None
            },
            Err(ParseError::NotEnoughBytes) => {
                proof {
                    assert(mstep(kind, s, c0) is None);
                }
                Some(Step::NeedMoreBytes)
            },
            Err(ParseError::HeadersDone) => {
                let rest = vstd::slice::slice_subrange(
                    self.data.as_slice(),
                    self.current_position,
                    n,
                );
                proof {
                    assert(rest@ =~= s.skip(c0.pos));
                }
                let i = match crate::scan::find_field_line_index(rest) {
                    Some(i) => i,
                    None => {
                        proof {
                            assert(false);
                        }
                        return Some(Step::NeedMoreBytes);
                    },
                };
                self.current_position = self.current_position + i;
                let trailer_arr: [u8; 7] = [116, 114, 97, 105, 108, 101, 114];
                proof {
                    reveal(trailer_key);
                    assert(trailer_arr@ =~= trailer_key());
                    assert(crate::bytes::lower_bytes(trailer_arr@) =~= trailer_arr@);
                }
                let has_trailer = match self.header_parser.header(trailer_arr.as_slice()) {
                    Some(_) => true,
                    None => false,
                };
                if has_trailer {
                    self.parsing_state = ParsingState::TrailerHeaders;
                } else {
                    self.parsing_state = ParsingState::ParsingDone;
                }
                proof {
                    assert(mstep(kind, s, c0) == Some(self.config()));
                    lemma_mstep_progress(kind, s, c0, self.config());
                    lemma_run_step(kind, s, c0, self.config());
                }
                None
            },
            Err(_) => {
                self.failure = Some(ParseFailure::BadChunk);
                proof {
                    assert(mstep(kind, s, c0) == Some(self.config()));
                    lemma_mstep_progress(kind, s, c0, self.config());
                    lemma_run_step(kind, s, c0, self.config());
                }
                None
            },
        }
    }

    #[verifier::rlimit(100)]
    #[verifier::spinoff_prover]
    fn step_trailers(&mut self) -> (r: Option<Step>)
        requires
            old(self).inv(),
            old(self).config().failed is None,
            old(self).config().state == ParsingState::TrailerHeaders,
        ensures
            final(self).inv(),
            final(self).kind_view() == old(self).kind_view(),
            final(self).data_view() == old(self).data_view(),
            match r {
                None => final(self).config().pos >= old(self).config().pos && (final(self).config().pos > old(self).config().pos || rank_config(final(self).config())
                    < rank_config(old(self).config())),
                Some(st) => st == Step::NeedMoreBytes && final(self).config() == old(self).config()
                    && mstep(old(self).kind_view(), old(self).data_view(), old(self).config())
                    is None,
            },
    {
        let ghost kind = self.kind_view();
        let ghost s = self.data_view();
        let ghost c0 = self.config();
        let n = self.data.len();
        let step_r = self.header_parser.parse_trailer_header(
            vstd::slice::slice_subrange(self.data.as_slice(), self.current_position, n),
        );
        proof {
            assert(s.subrange(c0.pos, s.len() as int) =~= s.skip(c0.pos));
        }
        match step_r {
            Ok(i) => {
                self.current_position = self.current_position + i;
                proof {
                    assert(mstep(kind, s, c0) == Some(self.config()));
                    lemma_mstep_progress(kind, s, c0, self.config());
                    lemma_run_step(kind, s, c0, self.config());
                }
                None
            },
            Err(HeaderParseError::NotEnoughBytes) => {
                proof {
                    assert(mstep(kind, s, c0) is None);
                }
                Some(Step::NeedMoreBytes)
            },
            Err(HeaderParseError::HeadersDone) => {
                proof {
                    assert(crate::headers::spec_starts_crlf(s.skip(c0.pos)));
                }
                self.current_position = self.current_position + 2;
                self.parsing_state = ParsingState::TrailerHeadersDone;
                proof {
                    assert(mstep(kind, s, c0) == Some(self.config()));
                    lemma_mstep_progress(kind, s, c0, self.config());
                    lemma_run_step(kind, s, c0, self.config());
                }
                None
            },
            Err(_) => {
                self.failure = Some(ParseFailure::InvalidHeader);
                proof {
                    assert(mstep(kind, s, c0) == Some(self.config()));
                    lemma_mstep_progress(kind, s, c0, self.config());
                    lemma_run_step(kind, s, c0, self.config());
                }
                None
            },
        }
    }

    /// Runs the machine over the buffered bytes until it finishes, fails,
    /// or needs more input. The result classifies the pure run of the
    /// whole buffer.
    #[verifier::rlimit(100)]
    #[verifier::spinoff_prover]
    pub fn advance(&mut self) -> (r: Step)
        requires
            old(self).inv(),
        ensures
            final(self).inv(),
            final(self).kind_view() == old(self).kind_view(),
            final(self).data_view() == old(self).data_view(),
            final(self).config() == run_machine(
                old(self).kind_view(),
                old(self).data_view(),
                init_config(),
            ),
            final(self).config() == run_machine(
                old(self).kind_view(),
                old(self).data_view(),
                old(self).config(),
            ),
            ({
                let c = run_machine(old(self).kind_view(), old(self).data_view(), init_config());
                match r {
                    Step::NeedMoreBytes => c.failed is None && !is_terminal(c.state),
                    Step::Complete => c.failed is None && is_terminal(c.state),
                    Step::Failed(f) => c.failed == Some(f),
                }
            }),
    {
        let ghost kind = self.kind_view();
        let ghost s = self.data_view();
        loop
            invariant
                self.inv(),
                self.kind_view() == kind,
                self.data_view() == s,
                kind == old(self).kind_view(),
                s == old(self).data_view(),
                run_machine(kind, s, old(self).config()) == run_machine(kind, s, init_config()),
            decreases s.len() - self.config().pos, rank_config(self.config()),
        {
            let ghost c0 = self.config();
            if let Some(f) = self.failure {
                proof {
                    assert(mstep(kind, s, c0) is None);
                    lemma_run_blocked(kind, s, c0);
                }
                return Step::Failed(f);
            }
            let outcome: Option<Step> = match self.parsing_state {
                ParsingState::FrontSeparateBody => self.step_front(),
                ParsingState::FirstLine => self.step_first_line(),
                ParsingState::Headers => self.step_headers(),
                ParsingState::BodyContentLength => self.step_body_cl(),
                ParsingState::BodyChunked => self.step_chunked(),
                ParsingState::TrailerHeaders => self.step_trailers(),
                ParsingState::TrailerHeadersDone | ParsingState::BodyDone
                    | ParsingState::ParsingDone => {
                    proof {
                        assert(mstep(kind, s, c0) is None);
                        lemma_run_blocked(kind, s, c0);
                    }
                    return Step::Complete;
                },
            };
            if let Some(st) = outcome {
                proof {
                    lemma_run_blocked(kind, s, self.config());
                }
                return st;
            }
        }
    }

    /// Reads from the stream and advances until the message completes or
    /// fails. Success holds exactly when the bytes read parse to a
    /// complete message. A stream with no bytes at all is the quiet
    /// `FalseAlarm`, with nothing consumed and nothing changed; one that
    /// runs dry in the middle of a message is `UpstreamClosed`, with the
    /// machine still needing input; any other failure is the machine's
    /// own. The stream is only read: its write side is untouched.
    #[verifier::rlimit(100)]
    #[verifier::spinoff_prover]
    pub fn parse(&mut self, stream: &mut MockStream) -> (r: Result<(), ParseFailure>)
        requires
            old(self).inv(),
            old(stream).wf(),
        ensures
            final(self).inv(),
            final(stream).wf(),
            final(self).kind_view() == old(self).kind_view(),
            final(stream).data_view() == old(stream).data_view(),
            final(stream).received_view() == old(stream).received_view(),
            old(stream).pos_view() <= final(stream).pos_view(),
            final(self).data_view() == old(self).data_view() + old(stream).data_view().subrange(
                old(stream).pos_view(),
                final(stream).pos_view(),
            ),
            ({
                let c = run_machine(
                    final(self).kind_view(),
                    final(self).data_view(),
                    init_config(),
                );
                match r {
                    Ok(()) => c.failed is None && is_terminal(c.state) && final(self).config()
                        == c,
                    Err(f) => (f == ParseFailure::FalseAlarm && old(stream).pos_view() == old(stream).data_view().len() && final(stream).pos_view() == old(stream).pos_view() && final(self).data_view() == old(self).data_view() && final(self).config() == old(self).config()) || (f
                        == ParseFailure::UpstreamClosed && final(stream).pos_view() == final(stream).data_view().len() && old(stream).pos_view() < final(stream).pos_view() && c.failed is None && !is_terminal(c.state) && final(self).config() == c) || (c.failed == Some(f) && final(self).config() == c),
                }
            }),
    {
        let first = stream.read_chunk(1024);
        if first.len() == 0 {
            proof {
                assert(old(stream).data_view().subrange(
                    old(stream).pos_view(),
                    old(stream).pos_view(),
                ) =~= Seq::<u8>::empty());
                assert(self.data_view() =~= self.data_view() + Seq::<u8>::empty());
            }
            return Err(ParseFailure::FalseAlarm);
        }
        self.add_to_data(first.as_slice());
        loop
            invariant
                self.inv(),
                stream.wf(),
                self.kind_view() == old(self).kind_view(),
                stream.data_view() == old(stream).data_view(),
                stream.received_view() == old(stream).received_view(),
                old(stream).wf(),
                old(stream).pos_view() < stream.pos_view(),
                self.data_view() == old(self).data_view() + old(stream).data_view().subrange(
                    old(stream).pos_view(),
                    stream.pos_view(),
                ),
            decreases stream.data_view().len() - stream.pos_view(),
        {
            match self.advance() {
                Step::Complete => {
                    return Ok(());
                },
                Step::Failed(f) => {
                    return Err(f);
                },
                Step::NeedMoreBytes => {
                    let ghost p_before = stream.pos_view();
                    let chunk = stream.read_chunk(1024);
                    if chunk.len() == 0 {
                        return Err(ParseFailure::UpstreamClosed);
                    }
                    self.add_to_data(chunk.as_slice());
                    proof {
                        let sd = old(stream).data_view();
                        assert(sd.subrange(old(stream).pos_view(), p_before) + sd.subrange(
                            p_before,
                            stream.pos_view(),
                        ) =~= sd.subrange(old(stream).pos_view(), stream.pos_view()));
                        assert(self.data_view() =~= old(self).data_view() + sd.subrange(
                            old(stream).pos_view(),
                            stream.pos_view(),
                        ));
                    }
                },
            }
        }
    }


    /// Which first line this parser expects.
    pub fn kind(&self) -> (r: LineKind)
        ensures
            r == self.kind_view(),
    {
        self.kind
    }

    /// Whether the machine is at or beyond the body.
    pub fn is_past_headers(&self) -> (r: bool)
        ensures
            r == past_headers(self.config().state),
    {
        match self.parsing_state {
            ParsingState::BodyContentLength | ParsingState::BodyChunked
                | ParsingState::TrailerHeaders | ParsingState::TrailerHeadersDone
                | ParsingState::BodyDone | ParsingState::ParsingDone => true,
            _ => false,
        }
    }

    /// How many bytes have been buffered.
    pub fn data_len(&self) -> (r: usize)
        ensures
            r == self.data_view().len(),
    {
        self.data.len()
    }

    /// Where the body region starts in the buffer.
    pub fn body_cursor(&self) -> (r: usize)
        requires
            self.inv(),
        ensures
            r == self.config().bc,
            r <= self.data_view().len(),
    {
        self.body_cursor
    }

    /// A window of the buffered bytes.
    pub fn data_slice(&self, from: usize, to: usize) -> (r: &[u8])
        requires
            from <= to <= self.data_view().len(),
        ensures
            r@ == self.data_view().subrange(from as int, to as int),
    {
        vstd::slice::slice_subrange(self.data.as_slice(), from, to)
    }

    /// The parsed request line, meaningful for a request parser.
    pub fn request_line_ref(&self) -> (r: Option<&RequestLine>)
        ensures
            self.kind_view() == LineKind::Request ==> match r {
                Some(rl) => self.config().first == Some(
                    (rl.method_view(), rl.target_view(), rl.version_view()),
                ),
                None => self.config().first is None,
            },
    {
        match &self.request_line {
            Some(rl) => Some(rl),
            None => None,
        }
    }

    /// The parsed status line, meaningful for a response parser.
    pub fn response_line_ref(&self) -> (r: Option<&ResponseLine>)
        ensures
            self.kind_view() == LineKind::Response ==> match r {
                Some(rl) => self.config().first == Some(
                    (rl.version_view(), rl.code_view(), rl.message_view()),
                ),
                None => self.config().first is None,
            },
    {
        match &self.response_line {
            Some(rl) => Some(rl),
            None => None,
        }
    }

    /// The primary headers parsed so far.
    pub fn headers_ref(&self) -> (r: &HeaderMap)
        ensures
            r@ == self.config().headers,
    {
        self.header_parser.get_headers_ref()
    }

    /// The parsed request, once a request parse has completed.
    pub fn create_request_payload(self) -> (r: Request)
        requires
            self.kind_view() == LineKind::Request,
            self.config().first is Some,
            self.inv(),
        ensures
            ({
                let fl = self.config().first.unwrap();
                r.method_view() == fl.0 && r.target_view() == fl.1 && r.version_view() == fl.2
                    && r.headers_view() == self.config().headers && r.body_view()
                    == self.config().body && r.wf()
            }),
    {
        let rl = match self.request_line {
            Some(rl) => rl,
            None => {
                proof {
                    assert(false);
                }
                RequestLine::default()
            },
        };
        Request {
            request_line: rl,
            headers: self.header_parser.get_headers(),
            body: self.body_parser.get_body(),
        }
    }

    /// The parsed response, once a response parse has completed.
    pub fn create_response_payload(self) -> (r: Response)
        requires
            self.kind_view() == LineKind::Response,
            self.config().first is Some,
        ensures
            ({
                let fl = self.config().first.unwrap();
                r.version_view() == fl.0 && r.code_view() == fl.1 && r.message_view() == fl.2
                    && r.headers_view() == self.config().headers && r.body_view()
                    == self.config().body
            }),
    {
        let rl = match self.response_line {
            Some(rl) => rl,
            None => {
                proof {
                    assert(false);
                }
                ResponseLine::default()
            },
        };
        Response {
            response_line: rl,
            headers: self.header_parser.get_headers(),
            body: self.body_parser.get_body(),
        }
    }

    /// The trailer headers parsed after a chunked body.
    pub fn trailer_headers(&self) -> (r: &HeaderMap)
        ensures
            r@ == self.config().trailers,
    {
        self.header_parser.get_trailer_headers_ref()
    }
}


} // verus!
