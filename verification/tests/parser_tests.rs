use single_threaded_server::first_line::{FirstLineParseError, FirstLineParser,
    FirstLineRequestParser, FirstLineResponseParser};
use single_threaded_server::message::{LineKind, ParseFailure, Parser, Step};
use single_threaded_server::mock::MockStream;
use single_threaded_server::routing::HttpVerb;

fn parse_request_bytes(bytes: &[u8]) -> Result<single_threaded_server::message::Request, ParseFailure> {
    let mut stream = MockStream::new(bytes.to_vec());
    let mut parser = Parser::new(LineKind::Request);
    parser.parse(&mut stream)?;
    Ok(parser.create_request_payload())
}

#[test]
fn simple_get_parses() {
    let req = parse_request_bytes(b"GET /hello HTTP/1.1\r\nHost: x\r\n\r\n").unwrap();
    assert_eq!(req.request_method(), HttpVerb::GET);
    assert_eq!(req.request_path(), b"/hello");
    assert_eq!(req.body(), b"");
    assert_eq!(req.header(b"host").unwrap().as_slice(), b"x");
}

#[test]
fn content_length_body_is_exact() {
    let req = parse_request_bytes(
        b"POST /echo HTTP/1.1\r\nHost: x\r\nContent-Type: application/json\r\nContent-Length: 8\r\n\r\n{\"n\":42}",
    )
    .unwrap();
    assert_eq!(req.request_method(), HttpVerb::POST);
    assert_eq!(req.body(), b"{\"n\":42}");
    assert_eq!(
        req.header(b"content-type").unwrap().as_slice(),
        b"application/json"
    );
}

#[test]
fn content_length_truncates_extra_bytes() {
    let req = parse_request_bytes(
        b"POST /u HTTP/1.1\r\nHost: x\r\nContent-Length: 3\r\n\r\nabcdef",
    )
    .unwrap();
    assert_eq!(req.body(), b"abc");
}

#[test]
fn chunked_body_reassembles() {
    let req = parse_request_bytes(
        b"POST /u HTTP/1.1\r\nHost: x\r\nContent-Type: text/plain\r\nTransfer-Encoding: chunked\r\n\r\n5\r\nhello\r\n6\r\n world\r\n0\r\n\r\n",
    )
    .unwrap();
    assert_eq!(req.body(), b"hello world");
}

#[test]
fn chunk_extension_is_ignored() {
    let req = parse_request_bytes(
        b"POST /u HTTP/1.1\r\nHost: x\r\nTransfer-Encoding: chunked\r\n\r\n5;ext=1\r\nhello\r\n0\r\n\r\n",
    )
    .unwrap();
    assert_eq!(req.body(), b"hello");
}

#[test]
fn trailers_after_chunked_body() {
    let mut stream = MockStream::new(
        b"POST /u HTTP/1.1\r\nHost: x\r\nTrailer: x-check\r\nTransfer-Encoding: chunked\r\n\r\n3\r\nabc\r\n0\r\nx-check: 9\r\n\r\n"
            .to_vec(),
    );
    let mut parser = Parser::new(LineKind::Request);
    parser.parse(&mut stream).unwrap();
    assert_eq!(
        parser.trailer_headers().get(b"x-check").unwrap().as_slice(),
        b"9"
    );
    let req = parser.create_request_payload();
    assert_eq!(req.body(), b"abc");
}

#[test]
fn chunking_invariance_byte_by_byte() {
    let wire: &[u8] =
        b"POST /u HTTP/1.1\r\nHost: x\r\nTransfer-Encoding: chunked\r\n\r\n5\r\nhello\r\n6\r\n world\r\n0\r\n\r\n";

    // All at once.
    let mut all = Parser::new(LineKind::Request);
    all.add_to_data(wire);
    assert_eq!(all.advance(), Step::Complete);
    let req_all = all.create_request_payload();

    // One byte at a time. Completion may come before the last bytes:
    // with no trailers declared, the final blank line is never needed.
    let mut one = Parser::new(LineKind::Request);
    let mut done = false;
    for b in wire {
        one.add_to_data(&[*b]);
        match one.advance() {
            Step::Complete => done = true,
            Step::NeedMoreBytes => {}
            Step::Failed(f) => panic!("unexpected failure {:?}", f),
        }
        if done {
            break;
        }
    }
    assert!(done);
    let req_one = one.create_request_payload();

    assert_eq!(req_all.body(), req_one.body());
    assert_eq!(req_all.request_path(), req_one.request_path());
    assert_eq!(req_all.request_method(), req_one.request_method());
    assert_eq!(
        req_all.header(b"transfer-encoding").unwrap(),
        req_one.header(b"transfer-encoding").unwrap()
    );
}

#[test]
fn duplicate_headers_combine_in_order() {
    let req = parse_request_bytes(
        b"GET / HTTP/1.1\r\nX-K: a\r\nHost: x\r\nX-K: b\r\n\r\n",
    )
    .unwrap();
    assert_eq!(req.header(b"x-k").unwrap().as_slice(), b"a,b");
}

#[test]
fn header_lookup_is_case_insensitive() {
    let req = parse_request_bytes(b"GET / HTTP/1.1\r\nCoNtEnT-TyPe: text/plain\r\n\r\n").unwrap();
    assert_eq!(req.header(b"Content-Type").unwrap().as_slice(), b"text/plain");
    assert_eq!(req.header(b"content-type").unwrap().as_slice(), b"text/plain");
    // Stored keys are lowercase: the rendered map exposes the entry.
    let hm = req.headers();
    let e = hm.entry_at(0);
    assert_eq!(e.0.as_slice(), b"content-type");
}

#[test]
fn header_values_are_trimmed() {
    let req = parse_request_bytes(b"GET / HTTP/1.1\r\nHost:   spaced out  \r\n\r\n").unwrap();
    assert_eq!(req.header(b"host").unwrap().as_slice(), b"spaced out");
}

#[test]
fn request_path_and_query_split_at_first_question_mark() {
    let req = parse_request_bytes(b"GET /42/bob?k=v&x=y HTTP/1.1\r\nHost: x\r\n\r\n").unwrap();
    assert_eq!(req.request_path(), b"/42/bob");
    assert_eq!(req.query_params_string(), b"k=v&x=y");

    let req2 = parse_request_bytes(b"GET /plain HTTP/1.1\r\nHost: x\r\n\r\n").unwrap();
    assert_eq!(req2.request_path(), b"/plain");
    assert_eq!(req2.query_params_string(), b"");
}

#[test]
fn invalid_method_is_rejected() {
    let r = parse_request_bytes(b"BREW /pot HTTP/1.1\r\nHost: x\r\n\r\n");
    assert!(matches!(r, Err(ParseFailure::InvalidHttpMethod)));
}

#[test]
fn missing_version_is_rejected() {
    let r = parse_request_bytes(b"GET /pot JUNK\r\nHost: x\r\n\r\n");
    assert!(matches!(r, Err(ParseFailure::MissingHttpVersion)));
}

#[test]
fn short_first_line_is_rejected() {
    let r = parse_request_bytes(b"GET\r\nHost: x\r\n\r\n");
    assert!(matches!(r, Err(ParseFailure::FirstLinePartsMissing)));
}

#[test]
fn bad_header_name_is_rejected() {
    let r = parse_request_bytes(b"GET / HTTP/1.1\r\nBad Key: x\r\n\r\n");
    assert!(matches!(r, Err(ParseFailure::InvalidHeader)));
}

#[test]
fn bad_content_length_is_rejected() {
    let r = parse_request_bytes(b"GET / HTTP/1.1\r\nContent-Length: abc\r\n\r\n");
    assert!(matches!(r, Err(ParseFailure::BadContentLength)));
}

#[test]
fn bad_chunk_size_is_rejected() {
    let r = parse_request_bytes(
        b"POST /u HTTP/1.1\r\nTransfer-Encoding: chunked\r\n\r\nzz\r\nhello\r\n0\r\n\r\n",
    );
    assert!(matches!(r, Err(ParseFailure::BadChunk)));
}

#[test]
fn empty_stream_is_a_false_alarm() {
    let r = parse_request_bytes(b"");
    assert!(matches!(r, Err(ParseFailure::FalseAlarm)));
}

#[test]
fn truncated_message_reports_upstream_closed() {
    let r = parse_request_bytes(b"POST /u HTTP/1.1\r\nContent-Length: 10\r\n\r\nabc");
    assert!(matches!(r, Err(ParseFailure::UpstreamClosed)));
}

#[test]
fn response_reason_phrase_keeps_all_words() {
    let mut stream = MockStream::new(b"HTTP/1.1 404 Not Found\r\nServer: t\r\n\r\n".to_vec());
    let mut parser = Parser::new(LineKind::Response);
    parser.parse(&mut stream).unwrap();
    let resp = parser.create_response_payload();
    assert_eq!(resp.response_line().status_code().as_slice(), b"404");
    assert_eq!(resp.response_line().status_message().as_slice(), b"Not Found");
    assert_eq!(resp.response_line().http_version().as_slice(), b"1.1");
}

#[test]
fn head_requests_parse_with_their_own_verb() {
    let req = parse_request_bytes(b"HEAD /index HTTP/1.1\r\nHost: x\r\n\r\n").unwrap();
    assert_eq!(req.request_method(), HttpVerb::HEAD);
    assert_eq!(req.request_path(), b"/index");
}

#[test]
fn standalone_first_line_parsers_signal_missing_line_end() {
    let mut rp = FirstLineRequestParser::new();
    let r = rp.parse_first_line(b"GET /x HTTP/1.1");
    assert!(matches!(r, Err(FirstLineParseError::NotEnoughBytes)));
    let ok = rp.parse_first_line(b"GET /x HTTP/1.1\r\n");
    assert_eq!(ok.unwrap(), 17);

    let mut sp = FirstLineResponseParser::new();
    let r2 = sp.parse_first_line(b"HTTP/1.1 200 OK");
    assert!(matches!(r2, Err(FirstLineParseError::NotEnoughBytes)));
}
