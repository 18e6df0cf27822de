use single_threaded_server::extractor::BodyContentError;
use single_threaded_server::routing::RoutingError;
use single_threaded_server::headers::HeaderMap;
use single_threaded_server::message::{LineKind, Parser};
use single_threaded_server::mock::MockStream;
use single_threaded_server::response::{get_common_headers,
    get_common_headers_with_content_type_header, get_preflight_headers, write_status_line,
    ContentType, IntoResponse, Response, StatusCode, StatusMessage};
use single_threaded_server::writer::ResponseWriter;

fn count_occurrences(haystack: &[u8], needle: &[u8]) -> usize {
    if needle.is_empty() || haystack.len() < needle.len() {
        return 0;
    }
    let mut n = 0;
    for i in 0..=haystack.len() - needle.len() {
        if &haystack[i..i + needle.len()] == needle {
            n += 1;
        }
    }
    n
}

#[test]
fn status_lines_are_canonical() {
    let mut out = Vec::new();
    write_status_line(&mut out, StatusCode::Okay);
    assert_eq!(out, b"HTTP/1.1 200 OK\r\n".to_vec());
    out.clear();
    write_status_line(&mut out, StatusCode::NotFound);
    assert_eq!(out, b"HTTP/1.1 404 Not Found\r\n".to_vec());
    out.clear();
    write_status_line(&mut out, StatusCode::MethodNotAllowed);
    assert_eq!(out, b"HTTP/1.1 405 Method Not Allowed\r\n".to_vec());
    out.clear();
    write_status_line(&mut out, StatusCode::InternalServerError);
    assert_eq!(out, b"HTTP/1.1 500 Internal Server Error\r\n".to_vec());
}

#[test]
fn fixed_body_sets_exactly_one_content_length() {
    let writer = ResponseWriter::new();
    let body = writer
        .write_status_line(StatusCode::Okay)
        .write_default_headers(ContentType::TextPlain);
    let bytes = body.write_body_plain_text(b"hello").into_bytes();
    let expected = b"HTTP/1.1 200 OK\r\n\
access-control-allow-origin: https://hoppscotch.io\r\n\
connection: close\r\n\
content-type: text/plain\r\n\
content-length: 5\r\n\
\r\n\
hello";
    assert_eq!(bytes, expected.to_vec());
    assert_eq!(count_occurrences(&bytes, b"content-length"), 1);
    assert_eq!(count_occurrences(&bytes, b"transfer-encoding"), 0);
}

#[test]
fn chunked_body_sets_exactly_one_transfer_encoding() {
    let writer = ResponseWriter::new();
    let mut body = writer
        .write_status_line(StatusCode::Okay)
        .write_default_headers(ContentType::TextPlain);
    body.write_chunk(b"hello");
    body.write_chunk(b" world");
    let bytes = body.write_chunked_body_done().into_bytes();
    let expected = b"HTTP/1.1 200 OK\r\n\
access-control-allow-origin: https://hoppscotch.io\r\n\
connection: close\r\n\
content-type: text/plain\r\n\
transfer-encoding: chunked\r\n\
\r\n\
5\r\nhello\r\n6\r\n world\r\n0\r\n\r\n";
    assert_eq!(bytes, expected.to_vec());
    assert_eq!(count_occurrences(&bytes, b"transfer-encoding"), 1);
    assert_eq!(count_occurrences(&bytes, b"content-length"), 0);
}

#[test]
fn reserved_keys_in_user_headers_are_dropped() {
    let mut custom = HeaderMap::new();
    custom.insert_combining(b"x-app".to_vec(), b"1".to_vec());
    custom.insert_combining(b"content-length".to_vec(), b"999".to_vec());
    custom.insert_combining(b"transfer-encoding".to_vec(), b"chunked".to_vec());
    custom.insert_combining(b"connection".to_vec(), b"keep-alive".to_vec());
    let writer = ResponseWriter::new();
    let body = writer
        .write_status_line(StatusCode::Okay)
        .write_headers(&custom, ContentType::TextHtml);
    let bytes = body.write_body_html(b"<p>hi</p>").into_bytes();
    assert_eq!(count_occurrences(&bytes, b"999"), 0);
    assert_eq!(count_occurrences(&bytes, b"keep-alive"), 0);
    assert_eq!(count_occurrences(&bytes, b"x-app: 1"), 1);
    assert_eq!(count_occurrences(&bytes, b"content-length: 9"), 1);
}

#[test]
fn empty_body_has_zero_content_length() {
    let writer = ResponseWriter::new();
    let bytes = writer
        .write_status_line(StatusCode::NotFound)
        .write_default_headers(ContentType::TextPlain)
        .write_empty_body()
        .into_bytes();
    assert_eq!(count_occurrences(&bytes, b"content-length: 0"), 1);
}

#[test]
fn trailer_declaring_writer_emits_trailers_after_terminator() {
    let custom = HeaderMap::new();
    let writer = ResponseWriter::new();
    let mut chunked = writer.write_status_line(StatusCode::Okay).write_headers_with_trailer_headers(
        &custom,
        &vec![b"x-check".to_vec()],
        ContentType::TextPlain,
    );
    chunked.write_chunk(b"abc");
    chunked.write_chunked_body_done();
    let mut trailers = HeaderMap::new();
    trailers.insert_combining(b"x-check".to_vec(), b"9".to_vec());
    let bytes = chunked.write_trailer_headers(&trailers).into_bytes();
    let expected = b"HTTP/1.1 200 OK\r\n\
access-control-allow-origin: https://hoppscotch.io\r\n\
connection: close\r\n\
content-type: text/plain\r\n\
trailer: x-check\r\n\
transfer-encoding: chunked\r\n\
\r\n\
3\r\nabc\r\n0\r\nx-check: 9\r\n\r\n";
    assert_eq!(bytes, expected.to_vec());
}

#[test]
fn preflight_headers_render_as_the_fixed_set() {
    let headers = get_preflight_headers();
    assert_eq!(headers.get(b"content-length").unwrap().as_slice(), b"0");
    assert_eq!(
        headers.get(b"access-control-allow-origin").unwrap().as_slice(),
        b"https://hoppscotch.io"
    );
    assert_eq!(
        headers.get(b"access-control-allow-methods").unwrap().as_slice(),
        b"*"
    );
    assert_eq!(
        headers.get(b"access-control-allow-headers").unwrap().as_slice(),
        b"*"
    );
    assert_eq!(headers.get(b"connection").unwrap().as_slice(), b"close");
    assert_eq!(headers.len(), 6);
}

#[test]
fn common_headers_hold_the_exact_body_length() {
    let headers = get_common_headers_with_content_type_header(b"0123456789", ContentType::ImageJpeg);
    assert_eq!(headers.get(b"content-length").unwrap().as_slice(), b"10");
    assert_eq!(headers.get(b"content-type").unwrap().as_slice(), b"image/jpeg");
    let plain = get_common_headers();
    assert_eq!(plain.get(b"content-length").unwrap().as_slice(), b"0");
}

#[test]
fn emitted_response_parses_back_to_the_same_value() {
    let headers = get_common_headers_with_content_type_header(b"payload", ContentType::TextPlain);
    let response = Response::new(StatusMessage::Okay, StatusCode::Okay, headers, b"payload".to_vec());
    let wire = response.to_bytes();

    let mut stream = MockStream::new(wire);
    let mut parser = Parser::new(LineKind::Response);
    parser.parse(&mut stream).unwrap();
    let parsed = parser.create_response_payload();
    assert_eq!(parsed.response_line().status_code().as_slice(), b"200");
    assert_eq!(parsed.response_line().status_message().as_slice(), b"OK");
    assert_eq!(parsed.body(), b"payload");
    assert_eq!(parsed.headers().get(b"content-type").unwrap().as_slice(), b"text/plain");
}

#[test]
fn error_values_present_as_bad_request_responses() {
    let r = BodyContentError::ContentTypeMisMatch.into_response();
    assert_eq!(*r.status_code(), StatusCode::BadRequest);
    assert_eq!(r.body(), b"content type mismatch");
    let r2 = RoutingError::NotFound.into_response();
    assert_eq!(*r2.status_code(), StatusCode::BadRequest);
    assert_eq!(r2.body(), b"Not Found or url encoded error");
}
