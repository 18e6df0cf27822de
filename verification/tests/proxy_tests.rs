use single_threaded_server::message::{LineKind, Parser};
use single_threaded_server::mock::MockStream;
use single_threaded_server::proxy::ProxyParser;

#[test]
fn proxied_request_rewrites_line_and_host() {
    let wire = b"GET /things?a=1 HTTP/1.1\r\nHost: local\r\nAccept: text/plain\r\n\r\n";
    let mut client = MockStream::new(wire.to_vec());
    let mut upstream = MockStream::new(Vec::new());
    let mut proxy = ProxyParser::new(LineKind::Request, b"httpbin.org:80".to_vec());
    proxy.parse(&mut client, &mut upstream).unwrap();
    let sent = upstream.into_received();
    let expected = b"GET /things?a=1 HTTP/1.1\r\n\
Host: httpbin.org:80\r\n\
accept: text/plain\r\n\
\r\n";
    assert_eq!(sent, expected.to_vec());
}

#[test]
fn proxied_chunked_body_keeps_its_framing() {
    let wire = b"POST /up HTTP/1.1\r\nHost: local\r\nTransfer-Encoding: chunked\r\n\r\n5\r\nhello\r\n6\r\n world\r\n0\r\n\r\n";
    let mut client = MockStream::new(wire.to_vec());
    let mut upstream = MockStream::new(Vec::new());
    let mut proxy = ProxyParser::new(LineKind::Request, b"up.example".to_vec());
    proxy.parse(&mut client, &mut upstream).unwrap();
    let sent = upstream.into_received();

    // The upstream sees the same chunked framing, byte for byte.
    let tail = b"5\r\nhello\r\n6\r\n world\r\n0\r\n\r\n";
    assert!(sent.ends_with(tail));

    // And what it received reconstructs to the same payload.
    let mut re_stream = MockStream::new(sent);
    let mut re_parser = Parser::new(LineKind::Request);
    re_parser.parse(&mut re_stream).unwrap();
    let req = re_parser.create_request_payload();
    assert_eq!(req.body(), b"hello world");
    assert_eq!(req.header(b"host").unwrap().as_slice(), b"up.example");
}

#[test]
fn proxied_response_streams_back_with_fixed_version() {
    let wire = b"HTTP/1.1 200 OK\r\nContent-Length: 2\r\nServer: up\r\n\r\nok";
    let mut upstream = MockStream::new(wire.to_vec());
    let mut client = MockStream::new(Vec::new());
    let mut proxy = ProxyParser::new(LineKind::Response, Vec::new());
    proxy.parse(&mut upstream, &mut client).unwrap();
    let sent = client.into_received();
    let expected = b"HTTP/1.1 200 OK\r\n\
content-length: 2\r\n\
server: up\r\n\
\r\n\
ok";
    assert_eq!(sent, expected.to_vec());
}

#[test]
fn proxy_reports_a_silent_close() {
    let mut client = MockStream::new(Vec::new());
    let mut upstream = MockStream::new(Vec::new());
    let mut proxy = ProxyParser::new(LineKind::Request, b"h".to_vec());
    let r = proxy.parse(&mut client, &mut upstream);
    assert!(r.is_err());
    assert!(upstream.into_received().is_empty());
}
